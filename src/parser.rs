use crate::input::{token_at, valid, Input, ParseError, Token};
use vstd::prelude::*;

verus! {

/// What a parse gives from a position: its result, the value or the error,
/// and the position at which it left the cursor.
pub type Outcome<O> = (Result<O, ParseError>, int);

/// A failure reported at position `pos`.
pub open spec fn fail_at<O>(pos: int) -> Result<O, ParseError> {
    Err(ParseError { pos: pos as usize })
}

/// A parser over a stream of `T`. Its behaviour is a function of the
/// stream and the position alone, given by `outcome`.
pub trait Parser<T: Token> {
    type Output;

    spec fn outcome(&self, toks: Seq<T>, pos: int) -> Outcome<Self::Output>;

    /// A parse never moves the cursor backwards nor past the end.
    proof fn lemma_outcome_bounds(&self, toks: Seq<T>, pos: int)
        requires
            0 <= pos <= toks.len(),
        ensures
            pos <= self.outcome(toks, pos).1 <= toks.len(),
    ;

    fn parse<I: Input<T>>(&self, input: &mut I) -> (r: Result<Self::Output, ParseError>)
        requires
            valid(old(input)),
        ensures
            valid(final(input)),
            final(input).tokens() == old(input).tokens(),
            self.outcome(old(input).tokens(), old(input).pos() as int) == (
                r,
                final(input).pos() as int,
            ),
    ;
}

/// Whether `p` consumes at least one token whenever it succeeds before the end of `toks`.
pub open spec fn advances<T: Token, P: Parser<T>>(p: &P, toks: Seq<T>) -> bool {
    forall|pos: int|
        0 <= pos < toks.len() && (#[trigger] p.outcome(toks, pos)).0 is Ok ==> p.outcome(
            toks,
            pos,
        ).1 > pos
}

/// Whether `p` consumes at least one token whenever it succeeds, the end of
/// `toks` included.
pub open spec fn consumes<T: Token, P: Parser<T>>(p: &P, toks: Seq<T>) -> bool {
    forall|pos: int|
        0 <= pos <= toks.len() && (#[trigger] p.outcome(toks, pos)).0 is Ok ==> p.outcome(
            toks,
            pos,
        ).1 > pos
}

/// A test on single tokens.
pub trait TokenPredicate<T> {
    spec fn holds(&self, c: T) -> bool;

    fn test(&self, c: T) -> (r: bool)
        ensures
            r == self.holds(c),
    ;
}

/// A set of tokens; as a parser, it consumes one token from the set.
pub struct TokenSet<T> {
    pub tokens: Vec<T>,
}

impl<T: Token> TokenSet<T> {
    pub fn new(tokens: Vec<T>) -> (r: TokenSet<T>)
        ensures
            r.tokens@ == tokens@,
    {
        TokenSet { tokens }
    }
}

impl<T: Token> TokenPredicate<T> for TokenSet<T> {
    open spec fn holds(&self, c: T) -> bool {
        self.tokens@.contains(c)
    }

    fn test(&self, c: T) -> (r: bool) {
        let mut i: usize = 0;
        while i < self.tokens.len()
            invariant
                i <= self.tokens@.len(),
                forall|j: int| 0 <= j < i ==> self.tokens@[j] != c,
            decreases self.tokens@.len() - i,
        {
            if self.tokens[i].same(&c) {
                return true;
            }
            i = i + 1;
        }
        false
    }
}

impl<T: Token> Parser<T> for TokenSet<T> {
    type Output = T;

    open spec fn outcome(&self, toks: Seq<T>, pos: int) -> Outcome<T> {
        if 0 <= pos < toks.len() && self.tokens@.contains(toks[pos]) {
            (Ok(toks[pos]), pos + 1)
        } else {
            (fail_at(pos), pos)
        }
    }

    proof fn lemma_outcome_bounds(&self, toks: Seq<T>, pos: int) {
    }

    fn parse<I: Input<T>>(&self, input: &mut I) -> (r: Result<T, ParseError>) {
        match input.peek() {
            Some(c) => {
                if self.test(c) {
                    Ok(input.advance())
                } else {
                    Err(ParseError { pos: input.position() })
                }
            },
            None => Err(ParseError { pos: input.position() }),
        }
    }
}

/// The value of a decimal digit character.
pub open spec fn digit_value(c: char) -> Option<u32> {
    if '0' <= c && c <= '9' {
        Some((c as u32 - '0' as u32) as u32)
    } else {
        None
    }
}

/// Consumes one decimal digit and gives its value.
pub struct Digit;

impl Parser<char> for Digit {
    type Output = u32;

    open spec fn outcome(&self, toks: Seq<char>, pos: int) -> Outcome<u32> {
        if 0 <= pos < toks.len() && digit_value(toks[pos]) is Some {
            (Ok(digit_value(toks[pos])->Some_0), pos + 1)
        } else {
            (fail_at(pos), pos)
        }
    }

    proof fn lemma_outcome_bounds(&self, toks: Seq<char>, pos: int) {
    }

    fn parse<I: Input<char>>(&self, input: &mut I) -> (r: Result<u32, ParseError>) {
        match input.peek() {
            Some(c) => {
                if '0' <= c && c <= '9' {
                    let d = input.advance();
                    Ok(d as u32 - '0' as u32)
                } else {
                    Err(ParseError { pos: input.position() })
                }
            },
            None => Err(ParseError { pos: input.position() }),
        }
    }
}

/// Runs `item`, then consumes `sep` if it comes next.
pub struct Terminated<P, T> {
    pub item: P,
    pub sep: T,
}

impl<T: Token, P: Parser<T>> Parser<T> for Terminated<P, T> {
    type Output = P::Output;

    open spec fn outcome(&self, toks: Seq<T>, pos: int) -> Outcome<P::Output> {
        let (v, q) = self.item.outcome(toks, pos);
        if v is Ok && token_at(toks, q, self.sep) {
            (v, q + 1)
        } else {
            (v, q)
        }
    }

    proof fn lemma_outcome_bounds(&self, toks: Seq<T>, pos: int) {
        self.item.lemma_outcome_bounds(toks, pos);
    }

    fn parse<I: Input<T>>(&self, input: &mut I) -> (r: Result<P::Output, ParseError>) {
        let v = self.item.parse(input);
        if v.is_ok() {
            let _ = input.eat(self.sep);
        }
        v
    }
}

} // verus!
