use crate::parser::Parser;
use vstd::prelude::*;

verus! {

/// The reason a parse did not succeed: the position at which it stopped.
#[derive(Debug, Clone, Copy, PartialEq, Eq)]
pub struct ParseError {
    pub pos: usize,
}

/// Describes the operation that takes a checkpoint (for tracing only).
#[derive(Debug, Clone, Copy)]
pub struct ParserInfo {
    pub name: &'static str,
    pub raw: bool,
}

/// A snapshot of a cursor's position, with the operation that took it.
#[derive(Debug, Clone, Copy)]
pub struct Checkpoint {
    pos: usize,
    info: ParserInfo,
}

impl Checkpoint {
    /// The position that the checkpoint restores.
    pub closed spec fn at(&self) -> nat {
        self.pos as nat
    }

    /// The operation that took the checkpoint.
    pub closed spec fn tag(&self) -> ParserInfo {
        self.info
    }

    pub fn info(&self) -> (r: ParserInfo)
        ensures
            r == self.tag(),
    {
        self.info
    }
}

/// A token type: copyable, with an equality test that agrees with `==`.
pub trait Token: Copy {
    fn same(&self, other: &Self) -> (r: bool)
        ensures
            r == (*self == *other),
    ;
}

impl Token for char {
    fn same(&self, other: &char) -> (r: bool) {
        *self == *other
    }
}

impl Token for u8 {
    fn same(&self, other: &u8) -> (r: bool) {
        *self == *other
    }
}

impl Token for u32 {
    fn same(&self, other: &u32) -> (r: bool) {
        *self == *other
    }
}

/// Whether the token at `pos` is `t`.
pub open spec fn token_at<T>(toks: Seq<T>, pos: int, t: T) -> bool {
    0 <= pos < toks.len() && toks[pos] == t
}

impl Checkpoint {
    /// A checkpoint of position `pos`, taken by the operation `info`.
    pub fn new(pos: usize, info: ParserInfo) -> (r: Checkpoint)
        ensures
            r.at() == pos,
            r.tag() == info,
    {
        Checkpoint { pos, info }
    }
}

/// Whether the position of `i` lies within its stream.
pub open spec fn valid<T: Token, I: Input<T>>(i: &I) -> bool {
    i.pos() <= i.tokens().len() <= usize::MAX
}

/// The token after the position of `i`, if any: what `peek` returns.
pub open spec fn next_token<T: Token, I: Input<T>>(i: &I) -> Option<T> {
    if i.pos() < i.tokens().len() {
        Some(i.tokens()[i.pos() as int])
    } else {
        None
    }
}

/// Whether no tokens remain after the position of `i`.
pub open spec fn spent<T: Token, I: Input<T>>(i: &I) -> bool {
    i.pos() >= i.tokens().len()
}

/// A read head over a stream of `T`, with checkpoints for backtracking.
///
/// Its state is the whole stream, `tokens`, and how much of it has been
/// consumed, `pos`. Only consuming and rewinding change the position, and
/// nothing changes the stream.
pub trait Input<T: Token>: Sized {
    /// The whole token stream, consumed or not.
    spec fn tokens(&self) -> Seq<T>;

    /// How many tokens have been consumed.
    spec fn pos(&self) -> nat;

    /// The number of tokens consumed so far.
    fn position(&self) -> (r: usize)
        requires
            self.pos() <= self.tokens().len() <= usize::MAX,
        ensures
            r == self.pos(),
    ;

    fn eof(&self) -> (r: bool)
        requires
            self.pos() <= self.tokens().len() <= usize::MAX,
        ensures
            r == (self.pos() >= self.tokens().len()),
    ;

    /// The next token, without consuming it.
    fn peek(&self) -> (r: Option<T>)
        requires
            self.pos() <= self.tokens().len() <= usize::MAX,
        ensures
            r == (if self.pos() < self.tokens().len() {
                Some(self.tokens()[self.pos() as int])
            } else {
                None
            }),
    ;

    /// Consumes and returns the next token.
    fn advance(&mut self) -> (r: T)
        requires
            old(self).pos() <= old(self).tokens().len() <= usize::MAX,
            old(self).pos() < old(self).tokens().len(),
        ensures
            final(self).pos() <= final(self).tokens().len() <= usize::MAX,
            final(self).tokens() == old(self).tokens(),
            final(self).pos() == old(self).pos() + 1,
            r == old(self).tokens()[old(self).pos() as int],
    ;

    /// Consumes the next token if it is `t`; otherwise fails and consumes nothing.
    fn eat(&mut self, t: T) -> (r: Result<T, ParseError>)
        requires
            old(self).pos() <= old(self).tokens().len() <= usize::MAX,
        ensures
            final(self).pos() <= final(self).tokens().len() <= usize::MAX,
            final(self).tokens() == old(self).tokens(),
            token_at(old(self).tokens(), old(self).pos() as int, t) ==> (r == Ok::<T, ParseError>(t)
                && final(self).pos() == old(self).pos() + 1),
            !token_at(old(self).tokens(), old(self).pos() as int, t) ==> (r == Err::<T, ParseError>(
                ParseError { pos: old(self).pos() as usize },
            ) && final(self).pos() == old(self).pos()),
    ;

    /// Captures the current position, tagged with `info`.
    fn mark(&self, info: &ParserInfo) -> (r: Checkpoint)
        requires
            self.pos() <= self.tokens().len() <= usize::MAX,
        ensures
            r.at() == self.pos(),
            r.tag() == *info,
    ;

    /// Restores the position captured by `cp`, taken on this same stream.
    fn rewind_to(&mut self, cp: &Checkpoint)
        requires
            old(self).pos() <= old(self).tokens().len() <= usize::MAX,
            cp.at() <= old(self).tokens().len(),
        ensures
            final(self).pos() <= final(self).tokens().len() <= usize::MAX,
            final(self).tokens() == old(self).tokens(),
            final(self).pos() == cp.at(),
    ;
}

/// A cursor over tokens held in a `Vec`.
pub struct Cursor<T> {
    tokens: Vec<T>,
    pos: usize,
}

impl<T: Token> Cursor<T> {
    pub fn new(tokens: Vec<T>) -> (r: Cursor<T>)
        ensures
            valid::<T, Cursor<T>>(&r),
            r.tokens() == tokens@,
            r.pos() == 0,
    {
        // asking for the length records that it fits in a `usize`
        let _ = tokens.len();
        Cursor { tokens, pos: 0 }
    }
}

impl<T: Token> Input<T> for Cursor<T> {
    closed spec fn tokens(&self) -> Seq<T> {
        self.tokens@
    }

    closed spec fn pos(&self) -> nat {
        self.pos as nat
    }

    fn position(&self) -> (r: usize) {
        self.pos
    }

    fn eof(&self) -> (r: bool) {
        self.pos >= self.tokens.len()
    }

    fn peek(&self) -> (r: Option<T>) {
        if self.pos < self.tokens.len() {
            Some(self.tokens[self.pos])
        } else {
            None
        }
    }

    fn advance(&mut self) -> (r: T) {
        let t = self.tokens[self.pos];
        self.pos = self.pos + 1;
        t
    }

    fn eat(&mut self, t: T) -> (r: Result<T, ParseError>) {
        if self.pos < self.tokens.len() && self.tokens[self.pos].same(&t) {
            self.pos = self.pos + 1;
            Ok(t)
        } else {
            Err(ParseError { pos: self.pos })
        }
    }

    fn mark(&self, info: &ParserInfo) -> (r: Checkpoint) {
        Checkpoint::new(self.pos, *info)
    }

    fn rewind_to(&mut self, cp: &Checkpoint) {
        self.pos = cp.pos;
    }
}

/// Rewinding to a mark restores everything a reader of the cursor can see:
/// the stream, the position, the next token, whether the stream is spent, and
/// what any parser makes of what follows.
pub proof fn lemma_rewind_round_trip<T: Token, I: Input<T>, P: Parser<T>>(
    start: I,
    cp: Checkpoint,
    moved: I,
    back: I,
    p: P,
)
    requires
        valid(&start),
        cp.at() == start.pos(),
        valid(&moved),
        moved.tokens() == start.tokens(),
        back.tokens() == moved.tokens(),
        back.pos() == cp.at(),
    ensures
        valid(&back),
        back.tokens() == start.tokens(),
        back.pos() == start.pos(),
        next_token(&back) == next_token(&start),
        spent(&back) == spent(&start),
        p.outcome(back.tokens(), back.pos() as int) == p.outcome(
            start.tokens(),
            start.pos() as int,
        ),
{
}

} // verus!
