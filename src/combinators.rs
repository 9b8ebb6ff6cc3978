use crate::collection::{built, lemma_built_push, Collection};
use crate::input::{token_at, valid, Checkpoint, Input, ParseError, ParserInfo, Token};
use crate::parser::{advances, consumes, fail_at, Outcome, Parser, TokenPredicate};
use vstd::prelude::*;

verus! {

/// Whether a combinator's result agrees with the spec run `run` that it follows:
/// the same success, the same items or the same error, and the same final position.
pub open spec fn follows<C: Collection>(
    r: Result<C, ParseError>,
    run: Outcome<Seq<C::Item>>,
    end: int,
) -> bool {
    &&& end == run.1
    &&& (r is Ok <==> run.0 is Ok)
    &&& (r is Ok ==> (C::lawful() ==> r->Ok_0.model() == built::<C>(run.0->Ok_0)))
    &&& (r is Err ==> r->Err_0 == run.0->Err_0)
}

/// `collect`: from `pos`, having collected `acc`, parse `p` until the end of the stream.
pub open spec fn collect_run<T: Token, P: Parser<T>>(p: P, toks: Seq<T>, pos: int, acc: Seq<P::Output>) -> Outcome<
    Seq<P::Output>,
>
    decreases toks.len() - pos,
{
    if pos >= toks.len() {
        (Ok(acc), pos)
    } else {
        let (v, q) = p.outcome(toks, pos);
        match v {
            Err(e) => (Err(e), q),
            Ok(v) => if pos < q <= toks.len() {
                collect_run(p, toks, q, acc.push(v))
            } else {
                (fail_at(q), q)
            },
        }
    }
}

/// `collect_some`: like `collect_run`, but `p` runs before the end is tested.
pub open spec fn collect_some_run<T: Token, P: Parser<T>>(
    p: P,
    toks: Seq<T>,
    pos: int,
    acc: Seq<P::Output>,
) -> Outcome<Seq<P::Output>>
    decreases toks.len() - pos,
{
    let (v, q) = p.outcome(toks, pos);
    match v {
        Err(e) => (Err(e), q),
        Ok(v) => if q >= toks.len() {
            (Ok(acc.push(v)), q)
        } else if pos < q <= toks.len() {
            collect_some_run(p, toks, q, acc.push(v))
        } else {
            (fail_at(q), q)
        },
    }
}

/// `try_collect`: parse `p` until the end or its first failure, which is undone.
pub open spec fn try_collect_run<T: Token, P: Parser<T>>(
    p: P,
    toks: Seq<T>,
    pos: int,
    acc: Seq<P::Output>,
) -> Outcome<Seq<P::Output>>
    decreases toks.len() - pos,
{
    if pos >= toks.len() {
        (Ok(acc), pos)
    } else {
        let (v, q) = p.outcome(toks, pos);
        match v {
            Err(_) => (Ok(acc), pos),
            Ok(v) => if pos < q <= toks.len() {
                try_collect_run(p, toks, q, acc.push(v))
            } else {
                (Ok(acc.push(v)), q)
            },
        }
    }
}

/// `last_of_many`: parse `p` until the end of the stream; the last value.
pub open spec fn last_run<T: Token, P: Parser<T>>(p: P, toks: Seq<T>, pos: int) -> Outcome<P::Output>
    decreases toks.len() - pos,
{
    let (v, q) = p.outcome(toks, pos);
    match v {
        Err(e) => (Err(e), q),
        Ok(v) => if q >= toks.len() {
            (Ok(v), q)
        } else if pos < q <= toks.len() {
            last_run(p, toks, q)
        } else {
            (fail_at(q), q)
        },
    }
}

/// Parses `p` until the end of the stream, returning the last value. Fails
/// as soon as `p` fails.
pub fn last_of_many<T: Token, I: Input<T>, P: Parser<T>>(input: &mut I, p: &P) -> (r: Result<P::Output, ParseError>)
    requires
        valid(old(input)),
        advances(p, old(input).tokens()),
    ensures
        valid(final(input)),
        final(input).tokens() == old(input).tokens(),
        last_run(*p, old(input).tokens(), old(input).pos() as int) == (
            r,
            final(input).pos() as int,
        ),
{
    let ghost toks = input.tokens();
    let ghost start = input.pos() as int;
    loop
        invariant
            valid(input),
            input.tokens() == toks,
            toks == old(input).tokens(),
            start == old(input).pos(),
            advances(p, toks),
            last_run(*p, toks, start) == last_run(*p, toks, input.pos() as int),
        decreases toks.len() - input.pos(),
    {
        let ghost before = input.pos() as int;
        proof {
            p.lemma_outcome_bounds(toks, before);
        }
        let output = p.parse(input);
        match output {
            Err(e) => {
                return Err(e);
            },
            Ok(v) => {
                if input.eof() {
                    return Ok(v);
                }
                assert(before < input.pos());
            },
        }
    }
}

/// Parses `p` until the end of the stream, collecting the values into a `C`,
/// which may be empty. Fails as soon as `p` fails.
pub fn collect<T: Token, I: Input<T>, C, P>(input: &mut I, p: &P) -> (r: Result<C, ParseError>) where
    C: Collection<Item = P::Output>,
    P: Parser<T>,

    requires
        valid(old(input)),
        advances(p, old(input).tokens()),
    ensures
        valid(final(input)),
        final(input).tokens() == old(input).tokens(),
        follows(
            r,
            collect_run(*p, old(input).tokens(), old(input).pos() as int, Seq::empty()),
            final(input).pos() as int,
        ),
{
    let ghost toks = input.tokens();
    let ghost start = input.pos() as int;
    let ghost mut items: Seq<P::Output> = Seq::empty();
    let mut collection = C::new();
    loop
        invariant
            valid(input),
            input.tokens() == toks,
            toks == old(input).tokens(),
            start == old(input).pos(),
            advances(p, toks),
            collect_run(*p, toks, start, Seq::empty()) == collect_run(
                *p,
                toks,
                input.pos() as int,
                items,
            ),
            C::lawful() ==> collection.model() == built::<C>(items),
        decreases toks.len() - input.pos(),
    {
        if input.eof() {
            return Ok(collection);
        }
        let ghost before = input.pos() as int;
        proof {
            p.lemma_outcome_bounds(toks, before);
        }
        match p.parse(input) {
            Err(e) => {
                return Err(e);
            },
            Ok(v) => {
                proof {
                    lemma_built_push::<C>(items, v);
                    items = items.push(v);
                }
                collection.add(v);
            },
        }
    }
}

/// Parses `p` until the end of the stream, collecting the values into a `C`,
/// which holds at least one value. Fails as soon as `p` fails, the first
/// attempt included.
pub fn collect_some<T: Token, I: Input<T>, C, P>(input: &mut I, p: &P) -> (r: Result<C, ParseError>) where
    C: Collection<Item = P::Output>,
    P: Parser<T>,

    requires
        valid(old(input)),
        advances(p, old(input).tokens()),
    ensures
        valid(final(input)),
        final(input).tokens() == old(input).tokens(),
        follows(
            r,
            collect_some_run(*p, old(input).tokens(), old(input).pos() as int, Seq::empty()),
            final(input).pos() as int,
        ),
{
    let ghost toks = input.tokens();
    let ghost start = input.pos() as int;
    let ghost mut items: Seq<P::Output> = Seq::empty();
    let mut collection = C::new();
    loop
        invariant
            valid(input),
            input.tokens() == toks,
            toks == old(input).tokens(),
            start == old(input).pos(),
            advances(p, toks),
            collect_some_run(*p, toks, start, Seq::empty()) == collect_some_run(
                *p,
                toks,
                input.pos() as int,
                items,
            ),
            C::lawful() ==> collection.model() == built::<C>(items),
        decreases toks.len() - input.pos(),
    {
        let ghost before = input.pos() as int;
        proof {
            p.lemma_outcome_bounds(toks, before);
        }
        match p.parse(input) {
            Err(e) => {
                return Err(e);
            },
            Ok(v) => {
                proof {
                    lemma_built_push::<C>(items, v);
                    items = items.push(v);
                }
                collection.add(v);
            },
        }
        if input.eof() {
            return Ok(collection);
        }
    }
}

/// Parses `p` as often as it succeeds, up to the end of the stream,
/// collecting the values into a `C`, which may be empty. A failed attempt is
/// undone by rewinding to a checkpoint taken before it; this never fails.
pub fn try_collect<T: Token, I: Input<T>, C, P>(input: &mut I, p: &P) -> (r: Result<C, ParseError>) where
    C: Collection<Item = P::Output>,
    P: Parser<T>,

    requires
        valid(old(input)),
        advances(p, old(input).tokens()),
    ensures
        valid(final(input)),
        final(input).tokens() == old(input).tokens(),
        r is Ok,
        follows(
            r,
            try_collect_run(*p, old(input).tokens(), old(input).pos() as int, Seq::empty()),
            final(input).pos() as int,
        ),
{
    let ghost toks = input.tokens();
    let ghost start = input.pos() as int;
    let ghost mut items: Seq<P::Output> = Seq::empty();
    let mut collection = C::new();
    loop
        invariant
            valid(input),
            input.tokens() == toks,
            toks == old(input).tokens(),
            start == old(input).pos(),
            advances(p, toks),
            try_collect_run(*p, toks, start, Seq::empty()) == try_collect_run(
                *p,
                toks,
                input.pos() as int,
                items,
            ),
            C::lawful() ==> collection.model() == built::<C>(items),
        decreases toks.len() - input.pos(),
    {
        if input.eof() {
            return Ok(collection);
        }
        let start_cp: Checkpoint = input.mark(&ParserInfo { name: "try_collect", raw: true });
        let ghost before = input.pos() as int;
        proof {
            p.lemma_outcome_bounds(toks, before);
        }
        match p.parse(input) {
            Ok(v) => {
                proof {
                    lemma_built_push::<C>(items, v);
                    items = items.push(v);
                }
                collection.add(v);
            },
            Err(_) => {
                input.rewind_to(&start_cp);
                return Ok(collection);
            },
        }
    }
}

/// Skips the tokens from `pos` on that satisfy `f`; the first position past them.
pub open spec fn skip_run<T: Token, F: TokenPredicate<T>>(f: F, toks: Seq<T>, pos: int) -> int
    decreases toks.len() - pos,
{
    if 0 <= pos < toks.len() && f.holds(toks[pos]) {
        skip_run(f, toks, pos + 1)
    } else {
        pos
    }
}

/// Consumes tokens while they satisfy `f`.
pub fn skip_while<T: Token, I: Input<T>, F: TokenPredicate<T>>(input: &mut I, f: &F)
    requires
        valid(old(input)),
    ensures
        valid(final(input)),
        final(input).tokens() == old(input).tokens(),
        final(input).pos() == skip_run(*f, old(input).tokens(), old(input).pos() as int),
{
    let ghost toks = input.tokens();
    let ghost start = input.pos() as int;
    loop
        invariant
            valid(input),
            input.tokens() == toks,
            toks == old(input).tokens(),
            start == old(input).pos(),
            skip_run(*f, toks, start) == skip_run(*f, toks, input.pos() as int),
        decreases toks.len() - input.pos(),
    {
        match input.peek() {
            Some(c) => {
                if f.test(c) {
                    input.advance();
                } else {
                    return ;
                }
            },
            None => {
                return ;
            },
        }
    }
}

/// `surrounded`: skip by `f`, run `p`, skip by `f` again.
pub open spec fn surrounded_run<T: Token, P: Parser<T>, F: TokenPredicate<T>>(
    p: P,
    f: F,
    toks: Seq<T>,
    pos: int,
) -> Outcome<P::Output> {
    let (v, q) = p.outcome(toks, skip_run(f, toks, pos));
    match v {
        Err(e) => (Err(e), q),
        Ok(v) => (Ok(v), skip_run(f, toks, q)),
    }
}

/// Skips the tokens that satisfy `f` before and after one `p`, whose value
/// it returns. Fails if and only if `p` fails.
pub fn surrounded<T: Token, I: Input<T>, P: Parser<T>, F: TokenPredicate<T>>(input: &mut I, p: &P, f: &F) -> (r: Result<
    P::Output,
    ParseError,
>)
    requires
        valid(old(input)),
    ensures
        valid(final(input)),
        final(input).tokens() == old(input).tokens(),
        surrounded_run(*p, *f, old(input).tokens(), old(input).pos() as int) == (
            r,
            final(input).pos() as int,
        ),
{
    skip_while(input, f);
    let output = p.parse(input);
    match output {
        Err(e) => Err(e),
        Ok(v) => {
            skip_while(input, f);
            Ok(v)
        },
    }
}

/// `delimited_collect` after `start`: items up to `end`, each followed by
/// `sep` where there is one; a missing `sep` must be followed by `end`.
pub open spec fn delimited_run<T: Token, P: Parser<T>>(
    item: P,
    sep: Option<T>,
    end: T,
    toks: Seq<T>,
    pos: int,
    acc: Seq<P::Output>,
) -> Outcome<Seq<P::Output>>
    decreases toks.len() - pos,
{
    if token_at(toks, pos, end) {
        (Ok(acc), pos + 1)
    } else {
        let (v, q) = item.outcome(toks, pos);
        match v {
            Err(e) => (Err(e), q),
            Ok(v) => match sep {
                Some(s) => if token_at(toks, q, s) {
                    if pos <= q {
                        delimited_run(item, sep, end, toks, q + 1, acc.push(v))
                    } else {
                        (fail_at(q), q)
                    }
                } else if token_at(toks, q, end) {
                    (Ok(acc.push(v)), q + 1)
                } else {
                    (fail_at(q), q)
                },
                None => if pos < q <= toks.len() {
                    delimited_run(item, sep, end, toks, q, acc.push(v))
                } else {
                    (fail_at(q), q)
                },
            },
        }
    }
}

/// `delimited_collect`: `start`, then `delimited_run`.
pub open spec fn delimited_collect_run<T: Token, P: Parser<T>>(
    start: T,
    item: P,
    sep: Option<T>,
    end: T,
    toks: Seq<T>,
    pos: int,
) -> Outcome<Seq<P::Output>> {
    if token_at(toks, pos, start) {
        delimited_run(item, sep, end, toks, pos + 1, Seq::empty())
    } else {
        (fail_at(pos), pos)
    }
}

/// Parses `start`, then `item`s separated by `separator` (where there is
/// one), then `end`, collecting the items into a `C`:
/// `START (item SEP)* END`, where the last `SEP` may be left out. Fails if
/// `start`, an item, or the closing `end` is missing.
pub fn delimited_collect<T: Token, I: Input<T>, C, P>(
    input: &mut I,
    start: T,
    item: &P,
    separator: Option<T>,
    end: T,
) -> (r: Result<C, ParseError>) where C: Collection<Item = P::Output>, P: Parser<T>
    requires
        valid(old(input)),
        separator is Some || consumes(item, old(input).tokens()),
    ensures
        valid(final(input)),
        final(input).tokens() == old(input).tokens(),
        follows(
            r,
            delimited_collect_run(
                start,
                *item,
                separator,
                end,
                old(input).tokens(),
                old(input).pos() as int,
            ),
            final(input).pos() as int,
        ),
{
    let ghost toks = input.tokens();
    let ghost first = input.pos() as int;
    match input.eat(start) {
        Err(e) => {
            return Err(e);
        },
        Ok(_) => {},
    }
    let ghost mut items: Seq<P::Output> = Seq::empty();
    let mut collection = C::new();
    loop
        invariant
            valid(input),
            input.tokens() == toks,
            toks == old(input).tokens(),
            first == old(input).pos(),
            separator is Some || consumes(item, toks),
            delimited_collect_run(start, *item, separator, end, toks, first) == delimited_run(
                *item,
                separator,
                end,
                toks,
                input.pos() as int,
                items,
            ),
            C::lawful() ==> collection.model() == built::<C>(items),
        decreases toks.len() - input.pos(),
    {
        if input.eat(end).is_ok() {
            return Ok(collection);
        }
        let ghost before = input.pos() as int;
        proof {
            item.lemma_outcome_bounds(toks, before);
        }
        match item.parse(input) {
            Err(e) => {
                return Err(e);
            },
            Ok(v) => {
                proof {
                    lemma_built_push::<C>(items, v);
                    items = items.push(v);
                }
                collection.add(v);
            },
        }
        match separator {
            Some(s) => {
                if input.eat(s).is_err() {
                    match input.eat(end) {
                        Err(e) => {
                            return Err(e);
                        },
                        Ok(_) => {
                            return Ok(collection);
                        },
                    }
                }
            },
            None => {},
        }
    }
}

/// `series`: an item, then another after each `sep`.
pub open spec fn series_run<T: Token, P: Parser<T>>(
    item: P,
    sep: T,
    toks: Seq<T>,
    pos: int,
    acc: Seq<P::Output>,
) -> Outcome<Seq<P::Output>>
    decreases toks.len() - pos,
{
    let (v, q) = item.outcome(toks, pos);
    match v {
        Err(e) => (Err(e), q),
        Ok(v) => if token_at(toks, q, sep) {
            if pos <= q {
                series_run(item, sep, toks, q + 1, acc.push(v))
            } else {
                (fail_at(q), q)
            }
        } else {
            (Ok(acc.push(v)), q)
        },
    }
}

/// Parses `item (SEP item)*`, collecting the items into a `C`. Fails if any
/// item fails, the first one or one after a separator.
pub fn series<T: Token, I: Input<T>, C, P>(input: &mut I, item: &P, separator: T) -> (r: Result<C, ParseError>) where
    C: Collection<Item = P::Output>,
    P: Parser<T>,

    requires
        valid(old(input)),
    ensures
        valid(final(input)),
        final(input).tokens() == old(input).tokens(),
        follows(
            r,
            series_run(*item, separator, old(input).tokens(), old(input).pos() as int, Seq::empty()),
            final(input).pos() as int,
        ),
{
    let ghost toks = input.tokens();
    let ghost first = input.pos() as int;
    let ghost mut items: Seq<P::Output> = Seq::empty();
    let mut collection = C::new();
    loop
        invariant
            valid(input),
            input.tokens() == toks,
            toks == old(input).tokens(),
            first == old(input).pos(),
            series_run(*item, separator, toks, first, Seq::empty()) == series_run(
                *item,
                separator,
                toks,
                input.pos() as int,
                items,
            ),
            C::lawful() ==> collection.model() == built::<C>(items),
        decreases toks.len() - input.pos(),
    {
        let ghost before = input.pos() as int;
        proof {
            item.lemma_outcome_bounds(toks, before);
        }
        match item.parse(input) {
            Err(e) => {
                return Err(e);
            },
            Ok(v) => {
                proof {
                    lemma_built_push::<C>(items, v);
                    items = items.push(v);
                }
                collection.add(v);
            },
        }
        if input.eat(separator).is_err() {
            return Ok(collection);
        }
    }
}

/// `trailing_series`: as `series_run`, but once an item has been collected a
/// failing item after a separator ends the series instead of failing it.
pub open spec fn trailing_run<T: Token, P: Parser<T>>(
    item: P,
    sep: T,
    toks: Seq<T>,
    pos: int,
    acc: Seq<P::Output>,
) -> Outcome<Seq<P::Output>>
    decreases toks.len() - pos,
{
    let (v, q) = item.outcome(toks, pos);
    match v {
        Err(e) => if acc.len() > 0 {
            (Ok(acc), q)
        } else {
            (Err(e), q)
        },
        Ok(v) => if token_at(toks, q, sep) {
            if pos <= q {
                trailing_run(item, sep, toks, q + 1, acc.push(v))
            } else {
                (fail_at(q), q)
            }
        } else {
            (Ok(acc.push(v)), q)
        },
    }
}

/// Parses `item (SEP item)* SEP?`, collecting the items into a `C`. The
/// first item is required; after a separator, a failing item ends the series.
pub fn trailing_series<T: Token, I: Input<T>, C, P>(input: &mut I, item: &P, separator: T) -> (r: Result<
    C,
    ParseError,
>) where C: Collection<Item = P::Output>, P: Parser<T>
    requires
        valid(old(input)),
    ensures
        valid(final(input)),
        final(input).tokens() == old(input).tokens(),
        follows(
            r,
            trailing_run(*item, separator, old(input).tokens(), old(input).pos() as int, Seq::empty()),
            final(input).pos() as int,
        ),
{
    let ghost toks = input.tokens();
    let ghost first = input.pos() as int;
    let ghost mut items: Seq<P::Output> = Seq::empty();
    let mut collection = C::new();
    let mut have_some = false;
    loop
        invariant
            valid(input),
            input.tokens() == toks,
            toks == old(input).tokens(),
            first == old(input).pos(),
            have_some == (items.len() > 0),
            trailing_run(*item, separator, toks, first, Seq::empty()) == trailing_run(
                *item,
                separator,
                toks,
                input.pos() as int,
                items,
            ),
            C::lawful() ==> collection.model() == built::<C>(items),
        decreases toks.len() - input.pos(),
    {
        let ghost before = input.pos() as int;
        proof {
            item.lemma_outcome_bounds(toks, before);
        }
        match item.parse(input) {
            Err(e) => {
                if have_some {
                    return Ok(collection);
                } else {
                    return Err(e);
                }
            },
            Ok(v) => {
                proof {
                    lemma_built_push::<C>(items, v);
                    items = items.push(v);
                }
                collection.add(v);
            },
        }
        if input.eat(separator).is_err() {
            return Ok(collection);
        }
        have_some = true;
    }
}

/// `prefixed_series`: nothing if `prefix` is absent, else `prefix` then `series_run`.
pub open spec fn prefixed_run<T: Token, P: Parser<T>>(
    prefix: T,
    item: P,
    sep: T,
    toks: Seq<T>,
    pos: int,
) -> Outcome<Seq<P::Output>> {
    if token_at(toks, pos, prefix) {
        series_run(item, sep, toks, pos + 1, Seq::empty())
    } else {
        (Ok(Seq::empty()), pos)
    }
}

/// Parses `PREFIX item (SEP item)*`, collecting the items into a `C`. Without
/// `prefix` the whole is absent: an empty `C`, and nothing consumed.
pub fn prefixed_series<T: Token, I: Input<T>, C, P>(input: &mut I, prefix: T, item: &P, separator: T) -> (r:
    Result<C, ParseError>) where C: Collection<Item = P::Output>, P: Parser<T>
    requires
        valid(old(input)),
    ensures
        valid(final(input)),
        final(input).tokens() == old(input).tokens(),
        follows(
            r,
            prefixed_run(prefix, *item, separator, old(input).tokens(), old(input).pos() as int),
            final(input).pos() as int,
        ),
{
    if input.eat(prefix).is_err() {
        let c = C::new();
        proof {
            assert(built::<C>(Seq::<P::Output>::empty()) == C::empty_model());
        }
        return Ok(c);
    }
    series(input, item, separator)
}

/// On an input with nothing left, `collect` succeeds with no items, while
/// `collect_some` fails wherever `p` fails at the end of the stream.
pub proof fn lemma_collect_vs_collect_some_on_empty<T: Token, P: Parser<T>>(p: P, toks: Seq<T>, pos: int)
    requires
        pos == toks.len(),
        p.outcome(toks, pos).0 is Err,
    ensures
        collect_run(p, toks, pos, Seq::empty()) == (Ok::<Seq<P::Output>, ParseError>(Seq::empty()), pos),
        collect_some_run(p, toks, pos, Seq::empty()).0 is Err,
{
}

/// `try_collect` always succeeds, with every value collected so far and
/// those that follow up to the first failure.
pub proof fn lemma_try_collect_total<T: Token, P: Parser<T>>(
    p: P,
    toks: Seq<T>,
    pos: int,
    acc: Seq<P::Output>,
)
    ensures
        try_collect_run(p, toks, pos, acc).0 is Ok,
        acc.is_prefix_of(try_collect_run(p, toks, pos, acc).0->Ok_0),
    decreases toks.len() - pos,
{
    if pos < toks.len() {
        let (v, q) = p.outcome(toks, pos);
        if let Ok(v) = v {
            if pos < q <= toks.len() {
                lemma_try_collect_total(p, toks, q, acc.push(v));
                let r = try_collect_run(p, toks, q, acc.push(v)).0->Ok_0;
                assert(acc.push(v).is_prefix_of(r));
                assert forall|i: int| 0 <= i < acc.len() implies acc[i] == r[i] by {
                    assert(acc.push(v)[i] == r[i]);
                }
            } else {
                assert(acc.push(v).subrange(0, acc.len() as int) =~= acc);
            }
        }
    }
}

/// `try_collect` stops only at the end of the stream, or at a position from
/// which `p` fails: no further value could have been collected.
pub proof fn lemma_try_collect_maximal<T: Token, P: Parser<T>>(
    p: P,
    toks: Seq<T>,
    pos: int,
    acc: Seq<P::Output>,
)
    requires
        0 <= pos <= toks.len(),
        advances(&p, toks),
    ensures
        ({
            let end = try_collect_run(p, toks, pos, acc).1;
            end == toks.len() || (pos <= end < toks.len() && p.outcome(toks, end).0 is Err)
        }),
    decreases toks.len() - pos,
{
    if pos < toks.len() {
        p.lemma_outcome_bounds(toks, pos);
        let (v, q) = p.outcome(toks, pos);
        if let Ok(v) = v {
            lemma_try_collect_maximal(p, toks, q, acc.push(v));
        }
    }
}

} // verus!
