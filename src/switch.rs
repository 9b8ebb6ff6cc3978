use vstd::prelude::*;

verus! {

/// A source location: a handle into the front end's table of spans.
#[derive(Debug, Clone, Copy, PartialEq, Eq, Structural)]
pub struct Loc {
    pub id: usize,
}

/// An identifier and where it stands.
#[derive(Debug)]
pub struct Ident {
    pub text: String,
    pub span: Loc,
}

/// What a validation failure is about.
#[derive(Debug)]
pub enum DiagnosticKind {
    /// A case's alternative captures under another name than the first one.
    NameDiffers,
    /// A case's alternative has no capture name, where the first one has one.
    NameExpected,
    /// A wildcard case is followed by further cases.
    WildcardNotLast,
    /// A case has an empty list of alternatives.
    EmptyPattern,
    /// A switch has no cases.
    EmptySwitch,
    /// Tokens remain after the last case.
    TrailingTokens,
    /// An attribute argument other than `raw`, `rewind` or `peek`.
    UnknownAttribute(String),
}

/// A secondary location attached to a diagnostic.
#[derive(Debug, Clone, Copy, PartialEq, Eq, Structural)]
pub enum NoteKind {
    /// Points back at the declaration that the primary location disagrees with.
    DeclaredHere,
}

#[derive(Debug, Clone, Copy, PartialEq, Eq, Structural)]
pub struct Note {
    pub span: Loc,
    pub kind: NoteKind,
}

/// A failure of parsing or validation: a primary location and secondary notes.
#[derive(Debug)]
pub struct Diagnostic {
    pub kind: DiagnosticKind,
    pub span: Loc,
    pub notes: Vec<Note>,
}

/// One alternative of a case: an optional capture name and a call expression.
#[derive(Debug)]
pub struct CallPattern {
    pub name: Option<Ident>,
    pub at: Option<Loc>,
    pub expr: syn::ExprCall,
    pub expr_span: Loc,
}

/// A case's matcher: a catch-all, or alternatives separated by `|`.
#[derive(Debug)]
pub enum Pattern {
    Wild(Loc),
    Calls(Vec<CallPattern>),
}

/// A pattern, the expression it yields, and the span of the whole case.
#[derive(Debug)]
pub struct Case {
    pub pattern: Pattern,
    pub expr: syn::Expr,
    pub span: Loc,
}

/// A validated multi-case dispatch over an input.
#[derive(Debug)]
pub struct Switch {
    pub input: syn::Expr,
    pub output: syn::Type,
    pub cases: Vec<Case>,
}

/// The text of a capture name, if there is one.
pub open spec fn name_of(n: Option<Ident>) -> Option<Seq<char>> {
    match n {
        Some(i) => Some(i.text@),
        None => None,
    }
}

/// Whether every alternative captures under the same name as the first one
/// (or, as the first one, under none).
pub open spec fn names_agree(calls: Seq<CallPattern>) -> bool {
    forall|i: int| 0 <= i < calls.len() ==> name_of(#[trigger] calls[i].name) == name_of(calls[0].name)
}

/// The diagnostic for the alternative `call`, whose name differs from that of `first`.
pub open spec fn name_mismatch(first: CallPattern, call: CallPattern, d: Diagnostic) -> bool {
    &&& match call.name {
        Some(n) => d.kind is NameDiffers && d.span == n.span,
        None => d.kind is NameExpected && d.span == call.expr_span,
    }
    &&& match first.name {
        Some(n) => d.notes@ == seq![Note { span: n.span, kind: NoteKind::DeclaredHere }],
        None => d.notes@.len() == 0,
    }
}

/// Whether two optional capture names have the same text.
fn same_name(a: &Option<Ident>, b: &Option<Ident>) -> (r: bool)
    ensures
        r == (name_of(*a) == name_of(*b)),
{
    match (a, b) {
        (Some(x), Some(y)) => x.text == y.text,
        (None, None) => true,
        _ => false,
    }
}

/// Whether alternative `i` is the first whose name differs from the first
/// alternative's, and `d` reports it.
pub open spec fn first_mismatch(calls: Seq<CallPattern>, i: int, d: Diagnostic) -> bool {
    &&& 0 < i < calls.len()
    &&& name_of(calls[i].name) != name_of(calls[0].name)
    &&& forall|j: int| 0 <= j < i ==> name_of(#[trigger] calls[j].name) == name_of(calls[0].name)
    &&& name_mismatch(calls[0], calls[i], d)
}

impl Pattern {
    /// Checks that all alternatives of the pattern share one capture name; a
    /// wildcard passes. The failure points at the first alternative that
    /// differs, with a note at the first alternative's name.
    pub fn validate(&self) -> (r: Result<(), Diagnostic>)
        ensures
            self is Wild ==> r is Ok,
            self is Calls ==> (r is Ok <==> names_agree(self->Calls_0@)),
            self is Calls && r is Err ==> exists|i: int|
                first_mismatch(self->Calls_0@, i, r->Err_0),
    {
        match self {
            Pattern::Wild(_) => Ok(()),
            Pattern::Calls(calls) => {
                if calls.len() == 0 {
                    return Ok(());
                }
                let first = &calls[0];
                let mut i: usize = 1;
                while i < calls.len()
                    invariant
                        1 <= i <= calls@.len(),
                        *first == calls@[0],
                        *self == Pattern::Calls(*calls),
                        forall|j: int|
                            0 <= j < i ==> name_of(#[trigger] calls@[j].name) == name_of(
                                calls@[0].name,
                            ),
                    decreases calls@.len() - i,
                {
                    let call = &calls[i];
                    if !same_name(&first.name, &call.name) {
                        let span = match &call.name {
                            Some(n) => n.span,
                            None => call.expr_span,
                        };
                        let kind = match &call.name {
                            Some(_) => DiagnosticKind::NameDiffers,
                            None => DiagnosticKind::NameExpected,
                        };
                        let mut notes: Vec<Note> = Vec::new();
                        match &first.name {
                            Some(n) => notes.push(Note { span: n.span, kind: NoteKind::DeclaredHere }),
                            None => {},
                        }
                        let d = Diagnostic { kind, span, notes };
                        assert(first_mismatch(calls@, i as int, d));
                        let r: Result<(), Diagnostic> = Err(d);
                        assert(r->Err_0 == d);
                        return r;
                    }
                    i = i + 1;
                }
                Ok(())
            },
        }
    }
}

/// Whether a pattern passes validation: a wildcard, or at least one
/// alternative, all capturing under one name.
pub open spec fn pattern_ok(p: Pattern) -> bool {
    match p {
        Pattern::Wild(_) => true,
        Pattern::Calls(calls) => calls@.len() > 0 && names_agree(calls@),
    }
}

/// Whether `d` reports the failed validation of `p`, the pattern of the case at `span`.
pub open spec fn pattern_error(p: Pattern, span: Loc, d: Diagnostic) -> bool {
    match p {
        Pattern::Wild(_) => false,
        Pattern::Calls(calls) => if calls@.len() == 0 {
            d.kind is EmptyPattern && d.span == span && d.notes@.len() == 0
        } else {
            exists|i: int| first_mismatch(calls@, i, d)
        },
    }
}

/// Validates the pattern of the case at `span`: an empty list of
/// alternatives is reported at the case, a name that differs as
/// `Pattern::validate` reports it.
pub fn check_pattern(pattern: &Pattern, span: Loc) -> (r: Result<(), Diagnostic>)
    ensures
        r is Ok <==> pattern_ok(*pattern),
        r is Err ==> pattern_error(*pattern, span, r->Err_0),
{
    match pattern {
        Pattern::Calls(calls) => {
            if calls.len() == 0 {
                return Err(Diagnostic { kind: DiagnosticKind::EmptyPattern, span, notes: Vec::new() });
            }
        },
        Pattern::Wild(_) => {},
    }
    match pattern.validate() {
        Err(d) => {
            let r = Err(d);
            proof {
                let i = choose|i: int| first_mismatch(pattern->Calls_0@, i, d);
                assert(first_mismatch(pattern->Calls_0@, i, r->Err_0));
            }
            r
        },
        Ok(()) => Ok(()),
    }
}

impl Case {
    /// Builds a case from its parts, once its pattern has passed validation.
    pub fn new(pattern: Pattern, expr: syn::Expr, span: Loc) -> (r: Result<Case, Diagnostic>)
        ensures
            r is Ok <==> pattern_ok(pattern),
            r is Ok ==> r->Ok_0 == (Case { pattern, expr, span }),
            r is Ok ==> pattern is Wild || pattern->Calls_0@.len() >= 1,
            r is Err ==> pattern_error(pattern, span, r->Err_0),
    {
        match check_pattern(&pattern, span) {
            Err(d) => Err(d),
            Ok(()) => Ok(Case { pattern, expr, span }),
        }
    }
}

/// Whether every case's pattern passes validation.
pub open spec fn cases_ok(cases: Seq<Case>) -> bool {
    forall|i: int| 0 <= i < cases.len() ==> pattern_ok(#[trigger] cases[i].pattern)
}

/// Whether case `i` is the first whose pattern fails validation.
pub open spec fn first_bad_case(cases: Seq<Case>, i: int) -> bool {
    &&& 0 <= i < cases.len()
    &&& !pattern_ok(cases[i].pattern)
    &&& forall|j: int| 0 <= j < i ==> pattern_ok(#[trigger] cases[j].pattern)
}

/// Whether a wildcard case stands only last.
pub open spec fn wildcard_last(cases: Seq<Case>) -> bool {
    forall|i: int| 0 <= i < cases.len() - 1 ==> !((#[trigger] cases[i]).pattern is Wild)
}

/// Whether case `i` is the first wildcard case that other cases follow.
pub open spec fn first_misplaced_wildcard(cases: Seq<Case>, i: int) -> bool {
    &&& 0 <= i < cases.len() - 1
    &&& cases[i].pattern is Wild
    &&& forall|j: int| 0 <= j < i ==> !((#[trigger] cases[j]).pattern is Wild)
}

impl Switch {
    /// Builds a switch from its header and cases, with `trailing` the location
    /// of the first token after the last case, if any, and `end` the location
    /// at which the cases ended. Rejects, in this order: trailing tokens, an
    /// empty case list, and a wildcard case that other cases follow, which is
    /// reported at the case right after it. Before these, each case's pattern
    /// is validated, and the first that fails is reported.
    pub fn new(
        input: syn::Expr,
        output: syn::Type,
        cases: Vec<Case>,
        trailing: Option<Loc>,
        end: Loc,
    ) -> (r: Result<Switch, Diagnostic>)
        ensures
            r is Ok ==> cases_ok(r->Ok_0.cases@) && r->Ok_0.cases@.len() > 0 && wildcard_last(
                r->Ok_0.cases@,
            ),
            !cases_ok(cases@) ==> r is Err && exists|i: int|
                first_bad_case(cases@, i) && pattern_error(
                    cases@[i].pattern,
                    cases@[i].span,
                    r->Err_0,
                ),
            cases_ok(cases@) && trailing is Some ==> r is Err && r->Err_0.kind is TrailingTokens && r->Err_0.span
                == trailing->Some_0 && r->Err_0.notes@.len() == 0,
            cases_ok(cases@) && trailing is None && cases@.len() == 0 ==> r is Err && r->Err_0.kind is EmptySwitch
                && r->Err_0.span == end && r->Err_0.notes@.len() == 0,
            cases_ok(cases@) && trailing is None && cases@.len() > 0 && !wildcard_last(cases@) ==> r is Err && (exists|
                i: int,
            |
                first_misplaced_wildcard(cases@, i) && r->Err_0.kind is WildcardNotLast
                    && r->Err_0.span == cases@[i + 1].span) && r->Err_0.notes@.len() == 0,
            cases_ok(cases@) && trailing is None && cases@.len() > 0 && wildcard_last(cases@) ==> r is Ok && r->Ok_0
                == (Switch { input, output, cases }),
    {
        let mut k: usize = 0;
        while k < cases.len()
            invariant
                k <= cases@.len(),
                forall|j: int| 0 <= j < k ==> pattern_ok(#[trigger] cases@[j].pattern),
            decreases cases@.len() - k,
        {
            match check_pattern(&cases[k].pattern, cases[k].span) {
                Err(d) => {
                    let r = Err(d);
                    assert(first_bad_case(cases@, k as int));
                    assert(pattern_error(cases@[k as int].pattern, cases@[k as int].span, r->Err_0));
                    return r;
                },
                Ok(()) => {},
            }
            k = k + 1;
        }
        match trailing {
            Some(l) => {
                return Err(Diagnostic { kind: DiagnosticKind::TrailingTokens, span: l, notes: Vec::new() });
            },
            None => {},
        }
        if cases.len() == 0 {
            return Err(Diagnostic { kind: DiagnosticKind::EmptySwitch, span: end, notes: Vec::new() });
        }
        let mut i: usize = 0;
        while i < cases.len() - 1
            invariant
                0 <= i <= cases@.len() - 1,
                cases@.len() > 0,
                trailing is None,
                cases_ok(cases@),
                forall|j: int| 0 <= j < i ==> !((#[trigger] cases@[j]).pattern is Wild),
            decreases cases@.len() - 1 - i,
        {
            match &cases[i].pattern {
                Pattern::Wild(_) => {
                    let d = Diagnostic {
                        kind: DiagnosticKind::WildcardNotLast,
                        span: cases[i + 1].span,
                        notes: Vec::new(),
                    };
                    assert(first_misplaced_wildcard(cases@, i as int));
                    return Err(d);
                },
                Pattern::Calls(_) => {},
            }
            i = i + 1;
        }
        Ok(Switch { input, output, cases })
    }
}

/// The flags that tag a parser function.
#[derive(Debug, Clone, Copy)]
pub struct AttrArgs {
    pub raw: Option<Loc>,
    pub rewind: Option<Loc>,
    pub peek: Option<Loc>,
}

/// Whether `t` is one of the recognised flags.
pub open spec fn is_flag(t: Seq<char>) -> bool {
    t == "raw"@ || t == "rewind"@ || t == "peek"@
}

/// Where the last argument with text `t` stands, if any.
pub open spec fn last_with(args: Seq<Ident>, t: Seq<char>) -> Option<Loc>
    decreases args.len(),
{
    if args.len() == 0 {
        None
    } else if args.last().text@ == t {
        Some(args.last().span)
    } else {
        last_with(args.drop_last(), t)
    }
}

impl AttrArgs {
    /// Reads a list of flag identifiers. Each of `raw`, `rewind` and `peek`
    /// records where it last stands; any other identifier is rejected at the
    /// first place it occurs.
    pub fn from_args(args: &Vec<Ident>) -> (r: Result<AttrArgs, Diagnostic>)
        ensures
            (forall|i: int| 0 <= i < args@.len() ==> is_flag(#[trigger] args@[i].text@)) ==> r
                == Ok::<AttrArgs, Diagnostic>(
                AttrArgs {
                    raw: last_with(args@, "raw"@),
                    rewind: last_with(args@, "rewind"@),
                    peek: last_with(args@, "peek"@),
                },
            ),
            !(forall|i: int| 0 <= i < args@.len() ==> is_flag(#[trigger] args@[i].text@)) ==> r is Err
                && exists|i: int|
                0 <= i < args@.len() && !is_flag(#[trigger] args@[i].text@) && (forall|j: int|
                    0 <= j < i ==> is_flag(#[trigger] args@[j].text@)) && r->Err_0.kind
                    == DiagnosticKind::UnknownAttribute(args@[i].text) && r->Err_0.span
                    == args@[i].span && r->Err_0.notes@.len() == 0,
    {
        proof {
            reveal_strlit("raw");
            reveal_strlit("rewind");
            reveal_strlit("peek");
            assert("raw"@ != "rewind"@ && "raw"@ != "peek"@ && "rewind"@ != "peek"@) by {
                assert("raw"@.len() != "rewind"@.len());
                assert("raw"@[0] != "peek"@[0]);
                assert("rewind"@.len() != "peek"@.len());
            }
        }
        let raw_text = "raw".to_owned();
        let rewind_text = "rewind".to_owned();
        let peek_text = "peek".to_owned();
        let mut raw: Option<Loc> = None;
        let mut rewind: Option<Loc> = None;
        let mut peek: Option<Loc> = None;
        let mut i: usize = 0;
        while i < args.len()
            invariant
                i <= args@.len(),
                raw_text@ == "raw"@,
                "raw"@ != "rewind"@ && "raw"@ != "peek"@ && "rewind"@ != "peek"@,
                rewind_text@ == "rewind"@,
                peek_text@ == "peek"@,
                forall|j: int| 0 <= j < i ==> is_flag(#[trigger] args@[j].text@),
                raw == last_with(args@.take(i as int), "raw"@),
                rewind == last_with(args@.take(i as int), "rewind"@),
                peek == last_with(args@.take(i as int), "peek"@),
            decreases args@.len() - i,
        {
            let case = &args[i];
            proof {
                assert(args@.take(i + 1).drop_last() =~= args@.take(i as int));
                assert(args@.take(i + 1).last() == args@[i as int]);
            }
            if case.text == raw_text {
                raw = Some(case.span);
            } else if case.text == rewind_text {
                rewind = Some(case.span);
            } else if case.text == peek_text {
                peek = Some(case.span);
            } else {
                return Err(
                    Diagnostic {
                        kind: DiagnosticKind::UnknownAttribute(case.text.clone()),
                        span: case.span,
                        notes: Vec::new(),
                    },
                );
            }
            i = i + 1;
        }
        proof {
            assert(args@.take(args@.len() as int) =~= args@);
        }
        Ok(AttrArgs { raw, rewind, peek })
    }
}

} // verus!
