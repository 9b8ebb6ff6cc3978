use pear_core::switch::{
    AttrArgs, CallPattern, Case, DiagnosticKind, Ident, Loc, NoteKind, Pattern, Switch,
};

fn ident(text: &str, id: usize) -> Ident {
    Ident { text: text.to_string(), span: Loc { id } }
}

fn call(name: Option<Ident>, src: &str, id: usize) -> CallPattern {
    let at = name.as_ref().map(|n| Loc { id: n.span.id + 1000 });
    CallPattern { name, at, expr: syn::parse_str(src).unwrap(), expr_span: Loc { id } }
}

fn case(pattern: Pattern, src: &str, id: usize) -> Case {
    Case::new(pattern, syn::parse_str(src).unwrap(), Loc { id }).unwrap()
}

fn switch(cases: Vec<Case>, trailing: Option<Loc>) -> Result<Switch, pear_core::switch::Diagnostic> {
    Switch::new(
        syn::parse_str("input").unwrap(),
        syn::parse_str("u32").unwrap(),
        cases,
        trailing,
        Loc { id: 99 },
    )
}

#[test]
fn wildcard_must_be_last() {
    let cases = vec![
        case(Pattern::Calls(vec![call(None, "A(x)", 1)]), "1", 10),
        case(Pattern::Wild(Loc { id: 2 }), "2", 20),
        case(Pattern::Calls(vec![call(None, "B(y)", 3)]), "3", 30),
    ];
    let d = switch(cases, None).unwrap_err();
    assert!(matches!(d.kind, DiagnosticKind::WildcardNotLast));
    assert_eq!(d.span, Loc { id: 30 });
}

#[test]
fn wildcard_last_is_accepted() {
    let cases = vec![
        case(Pattern::Calls(vec![call(None, "A(x)", 1)]), "1", 10),
        case(Pattern::Wild(Loc { id: 2 }), "2", 20),
    ];
    let s = switch(cases, None).unwrap();
    assert_eq!(s.cases.len(), 2);
}

#[test]
fn capture_names_must_agree() {
    let p = Pattern::Calls(vec![
        call(Some(ident("n", 1)), "f(1)", 2),
        call(Some(ident("m", 3)), "g(2)", 4),
    ]);
    let d = Case::new(p, syn::parse_str("expr").unwrap(), Loc { id: 5 }).unwrap_err();
    assert!(matches!(d.kind, DiagnosticKind::NameDiffers));
    assert_eq!(d.span, Loc { id: 3 });
    assert_eq!(d.notes.len(), 1);
    assert_eq!(d.notes[0].span, Loc { id: 1 });
    assert_eq!(d.notes[0].kind, NoteKind::DeclaredHere);
}

#[test]
fn missing_capture_name_is_reported_at_call() {
    let p = Pattern::Calls(vec![call(Some(ident("n", 1)), "f(1)", 2), call(None, "g(2)", 4)]);
    let d = p.validate().unwrap_err();
    assert!(matches!(d.kind, DiagnosticKind::NameExpected));
    assert_eq!(d.span, Loc { id: 4 });
    assert_eq!(d.notes[0].span, Loc { id: 1 });
}

#[test]
fn unexpected_capture_name_has_no_note() {
    let p = Pattern::Calls(vec![call(None, "f(1)", 2), call(Some(ident("m", 3)), "g(2)", 4)]);
    let d = p.validate().unwrap_err();
    assert!(matches!(d.kind, DiagnosticKind::NameDiffers));
    assert_eq!(d.span, Loc { id: 3 });
    assert!(d.notes.is_empty());
}

#[test]
fn same_capture_names_pass() {
    let p = Pattern::Calls(vec![
        call(Some(ident("n", 1)), "f(1)", 2),
        call(Some(ident("n", 3)), "g(2)", 4),
    ]);
    assert!(p.validate().is_ok());
    assert!(Pattern::Wild(Loc { id: 0 }).validate().is_ok());
}

#[test]
fn empty_switch_is_rejected() {
    let d = switch(vec![], None).unwrap_err();
    assert!(matches!(d.kind, DiagnosticKind::EmptySwitch));
    assert_eq!(d.span, Loc { id: 99 });
}

#[test]
fn trailing_tokens_are_rejected() {
    let cases = vec![case(Pattern::Wild(Loc { id: 2 }), "2", 20)];
    let d = switch(cases, Some(Loc { id: 7 })).unwrap_err();
    assert!(matches!(d.kind, DiagnosticKind::TrailingTokens));
    assert_eq!(d.span, Loc { id: 7 });
}

#[test]
fn attr_args_record_flags() {
    let args = vec![ident("raw", 1), ident("peek", 2), ident("raw", 3)];
    let a = AttrArgs::from_args(&args).unwrap();
    assert_eq!(a.raw, Some(Loc { id: 3 }));
    assert_eq!(a.peek, Some(Loc { id: 2 }));
    assert_eq!(a.rewind, None);
}

#[test]
fn attr_args_reject_unknown() {
    let args = vec![ident("rewind", 1), ident("fast", 2), ident("slow", 3)];
    let d = AttrArgs::from_args(&args).unwrap_err();
    match d.kind {
        DiagnosticKind::UnknownAttribute(name) => assert_eq!(name, "fast"),
        _ => panic!("wrong diagnostic"),
    }
    assert_eq!(d.span, Loc { id: 2 });
}

#[test]
fn empty_alternatives_are_rejected() {
    let d = Case::new(Pattern::Calls(vec![]), syn::parse_str("1").unwrap(), Loc { id: 8 })
        .unwrap_err();
    assert!(matches!(d.kind, DiagnosticKind::EmptyPattern));
    assert_eq!(d.span, Loc { id: 8 });
}

#[test]
fn switch_checks_names_of_each_case() {
    let bad = Case {
        pattern: Pattern::Calls(vec![
            call(Some(ident("n", 1)), "f(1)", 2),
            call(Some(ident("m", 3)), "g(2)", 4),
        ]),
        expr: syn::parse_str("1").unwrap(),
        span: Loc { id: 10 },
    };
    let d = switch(vec![bad], None).unwrap_err();
    assert!(matches!(d.kind, DiagnosticKind::NameDiffers));
    assert_eq!(d.span, Loc { id: 3 });
}
