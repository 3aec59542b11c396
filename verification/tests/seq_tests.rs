use macro_workshop::seq_macro::{exec_seq, parse_range, RangeBound, SeqError, SeqInput};
use macro_workshop::seq_parse::parse_seq_invocation;
use macro_workshop::tokens::{Delim, Tok, CALL_SITE};

fn ident(s: &str) -> Tok {
    Tok::Ident { text: s.to_string(), span: 1 }
}

fn punct(c: char) -> Tok {
    Tok::Punct { ch: c, joint: false, span: 2 }
}

fn group(d: Delim, stream: Vec<Tok>) -> Tok {
    Tok::Group { delim: d, stream, span: 3 }
}

/// The bound of an integer literal with these decimal digits.
fn int_lit(digits: &str) -> Option<RangeBound> {
    Some(match digits.parse::<usize>() {
        Ok(value) => RangeBound::IntLit { value },
        Err(_) => RangeBound::TooLarge,
    })
}

fn input(start: Option<RangeBound>, end: Option<RangeBound>, inclusive: bool, body: Vec<Tok>) -> SeqInput {
    SeqInput { name: "N".to_string(), start, end, inclusive, body }
}

/// Renders a stream as text, one space between tokens.
fn render(toks: &[Tok]) -> String {
    let mut out = Vec::new();
    for t in toks {
        out.push(match t {
            Tok::Ident { text, .. } => text.clone(),
            Tok::Punct { ch, .. } => ch.to_string(),
            Tok::Literal { text, .. } => text.clone(),
            Tok::Group { delim, stream, .. } => {
                let (o, c) = match delim {
                    Delim::Paren => ("(", ")"),
                    Delim::Brace => ("{", "}"),
                    Delim::Bracket => ("[", "]"),
                    Delim::Invisible => ("", ""),
                };
                format!("{}{}{}", o, render(stream), c)
            }
        });
    }
    out.join(" ")
}

fn expand(i: &SeqInput) -> Result<String, SeqError> {
    exec_seq(i).map(|t| render(&t))
}

#[test]
fn paste_outside_sections_repeats_whole_body() {
    // seq!(N in 0..4 { fn f~N () {} })
    let body = vec![
        ident("fn"),
        ident("f"),
        punct('~'),
        ident("N"),
        group(Delim::Paren, vec![]),
        group(Delim::Brace, vec![]),
    ];
    let r = expand(&input(int_lit("0"), int_lit("4"), false, body)).unwrap();
    assert_eq!(r, "fn f0 () {} fn f1 () {} fn f2 () {} fn f3 () {}");
}

#[test]
fn pasted_ident_takes_span_of_left_token() {
    let body = vec![ident("f"), punct('~'), ident("N")];
    let out = exec_seq(&input(int_lit("1"), int_lit("2"), false, body)).unwrap();
    match &out[0] {
        Tok::Ident { text, span } => {
            assert_eq!(text, "f1");
            assert_eq!(*span, 1);
        }
        _ => panic!("expected an identifier"),
    }
}

#[test]
fn repeated_section_is_expanded_in_place() {
    // seq!(N in 0..3 { enum E { #( V~N, )* } })
    let section = group(Delim::Paren, vec![ident("V"), punct('~'), ident("N"), punct(',')]);
    let body = vec![
        ident("enum"),
        ident("E"),
        group(Delim::Brace, vec![punct('#'), section, punct('*')]),
    ];
    let r = expand(&input(int_lit("0"), int_lit("3"), false, body)).unwrap();
    assert_eq!(r, "enum E {V0 , V1 , V2 ,}");
}

#[test]
fn inclusive_range_ends_with_suffixed_literal() {
    // seq!(N in 1..=3 { #( N, )* })
    let section = group(Delim::Paren, vec![ident("N"), punct(',')]);
    let body = vec![punct('#'), section, punct('*')];
    let r = expand(&input(int_lit("1"), int_lit("3"), true, body)).unwrap();
    assert_eq!(r, "1 , 2 , 3usize ,");
}

#[test]
fn replaced_placeholder_is_a_literal_at_call_site() {
    let body = vec![ident("N")];
    let out = exec_seq(&input(int_lit("7"), int_lit("8"), false, body)).unwrap();
    match &out[0] {
        Tok::Literal { text, span } => {
            assert_eq!(text, "7");
            assert_eq!(*span, CALL_SITE);
        }
        _ => panic!("expected a literal"),
    }
}

#[test]
fn body_without_placeholder_or_section_is_unchanged() {
    let body = vec![ident("struct"), ident("S"), punct(';')];
    let r = expand(&input(int_lit("0"), int_lit("100"), false, body)).unwrap();
    assert_eq!(r, "struct S ;");
}

#[test]
fn empty_range_removes_section() {
    let section = group(Delim::Paren, vec![ident("N")]);
    let body = vec![ident("a"), punct('#'), section, punct('*'), ident("b")];
    let r = expand(&input(int_lit("3"), int_lit("3"), false, body)).unwrap();
    assert_eq!(r, "a b");
}

#[test]
fn reversed_inclusive_range_keeps_only_end() {
    let section = group(Delim::Paren, vec![ident("N")]);
    let body = vec![punct('#'), section, punct('*')];
    let r = expand(&input(int_lit("5"), int_lit("3"), true, body)).unwrap();
    assert_eq!(r, "3usize");
}

#[test]
fn section_needs_parentheses() {
    // #[ N ]* is not a section; N outside sections repeats the whole body
    let body = vec![punct('#'), group(Delim::Bracket, vec![ident("N")]), punct('*')];
    let r = expand(&input(int_lit("0"), int_lit("2"), false, body)).unwrap();
    assert_eq!(r, "# [0] * # [1] *");
}

#[test]
fn paste_of_other_identifiers() {
    let body = vec![ident("a"), punct('~'), ident("b"), ident("N")];
    let r = expand(&input(int_lit("0"), int_lit("1"), false, body)).unwrap();
    assert_eq!(r, "ab 0");
}

#[test]
fn tilde_at_start_is_kept() {
    let body = vec![punct('~'), ident("N")];
    let r = expand(&input(int_lit("0"), int_lit("1"), false, body)).unwrap();
    assert_eq!(r, "~ 0");
}

#[test]
fn missing_start_is_reported_first() {
    let r = exec_seq(&input(None, None, false, vec![]));
    assert!(matches!(r, Err(SeqError::MissingStart)));
    assert_eq!(SeqError::MissingStart.message(), "start of range must be specified");
}

#[test]
fn missing_end_is_reported_before_bad_start() {
    let r = exec_seq(&input(Some(RangeBound::Other { span: 9 }), None, false, vec![]));
    assert!(matches!(r, Err(SeqError::MissingEnd)));
    assert_eq!(SeqError::MissingEnd.message(), "end musts be specified");
}

#[test]
fn non_literal_bound_is_refused() {
    let r = exec_seq(&input(int_lit("0"), Some(RangeBound::Other { span: 9 }), false, vec![]));
    assert!(matches!(r, Err(SeqError::UnsupportedBound { span: 9 })));
    assert_eq!(SeqError::UnsupportedBound { span: 9 }.message(), "Not support expr");
}

#[test]
fn bound_too_large_is_refused() {
    let r = exec_seq(&input(int_lit("99999999999999999999999"), int_lit("1"), false, vec![]));
    assert!(matches!(r, Err(SeqError::BoundTooLarge)));
}

#[test]
fn parse_range_reads_digits() {
    assert_eq!(parse_range(&RangeBound::IntLit { value: 42 }).ok(), Some(42));
    assert_eq!(parse_range(&RangeBound::IntLit { value: 0 }).ok(), Some(0));
    assert!(matches!(parse_range(&RangeBound::TooLarge), Err(SeqError::BoundTooLarge)));
    assert!(matches!(parse_range(&RangeBound::Other { span: 4 }), Err(SeqError::UnsupportedBound { span: 4 })));
}

#[test]
fn overflowing_range_is_refused_when_expanded() {
    let section = group(Delim::Paren, vec![ident("N")]);
    let body = vec![punct('#'), section, punct('*')];
    let max = usize::MAX.to_string();
    let r = exec_seq(&input(int_lit(&max), int_lit("1"), false, body));
    assert!(matches!(r, Err(SeqError::RangeTooLarge)));
}

#[test]
fn paste_after_group_is_refused() {
    let section = group(
        Delim::Paren,
        vec![group(Delim::Paren, vec![ident("a")]), punct('~'), ident("N")],
    );
    let body = vec![punct('#'), section, punct('*')];
    let r = exec_seq(&input(int_lit("0"), int_lit("2"), false, body));
    assert!(matches!(r, Err(SeqError::InvalidPaste)));
}

#[test]
fn paste_onto_literal_or_punct_is_refused() {
    let body = vec![Tok::Literal { text: "1".to_string(), span: 1 }, punct('~'), ident("N")];
    assert!(matches!(exec_seq(&input(int_lit("0"), int_lit("1"), false, body)), Err(SeqError::InvalidPaste)));
    let body = vec![punct('+'), punct('~'), ident("N")];
    assert!(matches!(exec_seq(&input(int_lit("0"), int_lit("1"), false, body)), Err(SeqError::InvalidPaste)));
}

#[test]
fn paste_must_give_plain_identifier() {
    let body = vec![ident("r#f"), punct('~'), ident("N")];
    assert!(matches!(exec_seq(&input(int_lit("0"), int_lit("1"), false, body)), Err(SeqError::InvalidPaste)));
    let body = vec![ident("f"), punct('~'), ident("N")];
    assert_eq!(expand(&input(int_lit("3"), int_lit("5"), false, body)).unwrap(), "f3 f4");
}

#[test]
fn invisible_group_with_one_token_is_unwrapped() {
    let body = vec![group(Delim::Invisible, vec![ident("N")])];
    let r = exec_seq(&input(int_lit("2"), int_lit("3"), false, body)).unwrap();
    assert_eq!(r.len(), 1);
    assert!(matches!(&r[0], Tok::Literal { text, .. } if text == "2"));
}

#[test]
fn invisible_group_with_several_tokens_is_refused() {
    let body = vec![group(Delim::Invisible, vec![ident("N"), punct('+'), ident("x")])];
    let r = exec_seq(&input(int_lit("2"), int_lit("3"), false, body));
    assert!(matches!(r, Err(SeqError::InvisibleGroup)));
}

#[test]
fn nested_groups_are_rewritten() {
    let body = vec![group(Delim::Bracket, vec![group(Delim::Paren, vec![ident("N")])])];
    let r = expand(&input(int_lit("2"), int_lit("4"), false, body)).unwrap();
    assert_eq!(r, "[(2)] [(3)]");
}

#[test]
fn section_without_placeholder_is_copied_once_per_number() {
    let section = group(Delim::Paren, vec![ident("x")]);
    let body = vec![punct('#'), section, punct('*')];
    let r = expand(&input(int_lit("0"), int_lit("3"), false, body)).unwrap();
    assert_eq!(r, "x x x");
    let section = group(Delim::Paren, vec![ident("x")]);
    let body = vec![punct('#'), section, punct('*')];
    let r = expand(&input(int_lit("0"), int_lit("2"), true, body)).unwrap();
    assert_eq!(r, "x x x");
}

fn lit(text: &str) -> Tok {
    Tok::Literal { text: text.to_string(), span: 5 }
}

fn joint(c: char) -> Tok {
    Tok::Punct { ch: c, joint: true, span: 6 }
}

#[test]
fn invocation_is_read_from_tokens() {
    // N in 0..4 { x N }
    let toks = vec![
        ident("N"),
        ident("in"),
        lit("0"),
        joint('.'),
        punct('.'),
        lit("4"),
        group(Delim::Brace, vec![ident("x"), ident("N")]),
    ];
    let s = parse_seq_invocation(&toks).unwrap();
    assert_eq!(s.name, "N");
    assert_eq!(s.start, Some(RangeBound::IntLit { value: 0 }));
    assert_eq!(s.end, Some(RangeBound::IntLit { value: 4 }));
    assert!(!s.inclusive);
    assert_eq!(render(&s.body), "x N");
    assert_eq!(expand(&s).unwrap(), "x 0 x 1 x 2 x 3");
}

#[test]
fn inclusive_range_and_literal_forms() {
    // N in 0x10..=1_6usize {}
    let toks = vec![
        ident("N"),
        ident("in"),
        lit("0x10"),
        joint('.'),
        joint('.'),
        punct('='),
        lit("1_6usize"),
        group(Delim::Brace, vec![]),
    ];
    let s = parse_seq_invocation(&toks).unwrap();
    assert!(s.inclusive);
    assert_eq!(s.start, Some(RangeBound::IntLit { value: 16 }));
    assert_eq!(s.end, Some(RangeBound::IntLit { value: 16 }));
}

#[test]
fn other_and_missing_bounds() {
    // N in ..(1) {}
    let toks = vec![
        ident("N"),
        ident("in"),
        joint('.'),
        punct('.'),
        group(Delim::Paren, vec![lit("1")]),
        group(Delim::Brace, vec![]),
    ];
    let s = parse_seq_invocation(&toks).unwrap();
    assert_eq!(s.start, None);
    assert_eq!(s.end, Some(RangeBound::Other { span: 3 }));
    // N in 1.0..99999999999999999999999 {}
    let toks = vec![
        ident("N"),
        ident("in"),
        lit("1.0"),
        joint('.'),
        punct('.'),
        lit("99999999999999999999999"),
        group(Delim::Brace, vec![]),
    ];
    let s = parse_seq_invocation(&toks).unwrap();
    assert_eq!(s.start, Some(RangeBound::Other { span: 5 }));
    assert_eq!(s.end, Some(RangeBound::TooLarge));
}

fn refusal(toks: &Vec<Tok>) -> String {
    match parse_seq_invocation(toks) {
        Err(m) => m,
        Ok(_) => panic!("expected a refusal"),
    }
}

#[test]
fn malformed_invocations_are_refused() {
    assert_eq!(refusal(&vec![]), "unexpected end of input, expected identifier");
    assert_eq!(refusal(&vec![lit("1")]), "expected identifier");
    assert_eq!(refusal(&vec![ident("N"), ident("on")]), "expected `in`");
    let no_body = vec![ident("N"), ident("in"), lit("0"), joint('.'), punct('.'), lit("4")];
    assert_eq!(refusal(&no_body), "expected curly braces");
    let trailing = vec![ident("N"), ident("in"), lit("0"), joint('.'), punct('.'), lit("4"), group(Delim::Brace, vec![]), ident("x")];
    assert_eq!(refusal(&trailing), "unexpected token");
    let no_range = vec![ident("N"), ident("in"), lit("4"), group(Delim::Brace, vec![])];
    assert_eq!(refusal(&no_range), "expected range expression");
}
