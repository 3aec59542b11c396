use macro_workshop::text::{
    ident_text_ok, int_lit_value_of, join_texts, maybe_raw_ident_text_ok, not_ident_message_of,
    str_lit_value_of, strip_raw_text, text_lt,
};

#[test]
fn text_order_matches_str_order() {
    let words = ["", "a", "ab", "b", "B", "é", "z", "Z", "aa"];
    for a in words {
        for b in words {
            assert_eq!(text_lt(a, b), a < b, "{} {}", a, b);
        }
    }
}

#[test]
fn raw_marker_is_stripped() {
    assert_eq!(strip_raw_text("r#type"), "type");
    assert_eq!(strip_raw_text("rust"), "rust");
    assert_eq!(strip_raw_text("r"), "r");
}

#[test]
fn join_puts_separator_between() {
    let v: Vec<String> = vec!["a".into(), "b".into(), "c".into()];
    assert_eq!(join_texts(&v, "::"), "a::b::c");
}

#[test]
fn identifier_texts() {
    for good in ["fn", "_", "abc", "f0", "é", "self", "e\u{301}"] {
        assert!(ident_text_ok(good), "{}", good);
    }
    for bad in ["r#foo", "1x", " a", "a b", "", "a-b", "123"] {
        assert!(!ident_text_ok(bad), "{}", bad);
    }
    for good in ["r#foo", "r#fn", "abc"] {
        assert!(maybe_raw_ident_text_ok(good), "{}", good);
    }
    for bad in ["r#self", "r#_", "r#", "r#1", "1"] {
        assert!(!maybe_raw_ident_text_ok(bad), "{}", bad);
    }
}

#[test]
fn refusal_messages() {
    assert_eq!(not_ident_message_of("1x"), "\"1x\" is not a valid Ident");
    assert_eq!(not_ident_message_of(""), "Ident is not allowed to be empty; use Option<Ident>");
    assert_eq!(not_ident_message_of("42"), "Ident cannot be a number; use Literal instead");
    assert_eq!(not_ident_message_of("r#Self"), "`r#Self` cannot be a raw identifier");
}

#[test]
fn string_literals_agree_with_syn() {
    let corpus = [
        r#""plain""#,
        r#""esc\n\t\r\\\0\'\"""#,
        r#""\x41\x7f""#,
        r#""\u{41}\u{1F600}\u{1_0}""#,
        "\"line \\\n    continued\"",
        "\"crlf\r\nkept\"",
        r###"r#"raw "quoted" "#"###,
        r#"r"raw""#,
        r#""suffixed"abc"#,
        r#""""#,
        "\"caf\u{e9}\"",
    ];
    for text in corpus {
        let expected = syn::parse_str::<syn::LitStr>(text).unwrap().value();
        assert_eq!(str_lit_value_of(text), Some(expected), "{}", text);
    }
    for other in ["b\"bytes\"", "'c'", "1", "c\"cstr\""] {
        assert_eq!(str_lit_value_of(other), None, "{}", other);
    }
}

#[test]
fn integer_literals_agree_with_syn() {
    let corpus = [
        "0", "42", "1_000", "0x1F", "0o17", "0b1011", "7usize", "0xffu8", "1else", "255u8",
        "18446744073709551615", "18446744073709551616", "99999999999999999999999",
    ];
    for text in corpus {
        let lit = syn::parse_str::<syn::LitInt>(text).unwrap();
        let expected = lit.base10_parse::<usize>().ok();
        assert_eq!(int_lit_value_of(text), Some(expected), "{}", text);
    }
    for other in ["1.0", "1e3", "1e3f32", "2.5e-3", "\"1\"", "'1'"] {
        assert_eq!(int_lit_value_of(other), None, "{}", other);
    }
}
