use macro_workshop::builder::{
    builder_input_error, derive_or_error, each_from_name_value, parse_each_attr, parse_ty,
    AngleBracketed, BuilderError, NameValue, OptionalField, SetterKind,
};
use macro_workshop::tokens::{Delim, Tok};
use macro_workshop::types::{Attr, Data, DeriveInput, Field, GenArg, Meta, Seg, SegArgs, Ty};

fn ident(s: &str) -> Tok {
    Tok::Ident { text: s.to_string(), span: 1 }
}

fn plain(name: &str) -> Ty {
    Ty {
        tokens: vec![ident(name)],
        path: Some(vec![Seg { ident: name.to_string(), args: SegArgs::Plain }]),
    }
}

fn generic(name: &str, arg: Ty) -> Ty {
    let mut tokens = vec![ident(name), Tok::Punct { ch: '<', joint: false, span: 1 }];
    tokens.extend(arg.tokens.iter().map(|t| t.duplicate()));
    tokens.push(Tok::Punct { ch: '>', joint: false, span: 1 });
    Ty {
        tokens,
        path: Some(vec![Seg { ident: name.to_string(), args: SegArgs::Angle { args: vec![GenArg::Type { ty: arg }] } }]),
    }
}

fn head(t: &Ty) -> String {
    match &t.tokens[0] {
        Tok::Ident { text, .. } => text.clone(),
        _ => String::new(),
    }
}

/// The tokens of a text, in the library's model.
fn toks(src: &str) -> Vec<Tok> {
    let ts: proc_macro2::TokenStream = src.parse().unwrap();
    ts.into_iter().map(tok).collect()
}

fn tok(tt: proc_macro2::TokenTree) -> Tok {
    match tt {
        proc_macro2::TokenTree::Ident(i) => Tok::Ident { text: i.to_string(), span: 1 },
        proc_macro2::TokenTree::Punct(p) => Tok::Punct {
            ch: p.as_char(),
            joint: p.spacing() == proc_macro2::Spacing::Joint,
            span: 1,
        },
        proc_macro2::TokenTree::Literal(l) => Tok::Literal { text: l.to_string(), span: 1 },
        proc_macro2::TokenTree::Group(g) => Tok::Group {
            delim: match g.delimiter() {
                proc_macro2::Delimiter::Parenthesis => Delim::Paren,
                proc_macro2::Delimiter::Brace => Delim::Brace,
                proc_macro2::Delimiter::Bracket => Delim::Bracket,
                proc_macro2::Delimiter::None => Delim::Invisible,
            },
            stream: g.stream().into_iter().map(tok).collect(),
            span: 1,
        },
    }
}

fn builder_attr(args: &str) -> Attr {
    Attr { path_ident: Some("builder".to_string()), meta: Meta::List { tokens: toks(args) } }
}

#[test]
fn option_type_is_recognized() {
    let (ty, inner, kind) = parse_ty(generic("Option", plain("String")), false);
    assert_eq!(kind, AngleBracketed::Option);
    assert_eq!(head(&inner.unwrap()), "String");
    assert_eq!(head(&ty), "Option");
}

#[test]
fn vec_type_needs_each() {
    let (_, inner, kind) = parse_ty(generic("Vec", plain("String")), true);
    assert_eq!(kind, AngleBracketed::Vec);
    assert_eq!(head(&inner.unwrap()), "String");
    let (_, inner, kind) = parse_ty(generic("Vec", plain("String")), false);
    assert_eq!(kind, AngleBracketed::Other);
    assert!(inner.is_none());
    let (_, inner, kind) = parse_ty(plain("String"), true);
    assert_eq!(kind, AngleBracketed::Other);
    assert!(inner.is_none());
}

#[test]
fn each_attribute_is_read_through_syn() {
    let a = builder_attr("each = \"arg\"");
    assert_eq!(parse_each_attr(Some(&a)).ok().unwrap(), Some("arg".to_string()));
    let a = builder_attr("eac = \"arg\"");
    assert_eq!(parse_each_attr(Some(&a)).ok().unwrap(), None);
    let a = builder_attr("each = arg");
    assert_eq!(parse_each_attr(Some(&a)).ok().unwrap(), None);
    let a = Attr { path_ident: Some("doc".to_string()), meta: Meta::Path };
    assert_eq!(parse_each_attr(Some(&a)).ok().unwrap(), None);
    assert_eq!(parse_each_attr(None).ok().unwrap(), None);
}

#[test]
fn unreadable_attribute_carries_the_parser_message() {
    let a = builder_attr("each");
    assert_eq!(parse_each_attr(Some(&a)).err().unwrap(), "expected `=`");
    let a = builder_attr("each = \"a\", x = \"b\"");
    assert!(parse_each_attr(Some(&a)).is_err());
    let a = Attr { path_ident: Some("builder".to_string()), meta: Meta::Path };
    assert_eq!(
        parse_each_attr(Some(&a)).err().unwrap(),
        "expected attribute arguments in parentheses: #[builder(...)]"
    );
    let a = Attr { path_ident: Some("builder".to_string()), meta: Meta::NameValue { value: vec![] } };
    assert_eq!(parse_each_attr(Some(&a)).err().unwrap(), "expected parentheses: #[builder(...)]");
}

#[test]
fn each_needs_string_value() {
    let nv = NameValue { path_ident: Some("each".to_string()), str_value: Some("env".to_string()) };
    assert_eq!(each_from_name_value(Ok(nv)).ok().unwrap(), Some("env".to_string()));
    let nv = NameValue { path_ident: Some("each".to_string()), str_value: None };
    assert_eq!(each_from_name_value(Ok(nv)).ok().unwrap(), None);
    assert_eq!(each_from_name_value(Err("bad".to_string())).err().unwrap(), "bad");
}

fn command() -> DeriveInput {
    let fields = vec![
        Field { ident: "executable".to_string(), ty: plain("String"), attrs: vec![] },
        Field {
            ident: "args".to_string(),
            ty: generic("Vec", plain("String")),
            attrs: vec![builder_attr("each = \"arg\"")],
        },
        Field { ident: "current_dir".to_string(), ty: generic("Option", plain("String")), attrs: vec![] },
    ];
    DeriveInput { ident: "Command".to_string(), span: 1, generics: vec![], data: Data::NamedStruct { fields } }
}

#[test]
fn command_builder_plan() {
    assert!(builder_input_error(&command()).is_none());
    let plan = macro_workshop::builder::derive(command());
    assert_eq!(plan.name, "Command");
    assert_eq!(plan.builder_name, "CommandBuilder");
    let m: Vec<_> = plan.methods.iter().map(|m| (m.method.clone(), m.field.clone(), m.kind, head(&m.param_ty))).collect();
    assert_eq!(
        m,
        vec![
            ("executable".to_string(), "executable".to_string(), SetterKind::Whole, "String".to_string()),
            ("arg".to_string(), "args".to_string(), SetterKind::Each, "String".to_string()),
            ("current_dir".to_string(), "current_dir".to_string(), SetterKind::OptionInner, "String".to_string()),
        ]
    );
    let omit: Vec<_> = plan.fields.iter().map(|f| f.may_be_omitted()).collect();
    assert_eq!(omit, vec![false, true, true]);
    let plan = derive_or_error(command()).ok().unwrap();
    assert_eq!(plan.builder_name, "CommandBuilder");
}

#[test]
fn field_reading() {
    let f = Field {
        ident: "args".to_string(),
        ty: generic("Vec", plain("String")),
        attrs: vec![builder_attr("each = \"arg\"")],
    };
    let op = OptionalField::from_field(f);
    assert_eq!(op.name, "args");
    assert_eq!(op.attr, Some("arg".to_string()));
    assert_eq!(op.angle_type, AngleBracketed::Vec);
    assert_eq!(head(op.inner_ty.as_ref().unwrap()), "String");
}

#[test]
fn raw_name_builder() {
    let mut input = command();
    input.ident = "r#Command".to_string();
    let plan = macro_workshop::builder::derive(input);
    assert_eq!(plan.builder_name, "CommandBuilder");
}

#[test]
fn raw_each_name_is_accepted() {
    let fields = vec![Field {
        ident: "args".to_string(),
        ty: generic("Vec", plain("String")),
        attrs: vec![builder_attr("each = \"r#fn\"")],
    }];
    let input = DeriveInput { ident: "C".to_string(), span: 1, generics: vec![], data: Data::NamedStruct { fields } };
    assert!(builder_input_error(&input).is_none());
    let plan = macro_workshop::builder::derive(input);
    assert_eq!(plan.methods[0].method, "r#fn");
}

#[test]
fn only_first_attribute_counts() {
    let fields = vec![Field {
        ident: "args".to_string(),
        ty: generic("Vec", plain("String")),
        attrs: vec![Attr { path_ident: Some("doc".to_string()), meta: Meta::Path }, builder_attr("each = \"arg\"")],
    }];
    let input = DeriveInput { ident: "C".to_string(), span: 1, generics: vec![], data: Data::NamedStruct { fields } };
    let plan = macro_workshop::builder::derive(input);
    assert_eq!(plan.methods[0].method, "args");
    assert_eq!(plan.methods[0].kind, SetterKind::Whole);
}

#[test]
fn builder_errors() {
    let input = DeriveInput { ident: "E".to_string(), span: 1, generics: vec![], data: Data::Other };
    let e = builder_input_error(&input).unwrap();
    assert!(matches!(e, BuilderError::NotStruct));
    assert_eq!(e.message(), "Builder can only be derived for structs");
    assert!(matches!(derive_or_error(input), Err(BuilderError::NotStruct)));

    let fields = vec![
        Field { ident: "a".to_string(), ty: plain("u8"), attrs: vec![] },
        Field { ident: "b".to_string(), ty: plain("u8"), attrs: vec![builder_attr("each")] },
    ];
    let input = DeriveInput { ident: "C".to_string(), span: 1, generics: vec![], data: Data::NamedStruct { fields } };
    let e = builder_input_error(&input).unwrap();
    assert!(matches!(e, BuilderError::BadAttribute { field: 1, .. }));
    assert_eq!(e.message(), "expected `=`");

    let fields = vec![
        Field { ident: "a".to_string(), ty: plain("String"), attrs: vec![builder_attr("each = \"x\"")] },
        Field { ident: "b".to_string(), ty: plain("u8"), attrs: vec![builder_attr("each")] },
    ];
    let input = DeriveInput { ident: "C".to_string(), span: 1, generics: vec![], data: Data::NamedStruct { fields } };
    let e = builder_input_error(&input).unwrap();
    assert!(matches!(e, BuilderError::BadAttribute { field: 1, .. }));

    let fields = vec![Field { ident: "a".to_string(), ty: plain("String"), attrs: vec![builder_attr("each = \"x\"")] }];
    let input = DeriveInput { ident: "C".to_string(), span: 1, generics: vec![], data: Data::NamedStruct { fields } };
    let e = builder_input_error(&input).unwrap();
    assert!(matches!(e, BuilderError::NoElementType { field: 0 }));
    assert_eq!(e.message(), "called `Option::unwrap()` on a `None` value");
    assert!(matches!(derive_or_error(input), Err(BuilderError::NoElementType { field: 0 })));
}

#[test]
fn each_value_must_be_an_identifier() {
    let cases = [
        ("1x", "\"1x\" is not a valid Ident"),
        ("a b", "\"a b\" is not a valid Ident"),
        ("", "Ident is not allowed to be empty; use Option<Ident>"),
        ("123", "Ident cannot be a number; use Literal instead"),
        ("r#self", "`r#self` cannot be a raw identifier"),
        ("r#", "Ident is not allowed to be empty; use Option<Ident>"),
    ];
    for (bad, message) in cases {
        let fields = vec![Field {
            ident: "args".to_string(),
            ty: generic("Vec", plain("String")),
            attrs: vec![builder_attr(&format!("each = \"{}\"", bad))],
        }];
        let input =
            DeriveInput { ident: "C".to_string(), span: 1, generics: vec![], data: Data::NamedStruct { fields } };
        let e = builder_input_error(&input).unwrap();
        match &e {
            BuilderError::EachNotIdent { field, value } => {
                assert_eq!(*field, 0);
                assert_eq!(value, bad);
            }
            _ => panic!("expected EachNotIdent for {:?}", bad),
        }
        assert_eq!(e.message(), message);
    }
}

/// What `syn` reads from the same arguments, as `parse_each_attr` reports it.
fn syn_reading(args: &str) -> Result<Option<String>, String> {
    match syn::parse_str::<syn::MetaNameValue>(args) {
        Err(e) => Err(e.to_string()),
        Ok(nv) => match &nv.value {
            syn::Expr::Lit(syn::ExprLit { lit: syn::Lit::Str(s), .. }) if nv.path.is_ident("each") => {
                Ok(Some(s.value()))
            }
            _ => Ok(None),
        },
    }
}

#[test]
fn attribute_reading_agrees_with_syn() {
    let corpus = [
        "each = \"arg\"",
        "eac = \"arg\"",
        "each = arg",
        "each",
        "each =",
        "each = \"a\", x = \"b\"",
        "::each = \"x\"",
        "a::b = \"x\"",
        "each = \"\\x41\\u{62}\\n\\t\\\"q\\\"\"",
        "each = r#\"raw\"#",
        "each = r\"plain\"",
        "each = 1 + 2",
        "each = b\"bytes\"",
        "each = 'c'",
        "each = true",
        "= \"x\"",
        "each = \"a\"; x",
        "each = #[a] 1",
        "r#each = \"x\"",
        "each = \"caf\u{e9}\"",
    ];
    for args in corpus {
        let a = builder_attr(args);
        assert_eq!(parse_each_attr(Some(&a)), syn_reading(args), "{}", args);
    }
}
