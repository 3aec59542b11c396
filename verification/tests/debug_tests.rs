use macro_workshop::debug_derive::{
    add_debug_trait_bound, debug_input_ok, derive_impl, find_generics_associated, parse_debug_attr, DebugError,
    DebugField,
};
use macro_workshop::tokens::{Delim, Tok};
use macro_workshop::types::{
    search_well_formed, Attr, Data, DeriveInput, Field, GenArg, GenericParam, Meta, Seg,
    SegArgs, Ty,
};

fn ident(s: &str) -> Tok {
    Tok::Ident { text: s.to_string(), span: 1 }
}

fn punct(c: char) -> Tok {
    Tok::Punct { ch: c, joint: false, span: 1 }
}

/// A plain path type `a::b::c`.
fn path(segs: &[&str]) -> Ty {
    let mut tokens = Vec::new();
    for (i, s) in segs.iter().enumerate() {
        if i > 0 {
            tokens.push(Tok::Punct { ch: ':', joint: true, span: 1 });
            tokens.push(punct(':'));
        }
        tokens.push(ident(s));
    }
    Ty {
        tokens,
        path: Some(segs.iter().map(|s| Seg { ident: s.to_string(), args: SegArgs::Plain }).collect()),
    }
}

/// A generic type `name<args>`.
fn generic(name: &str, args: Vec<Ty>) -> Ty {
    let mut tokens = vec![ident(name), punct('<')];
    for (i, a) in args.iter().enumerate() {
        if i > 0 {
            tokens.push(punct(','));
        }
        tokens.extend(a.tokens.iter().map(|t| t.duplicate()));
    }
    tokens.push(punct('>'));
    Ty {
        tokens,
        path: Some(vec![Seg {
            ident: name.to_string(),
            args: SegArgs::Angle { args: args.into_iter().map(|ty| GenArg::Type { ty }).collect() },
        }]),
    }
}

fn texts(tys: &[Ty]) -> Vec<String> {
    tys.iter()
        .map(|t| {
            t.tokens
                .iter()
                .map(|k| match k {
                    Tok::Ident { text, .. } => text.clone(),
                    Tok::Punct { ch, .. } => ch.to_string(),
                    Tok::Literal { text, .. } => text.clone(),
                    Tok::Group { .. } => "()".to_string(),
                })
                .collect::<String>()
        })
        .collect()
}

fn field(name: &str, ty: Ty) -> DebugField {
    DebugField { ident: name.to_string(), formatter: vec![], ty }
}

#[test]
fn associated_type_is_found() {
    let t = "T".to_string();
    assert_eq!(texts(&find_generics_associated(&t, &path(&["T", "Value"]))), vec!["T::Value"]);
    assert_eq!(
        texts(&find_generics_associated(&t, &generic("Vec", vec![path(&["T", "Value"])]))),
        vec!["T::Value"]
    );
    assert!(find_generics_associated(&t, &path(&["u8"])).is_empty());
    assert!(find_generics_associated(&t, &path(&["T"])).is_empty());
    assert!(find_generics_associated(&t, &path(&["U", "Value"])).is_empty());
}

#[test]
fn repeated_associated_types_are_deduplicated() {
    let t = "T".to_string();
    let map = generic("HashMap", vec![path(&["T", "K"]), path(&["T", "K"])]);
    assert_eq!(texts(&find_generics_associated(&t, &map)), vec!["T::K"]);
    let map2 = generic("HashMap", vec![path(&["T", "K"]), path(&["T", "V"])]);
    assert_eq!(texts(&find_generics_associated(&t, &map2)), vec!["T::K", "T::V"]);
}

#[test]
fn only_last_segment_is_searched() {
    let t = "T".to_string();
    let ty = Ty {
        tokens: vec![],
        path: Some(vec![
            Seg {
                ident: "a".to_string(),
                args: SegArgs::Angle { args: vec![GenArg::Type { ty: path(&["T", "X"]) }] },
            },
            Seg { ident: "b".to_string(), args: SegArgs::Plain },
        ]),
    };
    assert!(find_generics_associated(&t, &ty).is_empty());
}

#[test]
fn type_parameter_used_by_field_is_bounded() {
    let generics = vec![GenericParam::Type { ident: "T".to_string() }];
    let fields = vec![field("value", path(&["T"]))];
    let plan = add_debug_trait_bound(&generics, &fields).ok().unwrap();
    assert_eq!(plan.debug_bound, vec![true]);
    assert!(plan.where_preds.is_empty());
}

#[test]
fn phantom_data_does_not_bound() {
    let generics = vec![GenericParam::Type { ident: "T".to_string() }];
    let fields = vec![field("marker", generic("PhantomData", vec![path(&["T"])]))];
    let plan = add_debug_trait_bound(&generics, &fields).ok().unwrap();
    assert_eq!(plan.debug_bound, vec![false]);
    // other uses of `T` inside PhantomData-like types do bound it
    let fields = vec![field("marker", generic("PhantomData", vec![path(&["U"])]))];
    let generics = vec![GenericParam::Type { ident: "U".to_string() }];
    let plan = add_debug_trait_bound(&generics, &fields).ok().unwrap();
    assert_eq!(plan.debug_bound, vec![false]);
}

#[test]
fn nested_use_inside_group_does_not_bound() {
    // `[T; 3]` shows T only inside a bracket group
    let generics = vec![GenericParam::Type { ident: "T".to_string() }];
    let ty = Ty {
        tokens: vec![Tok::Group { delim: Delim::Bracket, stream: vec![ident("T"), punct(';')], span: 1 }],
        path: None,
    };
    let plan = add_debug_trait_bound(&generics, &vec![field("a", ty)]).ok().unwrap();
    assert_eq!(plan.debug_bound, vec![false]);
}

#[test]
fn associated_type_goes_to_where_clause() {
    let generics = vec![GenericParam::Other, GenericParam::Type { ident: "T".to_string() }];
    let fields = vec![
        field("values", generic("Vec", vec![path(&["T", "Value"])])),
        field("other", path(&["T"])),
    ];
    let plan = add_debug_trait_bound(&generics, &fields).ok().unwrap();
    assert_eq!(plan.debug_bound, vec![false, true]);
    assert_eq!(texts(&plan.where_preds), vec!["T::Value"]);
}

#[test]
fn two_associated_types_in_one_field_are_refused() {
    let generics = vec![GenericParam::Type { ident: "T".to_string() }];
    let fields = vec![field("m", generic("HashMap", vec![path(&["T", "K"]), path(&["T", "V"])]))];
    assert!(matches!(add_debug_trait_bound(&generics, &fields), Err(DebugError::UnparsableBound)));
}

#[test]
fn debug_attribute_sets_format() {
    let lit = Tok::Literal { text: "\"0b{:08b}\"".to_string(), span: 4 };
    let attr = Attr { path_ident: Some("debug".to_string()), meta: Meta::NameValue { value: vec![lit] } };
    match &parse_debug_attr(Some(&attr))[..] {
        [Tok::Literal { text, span }] => {
            assert_eq!(text, "\"0b{:08b}\"");
            assert_eq!(*span, 4);
        }
        _ => panic!("expected one literal"),
    }
    match &parse_debug_attr(None)[..] {
        [Tok::Literal { text, .. }] => assert_eq!(text, "\"{:?}\""),
        _ => panic!("expected one literal"),
    }
    let list = Attr { path_ident: Some("debug".to_string()), meta: Meta::List { tokens: vec![ident("x")] } };
    match &parse_debug_attr(Some(&list))[..] {
        [Tok::Literal { text, .. }] => assert_eq!(text, "\"{:?}\""),
        _ => panic!("expected one literal"),
    }
}

#[test]
fn first_debug_attribute_wins() {
    let a1 = Attr { path_ident: Some("doc".to_string()), meta: Meta::Path };
    let a2 = Attr {
        path_ident: Some("debug".to_string()),
        meta: Meta::NameValue { value: vec![Tok::Literal { text: "\"a{}\"".to_string(), span: 1 }] },
    };
    let a3 = Attr {
        path_ident: Some("debug".to_string()),
        meta: Meta::NameValue { value: vec![Tok::Literal { text: "\"b{}\"".to_string(), span: 1 }] },
    };
    let f = Field { ident: "x".to_string(), ty: path(&["u8"]), attrs: vec![a1, a2, a3] };
    let d = DebugField::from_field(f);
    match &d.formatter[..] {
        [Tok::Literal { text, .. }] => assert_eq!(text, "\"a{}\""),
        _ => panic!("expected one literal"),
    }
}

#[test]
fn derive_needs_named_struct() {
    let input = DeriveInput { ident: "E".to_string(), span: 6, generics: vec![], data: Data::Other };
    let e = derive_impl(input).err().unwrap();
    assert_eq!(e, DebugError::NotNamedStruct { span: 6 });
    assert_eq!(e.message(), "CustomDebug can only be derived for named structs");
}

#[test]
fn derive_keeps_fields_in_order() {
    let fields = vec![
        Field { ident: "name".to_string(), ty: path(&["String"]), attrs: vec![] },
        Field { ident: "bitmask".to_string(), ty: path(&["u8"]), attrs: vec![] },
    ];
    let input = DeriveInput {
        ident: "Field".to_string(),
        span: 1,
        generics: vec![],
        data: Data::NamedStruct { fields },
    };
    let imp = derive_impl(input).ok().unwrap();
    assert_eq!(imp.name, "Field");
    let names: Vec<_> = imp.fields.iter().map(|f| f.ident.clone()).collect();
    assert_eq!(names, vec!["name", "bitmask"]);
    assert!(imp.bounds.debug_bound.is_empty());
}

#[test]
fn searched_types_must_have_segments() {
    let t = "T".to_string();
    assert!(search_well_formed(&t, &generic("Vec", vec![path(&["T", "Value"])])));
    let empty = Ty { tokens: vec![], path: Some(vec![]) };
    assert!(!search_well_formed(&t, &empty));
    assert!(!search_well_formed(&t, &generic("Vec", vec![Ty { tokens: vec![], path: Some(vec![]) }])));
    // the search stops at an associated type of `T` and never looks inside
    let assoc_with_empty = Ty {
        tokens: vec![],
        path: Some(vec![
            Seg { ident: "T".to_string(), args: SegArgs::Plain },
            Seg { ident: "V".to_string(), args: SegArgs::Angle { args: vec![GenArg::Type { ty: Ty { tokens: vec![], path: Some(vec![]) } }] } },
        ]),
    };
    assert!(search_well_formed(&t, &assoc_with_empty));
    let input = |generics: Vec<GenericParam>| DeriveInput {
        ident: "S".to_string(),
        span: 1,
        generics,
        data: Data::NamedStruct {
            fields: vec![Field { ident: "a".to_string(), ty: Ty { tokens: vec![], path: Some(vec![]) }, attrs: vec![] }],
        },
    };
    // no type parameter: nothing is searched
    assert!(debug_input_ok(&input(vec![])));
    assert!(!debug_input_ok(&input(vec![GenericParam::Type { ident: "T".to_string() }])));
}
