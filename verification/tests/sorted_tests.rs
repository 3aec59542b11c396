use macro_workshop::sorted::{
    disorder_hint, get_path, sorted_impl, ArmPat, Checker, DisorderEnum, SortedItem,
};
use macro_workshop::tokens::CALL_SITE;

fn names(v: &[&str]) -> Vec<String> {
    v.iter().map(|s| s.to_string()).collect()
}

#[test]
fn sorted_names_have_no_hint() {
    assert_eq!(disorder_hint(&names(&["a", "b", "c"])), None);
    assert_eq!(disorder_hint(&names(&[])), None);
    assert_eq!(disorder_hint(&names(&["x"])), None);
    assert_eq!(disorder_hint(&names(&["a", "a", "b"])), None);
}

#[test]
fn hint_names_first_out_of_order_and_its_place() {
    assert_eq!(disorder_hint(&names(&["a", "c", "b"])), Some((2, 1)));
    assert_eq!(disorder_hint(&names(&["b", "c", "a"])), Some((2, 0)));
    assert_eq!(disorder_hint(&names(&["a", "d", "e", "b", "c"])), Some((3, 1)));
}

#[test]
fn order_is_by_code_point() {
    // upper case sorts before lower case, a prefix before its extensions
    assert_eq!(disorder_hint(&names(&["Zeta", "alpha"])), None);
    assert_eq!(disorder_hint(&names(&["ab", "a"])), Some((1, 0)));
    assert_eq!(disorder_hint(&names(&["é", "z"])), Some((1, 0)));
}

#[test]
fn path_segments_are_joined() {
    assert_eq!(get_path(&names(&["Error", "Io"])), "Error::Io");
    assert_eq!(get_path(&names(&["Fmt"])), "Fmt");
    assert_eq!(get_path(&names(&[])), "");
}

#[test]
fn non_enum_item_is_replaced_by_an_error() {
    let r = sorted_impl(&SortedItem::Other);
    assert!(!r.keep_item);
    let e = r.error.unwrap();
    assert_eq!(e.message, "expected enum or match expression");
    assert_eq!(e.span, CALL_SITE);
}

#[test]
fn enum_out_of_order_reports_variant() {
    let variants = vec![
        DisorderEnum::new("ThisFailed".to_string(), 1),
        DisorderEnum::new("ThatFailed".to_string(), 2),
        DisorderEnum::new("SomethingFailed".to_string(), 3),
        DisorderEnum::new("WhoKnowsWhatFailed".to_string(), 4),
    ];
    let r = sorted_impl(&SortedItem::Enum { variants });
    assert!(r.keep_item);
    let e = r.error.unwrap();
    assert_eq!(e.message, "ThatFailed should sort before ThisFailed");
    assert_eq!(e.span, 2);
}

#[test]
fn sorted_enum_has_no_error() {
    let variants = vec![DisorderEnum::new("A".to_string(), 1), DisorderEnum::new("B".to_string(), 2)];
    let r = sorted_impl(&SortedItem::Enum { variants });
    assert!(r.keep_item);
    assert!(r.error.is_none());
}

fn tuple(path: &[&str], span: usize) -> ArmPat {
    ArmPat::TupleStruct { path: names(path), span }
}

#[test]
fn match_without_attribute_is_left_alone() {
    let mut c = Checker { errors: vec![] };
    let attrs = vec![Some("allow".to_string()), None];
    let arms = vec![tuple(&["B"], 1), tuple(&["A"], 2)];
    let v = c.visit_expr_match(&attrs, &arms).ok().unwrap();
    assert_eq!(v.kept_attrs, vec![0, 1]);
    assert!(!v.visit_nested);
    assert!(c.errors.is_empty());
}

#[test]
fn sorted_attribute_is_removed_and_order_checked() {
    let mut c = Checker { errors: vec![] };
    let attrs = vec![Some("sorted".to_string()), Some("allow".to_string())];
    let arms = vec![tuple(&["Error", "Io"], 1), tuple(&["Error", "Fmt"], 2), ArmPat::Wild { span: 3 }];
    let v = c.visit_expr_match(&attrs, &arms).ok().unwrap();
    assert_eq!(v.kept_attrs, vec![1]);
    assert!(v.visit_nested);
    assert_eq!(c.errors.len(), 1);
    assert_eq!(c.errors[0].message, "Error::Fmt should sort before Error::Io");
    assert_eq!(c.errors[0].span, 2);
}

#[test]
fn wildcard_must_be_last() {
    let mut c = Checker { errors: vec![] };
    let attrs = vec![Some("sorted".to_string())];
    let arms = vec![ArmPat::Ident { name: "a".to_string(), span: 1 }, ArmPat::Wild { span: 5 }, tuple(&["B"], 2)];
    c.visit_expr_match(&attrs, &arms).ok().unwrap();
    assert_eq!(c.errors.len(), 1);
    assert_eq!(c.errors[0].message, "_ should be last arm in #[sorted]");
    assert_eq!(c.errors[0].span, 5);
}

#[test]
fn unsupported_pattern_stops_but_order_is_still_checked() {
    let mut c = Checker { errors: vec![] };
    let attrs = vec![Some("sorted".to_string())];
    let arms = vec![tuple(&["B"], 1), tuple(&["A"], 2), ArmPat::Other { span: 7 }, tuple(&["0"], 3)];
    c.visit_expr_match(&attrs, &arms).ok().unwrap();
    assert_eq!(c.errors.len(), 2);
    assert_eq!(c.errors[0].message, "unsupported by #[sorted]");
    assert_eq!(c.errors[0].span, 7);
    assert_eq!(c.errors[1].message, "A should sort before B");
    assert_eq!(c.errors[1].span, 2);
}

#[test]
fn errors_accumulate_over_matches() {
    let mut c = Checker { errors: vec![] };
    let attrs = vec![Some("sorted".to_string())];
    let arms = vec![tuple(&["B"], 1), tuple(&["A"], 2)];
    c.visit_expr_match(&attrs, &arms).ok().unwrap();
    c.visit_expr_match(&attrs, &arms).ok().unwrap();
    assert_eq!(c.errors.len(), 2);
}

#[test]
fn second_sorted_attribute_at_the_end_cannot_be_removed() {
    let mut c = Checker { errors: vec![] };
    let attrs = vec![Some("sorted".to_string()), Some("sorted".to_string())];
    let arms = vec![];
    match c.visit_expr_match(&attrs, &arms) {
        Err(e) => {
            assert_eq!(e.index, 1);
            assert_eq!(e.len, 1);
        }
        Ok(_) => panic!("expected a removal out of bounds"),
    }
}

#[test]
fn removal_uses_positions_before_removal() {
    let mut c = Checker { errors: vec![] };
    let attrs = vec![
        Some("sorted".to_string()),
        Some("sorted".to_string()),
        Some("doc".to_string()),
    ];
    let v = c.visit_expr_match(&attrs, &vec![]).ok().unwrap();
    // removing position 0, then position 1 of what is left, removes the `doc`
    assert_eq!(v.kept_attrs, vec![1]);
}
