use vstd::prelude::*;
use vstd::string::StringExecFns;

use crate::text::{
    concat, join, join_texts, lemma_lex_lt_total, lemma_lex_lt_transitive, lex_lt, text_lt, texts,
};
use crate::tokens::CALL_SITE;

verus! {

/// Whether every name sorts no later than the name after it.
pub open spec fn adjacent_in_order(v: Seq<Seq<char>>) -> bool {
    forall|k: int| 1 <= k < v.len() ==> !lex_lt(#[trigger] v[k], v[k - 1])
}

/// Whether every name sorts no later than every name after it.
pub open spec fn pairwise_in_order(v: Seq<Seq<char>>) -> bool {
    forall|a: int, b: int| 0 <= a < b < v.len() ==> !lex_lt(#[trigger] v[b], #[trigger] v[a])
}

/// `(i, j)` is the hint for the first name out of order: `v[i]` is the first
/// name that sorts strictly before the name just before it, and `v[j]` is the
/// first name that `v[i]` sorts strictly before, the place where `v[i]` belongs.
pub open spec fn is_disorder_hint(v: Seq<Seq<char>>, i: int, j: int) -> bool {
    &&& 1 <= i < v.len()
    &&& 0 <= j < i
    &&& lex_lt(v[i], v[i - 1])
    &&& forall|k: int| 1 <= k < i ==> !lex_lt(#[trigger] v[k], v[k - 1])
    &&& lex_lt(v[i], v[j])
    &&& forall|k: int| 0 <= k < j ==> !lex_lt(v[i], #[trigger] v[k])
}

/// The hint for the first name out of order, if any.
pub open spec fn disorder_spec(v: Seq<Seq<char>>) -> Option<(int, int)> {
    if adjacent_in_order(v) {
        None
    } else {
        Some(choose|p: (int, int)| is_disorder_hint(v, p.0, p.1))
    }
}

/// There is at most one hint.
pub proof fn lemma_hint_unique(v: Seq<Seq<char>>, i1: int, j1: int, i2: int, j2: int)
    requires
        is_disorder_hint(v, i1, j1),
        is_disorder_hint(v, i2, j2),
    ensures
        i1 == i2,
        j1 == j2,
{
    if i1 < i2 {
        assert(!lex_lt(v[i1], v[i1 - 1]));
    }
    if i2 < i1 {
        assert(!lex_lt(v[i2], v[i2 - 1]));
    }
    if j1 < j2 {
        assert(!lex_lt(v[i2], v[j1]));
    }
    if j2 < j1 {
        assert(!lex_lt(v[i1], v[j2]));
    }
}

/// Finds the first name that is out of order: `Some((i, j))` where `enum_item[i]`
/// sorts before the name just before it and `enum_item[j]` is the first name that
/// `enum_item[i]` should sort before; `None` where the names are in order.
pub fn disorder_hint(enum_item: &[String]) -> (r: Option<(usize, usize)>)
    ensures
        match r {
            None => disorder_spec(texts(enum_item@)) is None,
            Some((i, j)) => disorder_spec(texts(enum_item@)) == Some((i as int, j as int))
                && is_disorder_hint(texts(enum_item@), i as int, j as int),
        },
{
    let ghost v = texts(enum_item@);
    let mut i: usize = 1;
    while i < enum_item.len()
        invariant
            1 <= i,
            v == texts(enum_item@),
            forall|k: int| 1 <= k < i && k < v.len() ==> !lex_lt(#[trigger] v[k], v[k - 1]),
        decreases enum_item.len() - i,
    {
        let prev = &enum_item[i - 1];
        let cur = &enum_item[i];
        if !text_lt(cur.as_str(), prev.as_str()) {
            i = i + 1;
            continue;
        }
        let mut j: usize = 0;
        while j < i
            invariant
                j <= i < v.len(),
                v == texts(enum_item@),
                lex_lt(v[i as int], v[i - 1]),
                forall|k: int| 1 <= k < i ==> !lex_lt(#[trigger] v[k], v[k - 1]),
                forall|k: int| 0 <= k < j ==> !lex_lt(v[i as int], #[trigger] v[k]),
            decreases i - j,
        {
            if text_lt(enum_item[i].as_str(), enum_item[j].as_str()) {
                proof {
                    let w = (i as int, j as int);
                    assert(is_disorder_hint(v, w.0, w.1));
                    let p = choose|p: (int, int)| is_disorder_hint(v, p.0, p.1);
                    lemma_hint_unique(v, i as int, j as int, p.0, p.1);
                }
                return Some((i, j));
            }
            j = j + 1;
        }
        assert(!lex_lt(v[i as int], v[i - 1]));
        i = i + 1;
    }
    None
}

/// Names that pass the adjacent check are in order pairwise: the hint is
/// absent exactly when every name sorts no later than every name after it.
pub proof fn lemma_hint_none_iff_sorted(v: Seq<Seq<char>>)
    ensures
        disorder_spec(v) is None <==> pairwise_in_order(v),
{
    if adjacent_in_order(v) {
        assert forall|a: int, b: int| 0 <= a < b < v.len() implies !lex_lt(
            #[trigger] v[b],
            #[trigger] v[a],
        ) by {
            lemma_adjacent_chain(v, a, b);
        }
    } else {
        let k = choose|k: int| 1 <= k < v.len() && lex_lt(#[trigger] v[k], v[k - 1]);
        assert(!pairwise_in_order(v)) by {
            assert(lex_lt(v[k], v[k - 1]));
        }
    }
}

proof fn lemma_adjacent_chain(v: Seq<Seq<char>>, a: int, b: int)
    requires
        adjacent_in_order(v),
        0 <= a < b < v.len(),
    ensures
        !lex_lt(v[b], v[a]),
    decreases b - a,
{
    assert(!lex_lt(v[b], v[b - 1]));
    if a < b - 1 {
        lemma_adjacent_chain(v, a, b - 1);
        // v[a] <= v[b-1] <= v[b]
        if lex_lt(v[b], v[a]) {
            lemma_lex_lt_total(v[b], v[b - 1]);
            lemma_lex_lt_total(v[b - 1], v[a]);
            if v[b] == v[b - 1] {
            } else {
                lemma_lex_lt_transitive(v[b - 1], v[b], v[a]);
            }
        }
    }
}

/// The hint, where there is one, names the first name out of order and the
/// first name it sorts before.
pub proof fn lemma_hint_is_first_disorder(v: Seq<Seq<char>>)
    ensures
        disorder_spec(v) matches Some((i, j)) ==> is_disorder_hint(v, i, j),
{
    if !adjacent_in_order(v) {
        let i = choose|k: int| 1 <= k < v.len() && lex_lt(#[trigger] v[k], v[k - 1]);
        lemma_first_disorder(v, i);
    }
}

proof fn lemma_first_disorder(v: Seq<Seq<char>>, i: int)
    requires
        1 <= i < v.len(),
        lex_lt(v[i], v[i - 1]),
    ensures
        exists|p: (int, int)| is_disorder_hint(v, p.0, p.1),
    decreases i,
{
    if exists|k: int| 1 <= k < i && lex_lt(#[trigger] v[k], v[k - 1]) {
        let k = choose|k: int| 1 <= k < i && lex_lt(#[trigger] v[k], v[k - 1]);
        lemma_first_disorder(v, k);
    } else {
        lemma_first_greater(v, i, 0);
    }
}

proof fn lemma_first_greater(v: Seq<Seq<char>>, i: int, j: int)
    requires
        1 <= i < v.len(),
        lex_lt(v[i], v[i - 1]),
        forall|k: int| 1 <= k < i ==> !lex_lt(#[trigger] v[k], v[k - 1]),
        0 <= j < i,
        forall|k: int| 0 <= k < j ==> !lex_lt(v[i], #[trigger] v[k]),
    ensures
        exists|p: (int, int)| is_disorder_hint(v, p.0, p.1),
    decreases i - j,
{
    if lex_lt(v[i], v[j]) {
        let w = (i, j);
        assert(is_disorder_hint(v, w.0, w.1));
    } else {
        lemma_first_greater(v, i, j + 1);
    }
}


/// A name that has to appear in order, with the span to blame.
pub struct DisorderEnum {
    pub enum_name: String,
    pub span: usize,
}

impl DisorderEnum {
    pub fn new(enum_name: String, span: usize) -> (r: Self)
        ensures
            r.enum_name@ == enum_name@,
            r.span == span,
    {
        DisorderEnum { enum_name, span }
    }
}

/// The names of a sequence of named items.
pub open spec fn names_of(v: Seq<DisorderEnum>) -> Seq<Seq<char>> {
    Seq::new(v.len(), |i: int| v[i].enum_name@)
}

/// The separator of path segments.
pub open spec fn path_sep() -> Seq<char> {
    seq![':', ':']
}

/// The text of a path: its segments joined by `::`.
pub fn get_path(path: &Vec<String>) -> (r: String)
    ensures
        r@ == join(texts(path@), path_sep()),
{
    proof {
        reveal_strlit("::");
        assert("::"@ =~= path_sep());
    }
    join_texts(path, "::")
}

/// An error to report, with the span it points at.
pub struct CheckError {
    pub message: String,
    pub span: usize,
}

/// The values of a sequence of errors.
pub open spec fn errors_v(e: Seq<CheckError>) -> Seq<(Seq<char>, usize)> {
    Seq::new(e.len(), |i: int| (e[i].message@, e[i].span))
}

/// The message for a name that is out of order.
pub open spec fn order_message(first: Seq<char>, second: Seq<char>) -> Seq<char> {
    first + " should sort before "@ + second
}

/// The error for the first name out of order, if any.
pub open spec fn order_errors(names: Seq<Seq<char>>, spans: Seq<usize>) -> Seq<(Seq<char>, usize)> {
    match disorder_spec(names) {
        Some((i, j)) => seq![(order_message(names[i], names[j]), spans[i])],
        None => seq![],
    }
}

/// The names and spans of the items, and the error for the first one out of
/// order.
fn order_error(items: &Vec<DisorderEnum>) -> (r: Option<CheckError>)
    ensures
        match r {
            Some(e) => order_errors(names_of(items@), spans_of(items@)) == seq![(e.message@, e.span)],
            None => order_errors(names_of(items@), spans_of(items@)) == Seq::<(Seq<char>, usize)>::empty(),
        },
{
    let mut names: Vec<String> = Vec::new();
    let mut i: usize = 0;
    while i < items.len()
        invariant
            i <= items.len(),
            names@.len() == i,
            texts(names@) == names_of(items@).take(i as int),
        decreases items.len() - i,
    {
        let ghost before = names@;
        let n = items[i].enum_name.clone();
        names.push(n);
        assert(names@ == before.push(n));
        assert forall|k: int| 0 <= k < i + 1 implies texts(names@)[k] == names_of(items@).take(i + 1)[k] by {
            if k < i {
                assert(texts(before)[k] == names_of(items@).take(i as int)[k]);
            }
        }
        assert(texts(names@) =~= names_of(items@).take(i + 1));
        i = i + 1;
    }
    assert(texts(names@) =~= names_of(items@));
    match disorder_hint(names.as_slice()) {
        Some((a, b)) => {
            proof {
                reveal_strlit(" should sort before ");
            }
            let first = &items[a];
            let second = &items[b];
            let msg = concat(
                concat(first.enum_name.as_str(), " should sort before ").as_str(),
                second.enum_name.as_str(),
            );
            Some(CheckError { message: msg, span: first.span })
        },
        None => None,
    }
}

/// The spans of a sequence of named items.
pub open spec fn spans_of(v: Seq<DisorderEnum>) -> Seq<usize> {
    Seq::new(v.len(), |i: int| v[i].span)
}

/// What `#[sorted]` on an item does.
pub enum SortedItem {
    /// An enum, with its variants' names.
    Enum { variants: Vec<DisorderEnum> },
    /// Any other item.
    Other,
}

/// What `#[sorted]` expands to: whether the item is kept, and the error
/// reported with it.
pub struct SortedExpansion {
    pub keep_item: bool,
    pub error: Option<CheckError>,
}

/// The message for an item that is not an enum.
pub open spec fn not_enum_message() -> Seq<char> {
    "expected enum or match expression"@
}

/// `#[sorted]` on an item: any item but an enum is replaced by an error at the
/// call site; an enum is kept, with an error at the first variant out of order.
pub fn sorted_impl(item: &SortedItem) -> (r: SortedExpansion)
    ensures
        match *item {
            SortedItem::Other => !r.keep_item && (r.error matches Some(e) && e.message@
                == not_enum_message() && e.span == CALL_SITE),
            SortedItem::Enum { variants } => r.keep_item && match r.error {
                Some(e) => order_errors(names_of(variants@), spans_of(variants@)) == seq![(e.message@, e.span)],
                None => order_errors(names_of(variants@), spans_of(variants@)) == Seq::<(Seq<char>, usize)>::empty(),
            },
        },
{
    match item {
        SortedItem::Other => SortedExpansion {
            keep_item: false,
            error: Some(
                CheckError {
                    message: String::from_str("expected enum or match expression"),
                    span: CALL_SITE,
                },
            ),
        },
        SortedItem::Enum { variants } => SortedExpansion {
            keep_item: true,
            error: order_error(variants),
        },
    }
}


/// The pattern of a match arm, as `#[sorted]` reads it.
pub enum ArmPat {
    /// `Path(..)`, with the path's segments and the path's span.
    TupleStruct { path: Vec<String>, span: usize },
    /// A binding `name`, with its span.
    Ident { name: String, span: usize },
    /// `_`, with its span.
    Wild { span: usize },
    /// Any other pattern, with its span.
    Other { span: usize },
}

/// The word of the attribute that asks for a check.
pub open spec fn sorted_word() -> Seq<char> {
    seq!['s', 'o', 'r', 't', 'e', 'd']
}

/// Whether an attribute, given by the identifier its path consists of (if it
/// is one identifier), is `#[sorted]`.
pub open spec fn is_sorted_attr(a: Option<String>) -> bool {
    a matches Some(s) && s@ == sorted_word()
}

/// The positions, from `k` on and ascending, of the `#[sorted]` attributes.
pub open spec fn sorted_attrs_from(attrs: Seq<Option<String>>, k: int) -> Seq<usize>
    decreases attrs.len() - k,
{
    if k < 0 || k >= attrs.len() {
        seq![]
    } else if is_sorted_attr(attrs[k]) {
        seq![k as usize] + sorted_attrs_from(attrs, k + 1)
    } else {
        sorted_attrs_from(attrs, k + 1)
    }
}

/// The positions of the `#[sorted]` attributes.
pub open spec fn sorted_attrs(attrs: Seq<Option<String>>) -> Seq<usize> {
    sorted_attrs_from(attrs, 0)
}

/// The positions `0..n`.
pub open spec fn all_positions(n: nat) -> Seq<usize> {
    Seq::new(n, |k: int| k as usize)
}

/// Removes, one after the other, the element at each index of `idx` from
/// `cur` (indices are not adjusted for earlier removals); fails with the index
/// and the length where an index is out of bounds.
pub open spec fn remove_each(cur: Seq<usize>, idx: Seq<usize>) -> Result<Seq<usize>, (usize, usize)>
    decreases idx.len(),
{
    if idx.len() == 0 {
        Ok(cur)
    } else if idx[0] < cur.len() {
        remove_each(cur.remove(idx[0] as int), idx.drop_first())
    } else {
        Err((idx[0], cur.len() as usize))
    }
}

/// The message for a wildcard that is not the last arm.
pub open spec fn wild_message() -> Seq<char> {
    "_ should be last arm in #[sorted]"@
}

/// The message for a pattern that cannot be checked.
pub open spec fn unsupported_message() -> Seq<char> {
    "unsupported by #[sorted]"@
}

/// The arms read from `k` on: the names (and spans) of tuple-struct and
/// binding patterns are collected; a wildcard that is not the last arm, or any
/// other pattern, stops the reading with an error.
pub open spec fn scan_arms(arms: Seq<ArmPat>, k: int, names: Seq<Seq<char>>, spans: Seq<usize>) -> (
    Seq<Seq<char>>,
    Seq<usize>,
    Seq<(Seq<char>, usize)>,
)
    decreases arms.len() - k,
{
    if k < 0 || k >= arms.len() {
        (names, spans, seq![])
    } else {
        match arms[k] {
            ArmPat::TupleStruct { path, span } => scan_arms(
                arms,
                k + 1,
                names.push(join(texts(path@), path_sep())),
                spans.push(span),
            ),
            ArmPat::Ident { name, span } => scan_arms(arms, k + 1, names.push(name@), spans.push(span)),
            ArmPat::Wild { span } => if names.len() + 1 != arms.len() {
                (names, spans, seq![(wild_message(), span)])
            } else {
                scan_arms(arms, k + 1, names, spans)
            },
            ArmPat::Other { span } => (names, spans, seq![(unsupported_message(), span)]),
        }
    }
}

/// The errors for the arms of a checked match: the error that stopped the
/// reading, if any, then the error for the first name out of order, if any.
pub open spec fn match_errors(arms: Seq<ArmPat>) -> Seq<(Seq<char>, usize)> {
    let (names, spans, errs) = scan_arms(arms, 0, seq![], seq![]);
    errs + order_errors(names, spans)
}

/// An attribute removal out of bounds: the index and the length at that point.
pub struct RemovalError {
    pub index: usize,
    pub len: usize,
}

/// What happens to a match expression.
pub struct MatchVisit {
    /// The positions of the attributes that stay, in order.
    pub kept_attrs: Vec<usize>,
    /// Whether the expressions nested in this one are visited.
    pub visit_nested: bool,
}

/// Collects the errors of `#[sorted]` match expressions in a function.
pub struct Checker {
    pub errors: Vec<CheckError>,
}

impl Checker {
    /// A match expression, given by its attributes and the patterns of its
    /// arms. Without a `#[sorted]` attribute nothing happens and the nested
    /// expressions are not visited. Otherwise the `#[sorted]` attributes are
    /// removed (by the positions they had before any removal, one after the other), the
    /// errors of the arms are recorded, and the nested expressions are visited.
    pub fn visit_expr_match(&mut self, attrs: &Vec<Option<String>>, arms: &Vec<ArmPat>) -> (r: Result<
        MatchVisit,
        RemovalError,
    >)
        ensures
            match r {
                Err(e) => sorted_attrs(attrs@).len() > 0 && remove_each(
                    all_positions(attrs@.len()),
                    sorted_attrs(attrs@),
                ) == Err::<Seq<usize>, (usize, usize)>((e.index, e.len)) && errors_v(final(self).errors@)
                    == errors_v(old(self).errors@),
                Ok(v) => if sorted_attrs(attrs@).len() == 0 {
                    &&& v.kept_attrs@ == all_positions(attrs@.len())
                    &&& !v.visit_nested
                    &&& errors_v(final(self).errors@) == errors_v(old(self).errors@)
                } else {
                    &&& remove_each(all_positions(attrs@.len()), sorted_attrs(attrs@)) == Ok::<
                        Seq<usize>,
                        (usize, usize),
                    >(v.kept_attrs@)
                    &&& v.visit_nested
                    &&& errors_v(final(self).errors@) == errors_v(old(self).errors@) + match_errors(arms@)
                },
            },
    {
        proof {
            reveal_strlit("sorted");
        }
        let sorted = String::from_str("sorted");
        assert(sorted@ == sorted_word());
        // the positions of the `#[sorted]` attributes
        let mut idx: Vec<usize> = Vec::new();
        let mut k: usize = attrs.len();
        while k > 0
            invariant
                k <= attrs.len(),
                sorted@ == sorted_word(),
                idx@ == sorted_attrs_from(attrs@, k as int),
            decreases k,
        {
            k = k - 1;
            let hit = match &attrs[k] {
                Some(s) => *s == sorted,
                None => false,
            };
            if hit {
                idx.insert(0, k);
            }
        }
        let mut kept: Vec<usize> = Vec::new();
        let mut n: usize = 0;
        while n < attrs.len()
            invariant
                n <= attrs.len(),
                kept@ == all_positions(n as nat),
            decreases attrs.len() - n,
        {
            kept.push(n);
            assert(kept@ =~= all_positions((n + 1) as nat));
            n = n + 1;
        }
        if idx.len() == 0 {
            return Ok(MatchVisit { kept_attrs: kept, visit_nested: false });
        }
        assert(idx@.skip(0) =~= idx@);
        let mut t: usize = 0;
        while t < idx.len()
            invariant
                t <= idx.len(),
                idx@ == sorted_attrs(attrs@),
                remove_each(all_positions(attrs@.len()), idx@) == remove_each(kept@, idx@.skip(t as int)),
            decreases idx.len() - t,
        {
            assert(idx@.skip(t as int).drop_first() =~= idx@.skip(t + 1));
            let i = idx[t];
            assert(idx@.skip(t as int)[0] == i);
            if i >= kept.len() {
                return Err(RemovalError { index: i, len: kept.len() });
            }
            kept.remove(i);
            t = t + 1;
        }
        assert(idx@.skip(idx.len() as int) =~= Seq::<usize>::empty());
        self.check_arms(arms);
        Ok(MatchVisit { kept_attrs: kept, visit_nested: true })
    }

    /// Records the errors of the arms of a checked match.
    fn check_arms(&mut self, arms: &Vec<ArmPat>)
        ensures
            errors_v(final(self).errors@) == errors_v(old(self).errors@) + match_errors(arms@),
    {
        proof {
            reveal_strlit("_ should be last arm in #[sorted]");
            reveal_strlit("unsupported by #[sorted]");
        }
        let ghost full = scan_arms(arms@, 0, seq![], seq![]);
        let mut paths: Vec<DisorderEnum> = Vec::new();
        let mut stop: Option<CheckError> = None;
        let mut k: usize = 0;
        assert(names_of(paths@) =~= Seq::<Seq<char>>::empty());
        assert(spans_of(paths@) =~= Seq::<usize>::empty());
        while k < arms.len() && stop.is_none()
            invariant
                k <= arms.len(),
                paths.len() <= k,
                match stop {
                    None => full == scan_arms(arms@, k as int, names_of(paths@), spans_of(paths@)),
                    Some(e) => full == (names_of(paths@), spans_of(paths@), seq![(e.message@, e.span)]),
                },
            decreases arms.len() - k,
        {
            let ghost before = paths@;
            match &arms[k] {
                ArmPat::TupleStruct { path, span } => {
                    paths.push(DisorderEnum::new(get_path(path), *span));
                    assert(names_of(paths@) =~= names_of(before).push(join(texts(path@), path_sep())));
                    assert(spans_of(paths@) =~= spans_of(before).push(*span));
                },
                ArmPat::Ident { name, span } => {
                    paths.push(DisorderEnum::new(name.clone(), *span));
                    assert(names_of(paths@) =~= names_of(before).push(name@));
                    assert(spans_of(paths@) =~= spans_of(before).push(*span));
                },
                ArmPat::Wild { span } => {
                    if paths.len() + 1 != arms.len() {
                        stop = Some(
                            CheckError {
                                message: String::from_str("_ should be last arm in #[sorted]"),
                                span: *span,
                            },
                        );
                    }
                },
                ArmPat::Other { span } => {
                    stop = Some(
                        CheckError { message: String::from_str("unsupported by #[sorted]"), span: *span },
                    );
                },
            }
            k = k + 1;
        }
        let ghost (fnames, fspans, ferrs) = full;
        assert(fnames == names_of(paths@) && fspans == spans_of(paths@));
        let ghost before_errors = errors_v(self.errors@);
        match stop {
            Some(e) => {
                let ghost ev = (e.message@, e.span);
                self.errors.push(e);
                assert(ferrs == seq![ev]);
                assert(errors_v(self.errors@) =~= before_errors + ferrs);
            },
            None => {
                assert(ferrs =~= Seq::<(Seq<char>, usize)>::empty());
                assert(errors_v(self.errors@) =~= before_errors + ferrs);
            },
        }
        let ghost mid = errors_v(self.errors@);
        match order_error(&paths) {
            Some(e) => {
                self.errors.push(e);
                assert(errors_v(self.errors@) =~= mid + order_errors(fnames, fspans));
            },
            None => {
                assert(errors_v(self.errors@) =~= mid + order_errors(fnames, fspans));
            },
        }
    }
}


/// The names of the arms from `k` to `m`, which are binding patterns.
pub open spec fn binding_names(arms: Seq<ArmPat>, k: int, m: int) -> Seq<Seq<char>> {
    Seq::new(
        (m - k) as nat,
        |i: int|
            match arms[k + i] {
                ArmPat::Ident { name, .. } => name@,
                _ => seq![],
            },
    )
}

/// The spans of the arms from `k` to `m`, which are binding patterns.
pub open spec fn binding_spans(arms: Seq<ArmPat>, k: int, m: int) -> Seq<usize> {
    Seq::new(
        (m - k) as nat,
        |i: int|
            match arms[k + i] {
                ArmPat::Ident { span, .. } => span,
                _ => 0,
            },
    )
}

/// Reading binding patterns collects each one's name and span, in order.
proof fn lemma_scan_bindings(arms: Seq<ArmPat>, k: int, m: int, names: Seq<Seq<char>>, spans: Seq<usize>)
    requires
        0 <= k <= m <= arms.len(),
        forall|i: int| k <= i < m ==> #[trigger] arms[i] is Ident,
    ensures
        scan_arms(arms, k, names, spans) == scan_arms(
            arms,
            m,
            names + binding_names(arms, k, m),
            spans + binding_spans(arms, k, m),
        ),
    decreases m - k,
{
    if k == m {
        assert(names + binding_names(arms, k, m) =~= names);
        assert(spans + binding_spans(arms, k, m) =~= spans);
    } else {
        assert(arms[k] is Ident);
        match arms[k] {
            ArmPat::Ident { name, span } => {
                lemma_scan_bindings(arms, k + 1, m, names.push(name@), spans.push(span));
                assert(names.push(name@) + binding_names(arms, k + 1, m) =~= names + binding_names(arms, k, m));
                assert(spans.push(span) + binding_spans(arms, k + 1, m) =~= spans + binding_spans(arms, k, m));
            },
            _ => {},
        }
    }
}

/// A checked match whose arms are all binding patterns, but for a last arm
/// that may be `_`, is checked by the order of the bindings' names alone: each
/// binding contributes its name and span, in arm order, and a wildcard that is
/// the last arm is never reported.
pub proof fn lemma_binding_arms_checked_by_order(arms: Seq<ArmPat>, n: int)
    requires
        0 <= n <= arms.len(),
        n == arms.len() || (n + 1 == arms.len() && arms[n] is Wild),
        forall|i: int| 0 <= i < n ==> #[trigger] arms[i] is Ident,
    ensures
        match_errors(arms) == order_errors(binding_names(arms, 0, n), binding_spans(arms, 0, n)),
{
    lemma_scan_bindings(arms, 0, n, seq![], seq![]);
    let names = seq![] + binding_names(arms, 0, n);
    let spans = seq![] + binding_spans(arms, 0, n);
    assert(names =~= binding_names(arms, 0, n));
    assert(spans =~= binding_spans(arms, 0, n));
    if n < arms.len() {
        assert(names.len() + 1 == arms.len());
        assert(scan_arms(arms, n, names, spans) == scan_arms(arms, n + 1, names, spans));
    }
    let e: Seq<(Seq<char>, usize)> = seq![];
    assert(e + order_errors(names, spans) =~= order_errors(names, spans));
}

} // verus!
