use vstd::prelude::*;
use vstd::string::StringExecFns;

use crate::text::concat;
use crate::tokens::{copy_stream, same_stream, same_tokens, stream_v, Tok, TokV, CALL_SITE};
use crate::types::{
    assoc_list, assoc_spec, dedup, lemma_assoc_args_list, lemma_seg_args, lemma_ty_path,
    arg_search_wf, search_args_wf, search_well_formed, search_wf, segs_v, strip_segment, ty_v, type_args, tys_v,
    Attr,
    Data, DeriveInput, Field, GenArgV, GenericParam, Meta, Ty, TyV,
};

verus! {

proof fn lemma_type_args_below(p: Seq<char>, a: Seq<GenArgV>, k: int)
    requires
        0 <= k < type_args(a).len(),
        search_args_wf(p, a),
    ensures
        decreases_to!(a => type_args(a)[k]),
        search_wf(p, type_args(a)[k]),
    decreases a.len(),
{
    if a.len() > 0 {
        let head: Seq<TyV> = match a[0] {
            GenArgV::Type(x) => seq![x],
            GenArgV::Other => seq![],
        };
        assert(type_args(a) == head + type_args(a.drop_first()));
        if k < head.len() {
            match a[0] {
                GenArgV::Type(x) => {
                    assert(arg_search_wf(p, a[0]));
                    assert(decreases_to!(a => a[0]));
                    assert(decreases_to!(a[0] => x));
                },
                GenArgV::Other => {},
            }
        } else {
            lemma_type_args_below(p, a.drop_first(), k - head.len());
            assert(type_args(a)[k] == type_args(a.drop_first())[k - head.len()]);
            assert(decreases_to!(a => a.drop_first()));
        }
    }
}

/// The types kept, dropping each that is the same type as the one kept
/// before it.
pub fn dedup_types(v: &Vec<Ty>) -> (r: Vec<Ty>)
    ensures
        tys_v(r@) == dedup(tys_v(v@)),
{
    let mut r: Vec<Ty> = Vec::new();
    let mut i: usize = 0;
    assert(tys_v(v@).take(0) =~= Seq::<TyV>::empty());
    assert(tys_v(r@) =~= Seq::<TyV>::empty());
    while i < v.len()
        invariant
            i <= v.len(),
            tys_v(r@) == dedup(tys_v(v@).take(i as int)),
        decreases v.len() - i,
    {
        let ghost s = tys_v(v@).take(i + 1);
        assert(s.drop_last() =~= tys_v(v@).take(i as int));
        let keep = if r.len() == 0 {
            true
        } else {
            proof {
                lemma_ty_path(r@[r.len() - 1]);
                lemma_ty_path(v@[i as int]);
            }
            !same_tokens(&r[r.len() - 1].tokens, &v[i].tokens)
        };
        if keep {
            let c = v[i].duplicate();
            assert(tys_v(r@.push(c)) =~= tys_v(r@).push(ty_v(c)));
            r.push(c);
        }
        i = i + 1;
    }
    assert(tys_v(v@).take(v.len() as int) =~= tys_v(v@));
    r
}

/// The associated types of the type parameter `generics` that `ty` mentions:
/// a path of two or more segments that starts with the parameter is one itself
/// (`T::Value`); otherwise the type arguments of the last segment are searched
/// (`Vec<T::Value>`), and repeats next to each other are dropped.
pub fn find_generics_associated(generics: &String, ty: &Ty) -> (r: Vec<Ty>)
    requires
        search_wf(generics@, ty_v(*ty)),
    ensures
        tys_v(r@) == assoc_spec(generics@, ty_v(*ty)),
    decreases ty_v(*ty),
{
    proof {
        lemma_ty_path(*ty);
    }
    match &ty.path {
        None => Vec::new(),
        Some(segs) => {
            if segs.len() > 1 && segs[0].ident == *generics {
                let mut v: Vec<Ty> = Vec::new();
                let c = ty.duplicate();
                v.push(c);
                assert(tys_v(v@) =~= seq![ty_v(*ty)]);
                return v;
            }
            let last = &segs[segs.len() - 1];
            let ghost lv = segs_v(segs@)[segs.len() - 1];
            proof {
                lemma_seg_args(*last);
            }
            let striped = match strip_segment(last) {
                Some(s) => s,
                None => {
                    return Vec::new();
                },
            };
            let ghost a = lv.args->Angle_0;
            proof {
                lemma_assoc_args_list(generics@, a);
                assert(type_args(a).skip(0) =~= type_args(a));
                assert(decreases_to!(ty_v(*ty) => a)) by {
                    let tv = ty_v(*ty);
                    let sv = tv.path->0;
                    assert(decreases_to!(tv => tv.path));
                    assert(decreases_to!(tv.path => sv));
                    assert(decreases_to!(sv => sv[sv.len() - 1]));
                    assert(decreases_to!(sv[sv.len() - 1] => sv[sv.len() - 1].args));
                    assert(decreases_to!(sv[sv.len() - 1].args => a));
                }
            }
            let mut result: Vec<Ty> = Vec::new();
            let mut k: usize = 0;
            assert(tys_v(result@) =~= Seq::<TyV>::empty());
            while k < striped.len()
                invariant
                    k <= striped.len(),
                    tys_v(striped@) == type_args(a),
                    assoc_list(generics@, type_args(a)) == tys_v(result@) + assoc_list(
                        generics@,
                        type_args(a).skip(k as int),
                    ),
                    search_args_wf(generics@, a),
                    decreases_to!(ty_v(*ty) => a),
                decreases striped.len() - k,
            {
                let ghost ts = type_args(a);
                proof {
                    lemma_type_args_below(generics@, a, k as int);
                    assert(ts.skip(k as int).drop_first() =~= ts.skip(k + 1));
                    assert(ts.skip(k as int)[0] == ts[k as int]);
                    assert(ty_v(striped@[k as int]) == ts[k as int]);
                }
                let mut found = find_generics_associated(generics, &striped[k]);
                let ghost before = tys_v(result@);
                let ghost fv = tys_v(found@);
                result.append(&mut found);
                assert(tys_v(result@) =~= before + fv);
                k = k + 1;
            }
            assert(type_args(a).skip(striped.len() as int) =~= Seq::<TyV>::empty());
            assert(tys_v(result@) =~= assoc_list(generics@, type_args(a)));
            dedup_types(&result)
        },
    }
}


/// The name of the attribute that sets a field's format.
pub open spec fn debug_word() -> Seq<char> {
    seq!['d', 'e', 'b', 'u', 'g']
}

/// The format used where a field has none: the literal `"{:?}"`.
pub open spec fn default_format() -> Seq<TokV> {
    seq![TokV::Literal("\"{:?}\""@, CALL_SITE)]
}

/// The format an attribute gives: the value of `#[debug = value]`, else the
/// default.
pub open spec fn attr_format(a: Attr) -> Seq<TokV> {
    match a.meta {
        Meta::NameValue { value } => stream_v(value@),
        _ => default_format(),
    }
}

/// Whether an attribute is `#[debug ...]`.
pub open spec fn is_debug_attr(a: Attr) -> bool {
    a.path_ident matches Some(s) && s@ == debug_word()
}

/// The format of a field: from its first `#[debug ...]` attribute, else the
/// default.
pub open spec fn field_format(attrs: Seq<Attr>) -> Seq<TokV> {
    if exists|i: int| 0 <= i < attrs.len() && is_debug_attr(#[trigger] attrs[i]) {
        attr_format(attrs[choose|i: int| 0 <= i < attrs.len() && is_debug_attr(#[trigger] attrs[i])
            && forall|j: int| 0 <= j < i ==> !is_debug_attr(#[trigger] attrs[j])])
    } else {
        default_format()
    }
}

/// The format tokens that an attribute gives.
pub fn parse_debug_attr(attr: Option<&Attr>) -> (r: Vec<Tok>)
    ensures
        stream_v(r@) == match attr {
            Some(a) => attr_format(*a),
            None => default_format(),
        },
{
    match attr {
        Some(a) => match &a.meta {
            Meta::NameValue { value } => copy_stream(value),
            _ => default_format_tokens(),
        },
        None => default_format_tokens(),
    }
}

fn default_format_tokens() -> (r: Vec<Tok>)
    ensures
        stream_v(r@) == default_format(),
{
    let mut v: Vec<Tok> = Vec::new();
    v.push(Tok::Literal { text: String::from_str("\"{:?}\""), span: CALL_SITE });
    assert(stream_v(v@) =~= default_format());
    v
}

/// A field of a struct that derives the custom `Debug`.
pub struct DebugField {
    pub ident: String,
    /// The format string expression for the field's value.
    pub formatter: Vec<Tok>,
    pub ty: Ty,
}

impl DebugField {
    /// The field with the format its first `#[debug ...]` attribute gives.
    pub fn from_field(value: Field) -> (r: DebugField)
        ensures
            r.ident@ == value.ident@,
            ty_v(r.ty) == ty_v(value.ty),
            stream_v(r.formatter@) == field_format(value.attrs@),
    {
        proof {
            reveal_strlit("debug");
        }
        let word = String::from_str("debug");
        let mut i: usize = 0;
        let mut found: Option<usize> = None;
        while i < value.attrs.len()
            invariant
                i <= value.attrs.len(),
                word@ == debug_word(),
                found is None ==> forall|j: int| 0 <= j < i ==> !is_debug_attr(#[trigger] value.attrs@[j]),
                found matches Some(k) ==> k < value.attrs.len() && is_debug_attr(value.attrs@[k as int])
                    && forall|j: int| 0 <= j < k ==> !is_debug_attr(#[trigger] value.attrs@[j]),
            decreases value.attrs.len() - i,
        {
            if found.is_none() {
                let hit = match &value.attrs[i].path_ident {
                    Some(s) => *s == word,
                    None => false,
                };
                if hit {
                    found = Some(i);
                }
            }
            i = i + 1;
        }
        let formatter = match found {
            Some(k) => {
                proof {
                    let a = value.attrs@;
                    let c = choose|i: int| 0 <= i < a.len() && is_debug_attr(#[trigger] a[i])
                        && forall|j: int| 0 <= j < i ==> !is_debug_attr(#[trigger] a[j]);
                    assert(0 <= k < a.len() && is_debug_attr(a[k as int]) && forall|j: int|
                        0 <= j < k ==> !is_debug_attr(#[trigger] a[j]));
                    if c < k {
                        assert(!is_debug_attr(a[c]));
                    }
                    if k < c {
                        assert(!is_debug_attr(a[k as int]));
                    }
                }
                parse_debug_attr(Some(&value.attrs[k]))
            },
            None => parse_debug_attr(None),
        };
        DebugField { ident: value.ident, formatter, ty: value.ty }
    }
}

/// The tokens of `PhantomData<t>` for the parameter `t`.
pub open spec fn phantom_of(t: Seq<char>) -> Seq<TokV> {
    seq![
        TokV::Ident(seq!['P', 'h', 'a', 'n', 't', 'o', 'm', 'D', 'a', 't', 'a'], CALL_SITE),
        TokV::Punct('<', false, CALL_SITE),
        TokV::Ident(t, CALL_SITE),
        TokV::Punct('>', false, CALL_SITE),
    ]
}

/// Whether a type is `PhantomData<t>`: the same tokens, spans aside.
pub open spec fn is_phantom_of(ty: TyV, t: Seq<char>) -> bool {
    same_stream(ty.tokens, phantom_of(t))
}

/// Whether the identifier `t` is one of the top-level tokens of a stream.
pub open spec fn mentions_at_top(s: Seq<TokV>, t: Seq<char>) -> bool {
    exists|i: int| 0 <= i < s.len() && (#[trigger] s[i] matches TokV::Ident(x, _) && x == t)
}

/// The types of the fields.
pub open spec fn field_tys(fields: Seq<DebugField>) -> Seq<TyV> {
    Seq::new(fields.len(), |i: int| ty_v(fields[i].ty))
}

/// The fields read from `k` on for the type parameter `t`: a field of type
/// `PhantomData<t>` is passed over; a field whose type mentions one associated
/// type of `t` adds a `Debug` bound on that type (two or more cannot be
/// written as one predicate: `None`); otherwise a field whose type mentions
/// `t` among its top-level tokens bounds `t` itself and ends the reading.
/// The result tells whether `t` is bounded, and the bounded types so far.
pub open spec fn bound_scan(t: Seq<char>, tys: Seq<TyV>, k: int, preds: Seq<TyV>) -> Option<
    (bool, Seq<TyV>),
>
    decreases tys.len() - k,
{
    if k < 0 || k >= tys.len() {
        Some((false, preds))
    } else if is_phantom_of(tys[k], t) {
        bound_scan(t, tys, k + 1, preds)
    } else {
        let a = assoc_spec(t, tys[k]);
        if a.len() > 1 {
            None
        } else if a.len() == 1 {
            bound_scan(t, tys, k + 1, preds.push(a[0]))
        } else if mentions_at_top(tys[k].tokens, t) {
            Some((true, preds))
        } else {
            bound_scan(t, tys, k + 1, preds)
        }
    }
}

/// Whether the reading of the fields from `k` on for the type parameter `t`,
/// as `bound_scan` reads them, searches only types whose paths have segments.
pub open spec fn scan_wf(t: Seq<char>, tys: Seq<TyV>, k: int) -> bool
    decreases tys.len() - k,
{
    if k < 0 || k >= tys.len() {
        true
    } else if is_phantom_of(tys[k], t) {
        scan_wf(t, tys, k + 1)
    } else if !search_wf(t, tys[k]) {
        false
    } else {
        let a = assoc_spec(t, tys[k]);
        if a.len() > 1 {
            true
        } else if a.len() == 1 {
            scan_wf(t, tys, k + 1)
        } else if mentions_at_top(tys[k].tokens, t) {
            true
        } else {
            scan_wf(t, tys, k + 1)
        }
    }
}

/// Whether the bound search for every type parameter searches only types
/// whose paths have segments.
pub open spec fn params_scan_wf(params: Seq<GenericParam>, tys: Seq<TyV>) -> bool {
    forall|k: int|
        0 <= k < params.len() ==> (#[trigger] params[k] matches GenericParam::Type { ident } ==> scan_wf(
            ident@,
            tys,
            0,
        ))
}

/// The bounds for the generic parameters from `k` on: for each, whether it is
/// bounded by `Debug`, and the types that the `where` clause bounds.
pub open spec fn bounds_spec(
    params: Seq<GenericParam>,
    tys: Seq<TyV>,
    k: int,
    flags: Seq<bool>,
    preds: Seq<TyV>,
) -> Option<(Seq<bool>, Seq<TyV>)>
    decreases params.len() - k,
{
    if k < 0 || k >= params.len() {
        Some((flags, preds))
    } else {
        match params[k] {
            GenericParam::Type { ident } => match bound_scan(ident@, tys, 0, preds) {
                None => None,
                Some((b, p)) => bounds_spec(params, tys, k + 1, flags.push(b), p),
            },
            GenericParam::Other => bounds_spec(params, tys, k + 1, flags.push(false), preds),
        }
    }
}

/// The `Debug` bounds that the derived impl needs.
pub struct BoundPlan {
    /// For each generic parameter, whether `::std::fmt::Debug` is added to its
    /// bounds.
    pub debug_bound: Vec<bool>,
    /// The types that the `where` clause bounds by `::std::fmt::Debug`, in order.
    pub where_preds: Vec<Ty>,
}

/// Why the custom `Debug` cannot be derived.
#[derive(Clone, Copy, Debug, PartialEq, Eq, Structural)]
pub enum DebugError {
    /// The item is not a struct with named fields; the span is the item's name.
    NotNamedStruct { span: usize },
    /// A field mentions two or more associated types of one parameter, which
    /// do not make one `where` predicate.
    UnparsableBound,
}


/// Whether a type is `PhantomData<t>`.
fn is_phantom_type(ty: &Ty, t: &String) -> (r: bool)
    ensures
        r == is_phantom_of(ty_v(*ty), t@),
{
    proof {
        reveal_strlit("PhantomData");
        lemma_ty_path(*ty);
    }
    let mut expected: Vec<Tok> = Vec::new();
    expected.push(Tok::Ident { text: String::from_str("PhantomData"), span: CALL_SITE });
    expected.push(Tok::Punct { ch: '<', joint: false, span: CALL_SITE });
    expected.push(Tok::Ident { text: t.clone(), span: CALL_SITE });
    expected.push(Tok::Punct { ch: '>', joint: false, span: CALL_SITE });
    assert("PhantomData"@ =~= seq!['P', 'h', 'a', 'n', 't', 'o', 'm', 'D', 'a', 't', 'a']);
    assert(stream_v(expected@) =~= phantom_of(t@));
    same_tokens(&ty.tokens, &expected)
}

/// Whether the identifier `t` is one of the top-level tokens of a stream.
fn mentions_ident(toks: &Vec<Tok>, t: &String) -> (r: bool)
    ensures
        r == mentions_at_top(stream_v(toks@), t@),
{
    let mut i: usize = 0;
    while i < toks.len()
        invariant
            i <= toks.len(),
            forall|j: int| 0 <= j < i ==> !(#[trigger] stream_v(toks@)[j] matches TokV::Ident(x, _) && x == t@),
        decreases toks.len() - i,
    {
        let hit = match &toks[i] {
            Tok::Ident { text, .. } => *text == *t,
            _ => false,
        };
        if hit {
            assert(stream_v(toks@)[i as int] matches TokV::Ident(x, _) && x == t@);
            return true;
        }
        i = i + 1;
    }
    false
}

/// Adds the `Debug` bounds that the derived impl needs: for each type
/// parameter `T`, the fields are read in order; a `PhantomData<T>` field is
/// passed over; a field that mentions an associated type of `T` bounds that
/// type in the `where` clause; otherwise the first field whose type mentions
/// `T` at its top level bounds `T` itself. Refused where one field mentions
/// two or more associated types of one parameter.
pub fn add_debug_trait_bound(generics: &Vec<GenericParam>, fields: &Vec<DebugField>) -> (r: Result<
    BoundPlan,
    DebugError,
>)
    requires
        params_scan_wf(generics@, field_tys(fields@)),
    ensures
        match (r, bounds_spec(generics@, field_tys(fields@), 0, seq![], seq![])) {
            (Ok(p), Some((f, w))) => p.debug_bound@ == f && tys_v(p.where_preds@) == w,
            (Err(e), None) => e == DebugError::UnparsableBound,
            _ => false,
        },
{
    let ghost tys = field_tys(fields@);
    let mut flags: Vec<bool> = Vec::new();
    let mut preds: Vec<Ty> = Vec::new();
    let mut k: usize = 0;
    assert(tys_v(preds@) =~= Seq::<TyV>::empty());
    assert(flags@ =~= Seq::<bool>::empty());
    while k < generics.len()
        invariant
            k <= generics.len(),
            tys == field_tys(fields@),
            params_scan_wf(generics@, tys),
            bounds_spec(generics@, tys, 0, seq![], seq![]) == bounds_spec(
                generics@,
                tys,
                k as int,
                flags@,
                tys_v(preds@),
            ),
        decreases generics.len() - k,
    {
        match &generics[k] {
            GenericParam::Type { ident } => {
                assert(generics@[k as int] matches GenericParam::Type { ident: x } && x == *ident);
                let ghost start = tys_v(preds@);
                let mut bounded = false;
                let mut j: usize = 0;
                while j < fields.len() && !bounded
                    invariant
                        j <= fields.len(),
                        tys == field_tys(fields@),
                        params_scan_wf(generics@, tys),
                        !bounded ==> scan_wf(ident@, tys, j as int),
                        !bounded ==> bound_scan(ident@, tys, 0, start) == bound_scan(
                            ident@,
                            tys,
                            j as int,
                            tys_v(preds@),
                        ),
                        bounded ==> bound_scan(ident@, tys, 0, start) == Some((true, tys_v(preds@))),
                        k < generics.len(),
                        generics@[k as int] == (GenericParam::Type { ident: *ident }),
                        bounds_spec(generics@, tys, 0, seq![], seq![]) == bounds_spec(
                            generics@,
                            tys,
                            k as int,
                            flags@,
                            start,
                        ),
                    decreases fields.len() - j,
                {
                    let ty = &fields[j].ty;
                    assert(ty_v(*ty) == tys[j as int]);
                    if is_phantom_type(ty, ident) {
                        j = j + 1;
                        continue;
                    }
                    let mut assoc = find_generics_associated(ident, ty);
                    if assoc.len() > 1 {
                        return Err(DebugError::UnparsableBound);
                    } else if assoc.len() == 1 {
                        let ghost before = tys_v(preds@);
                        let p = assoc.pop().unwrap();
                        assert(tys_v(preds@.push(p)) =~= before.push(ty_v(p)));
                        preds.push(p);
                    } else if mentions_ident(&ty.tokens, ident) {
                        proof {
                            lemma_ty_path(*ty);
                        }
                        bounded = true;
                    } else {
                        proof {
                            lemma_ty_path(*ty);
                        }
                    }
                    j = j + 1;
                }
                flags.push(bounded);
            },
            GenericParam::Other => {
                flags.push(false);
            },
        }
        k = k + 1;
    }
    Ok(BoundPlan { debug_bound: flags, where_preds: preds })
}


/// Whether the bound search for the type parameter `t` searches only types
/// whose paths have segments.
fn scan_well_formed(t: &String, fields: &Vec<Field>) -> (r: bool)
    ensures
        r == scan_wf(t@, input_tys(fields@), 0),
{
    let ghost tys = input_tys(fields@);
    let mut j: usize = 0;
    while j < fields.len()
        invariant
            j <= fields.len(),
            tys == input_tys(fields@),
            scan_wf(t@, tys, 0) == scan_wf(t@, tys, j as int),
        decreases fields.len() - j,
    {
        let ty = &fields[j].ty;
        assert(ty_v(*ty) == tys[j as int]);
        if is_phantom_type(ty, t) {
            j = j + 1;
            continue;
        }
        if !search_well_formed(t, ty) {
            return false;
        }
        let assoc = find_generics_associated(t, ty);
        if assoc.len() > 1 {
            return true;
        } else if assoc.len() == 0 {
            proof {
                lemma_ty_path(*ty);
            }
            if mentions_ident(&ty.tokens, t) {
                return true;
            }
        }
        j = j + 1;
    }
    true
}

/// Whether the bound search of the derive, for every type parameter, searches
/// only types whose paths have segments, as `derive_impl` needs.
pub fn debug_input_ok(input: &DeriveInput) -> (r: bool)
    ensures
        r == (input.data matches Data::NamedStruct { fields } ==> params_scan_wf(
            input.generics@,
            input_tys(fields@),
        )),
{
    let fields = match &input.data {
        Data::NamedStruct { fields } => fields,
        Data::Other => {
            return true;
        },
    };
    let mut k: usize = 0;
    while k < input.generics.len()
        invariant
            k <= input.generics.len(),
            input.data == (Data::NamedStruct { fields: *fields }),
            forall|m: int|
                0 <= m < k ==> (#[trigger] input.generics@[m] matches GenericParam::Type { ident } ==> scan_wf(
                    ident@,
                    input_tys(fields@),
                    0,
                )),
        decreases input.generics.len() - k,
    {
        match &input.generics[k] {
            GenericParam::Type { ident } => {
                if !scan_well_formed(ident, fields) {
                    return false;
                }
            },
            GenericParam::Other => {},
        }
        k = k + 1;
    }
    true
}

/// The derived `Debug` impl: the struct's name, its fields with their formats,
/// and the bounds on its generics.
pub struct DebugImpl {
    pub name: String,
    pub fields: Vec<DebugField>,
    pub bounds: BoundPlan,
}

/// The types of a struct's fields.
pub open spec fn input_tys(fields: Seq<Field>) -> Seq<TyV> {
    Seq::new(fields.len(), |i: int| ty_v(fields[i].ty))
}

/// Whether each field of the derived impl is the struct's field with the
/// format its attributes give.
pub open spec fn debug_fields_match(fields: Seq<Field>, dfs: Seq<DebugField>) -> bool {
    &&& dfs.len() == fields.len()
    &&& forall|i: int|
        0 <= i < fields.len() ==> {
            &&& (#[trigger] dfs[i]).ident@ == fields[i].ident@
            &&& ty_v(dfs[i].ty) == ty_v(fields[i].ty)
            &&& stream_v(dfs[i].formatter@) == field_format(fields[i].attrs@)
        }
}

/// The custom `Debug` derive: only a struct with named fields is accepted
/// (else an error at its name); each field is printed with its format, and the
/// generics get the bounds that `add_debug_trait_bound` finds.
pub fn derive_impl(input: DeriveInput) -> (r: Result<DebugImpl, DebugError>)
    requires
        input.data matches Data::NamedStruct { fields } ==> params_scan_wf(input.generics@, input_tys(fields@)),
    ensures
        match input.data {
            Data::Other => r == Err::<DebugImpl, DebugError>(DebugError::NotNamedStruct { span: input.span }),
            Data::NamedStruct { fields } => match r {
                Ok(imp) => {
                    &&& imp.name@ == input.ident@
                    &&& debug_fields_match(fields@, imp.fields@)
                    &&& bounds_spec(input.generics@, input_tys(fields@), 0, seq![], seq![]) == Some(
                        (imp.bounds.debug_bound@, tys_v(imp.bounds.where_preds@)),
                    )
                },
                Err(e) => e == DebugError::UnparsableBound && bounds_spec(
                    input.generics@,
                    input_tys(fields@),
                    0,
                    seq![],
                    seq![],
                ) is None,
            },
        },
{
    let DeriveInput { ident, span, generics, data } = input;
    let mut fields = match data {
        Data::NamedStruct { fields } => fields,
        Data::Other => {
            return Err(DebugError::NotNamedStruct { span });
        },
    };
    let ghost orig = fields@;
    let mut out: Vec<DebugField> = Vec::new();
    let mut i: usize = 0;
    let n = fields.len();
    while i < n
        invariant
            n == orig.len(),
            i <= n,
            fields@ == orig.skip(i as int),
            out@.len() == i,
            forall|k: int|
                0 <= k < i ==> {
                    &&& (#[trigger] out@[k]).ident@ == orig[k].ident@
                    &&& ty_v(out@[k].ty) == ty_v(orig[k].ty)
                    &&& stream_v(out@[k].formatter@) == field_format(orig[k].attrs@)
                },
        decreases n - i,
    {
        assert(fields@.len() > 0);
        let f = fields.remove(0);
        assert(fields@ =~= orig.skip(i + 1));
        out.push(DebugField::from_field(f));
        i = i + 1;
    }
    assert(field_tys(out@) =~= input_tys(orig));
    let bounds = add_debug_trait_bound(&generics, &out)?;
    Ok(DebugImpl { name: ident, fields: out, bounds })
}

impl DebugError {
    /// The message that the derive reports for the error.
    pub fn message(&self) -> (r: String)
        ensures
            r@ == match *self {
                DebugError::NotNamedStruct { .. } => "CustomDebug can only be derived for named structs"@,
                DebugError::UnparsableBound => "unexpected token"@,
            },
    {
        match self {
            DebugError::NotNamedStruct { .. } => String::from_str(
                "CustomDebug can only be derived for named structs",
            ),
            DebugError::UnparsableBound => String::from_str("unexpected token"),
        }
    }
}


/// Fields of type `PhantomData<T>` never ask for a bound on `T`.
pub proof fn lemma_phantom_fields_unbounded(t: Seq<char>, tys: Seq<TyV>, k: int, preds: Seq<TyV>)
    requires
        0 <= k,
        forall|i: int| k <= i < tys.len() ==> is_phantom_of(#[trigger] tys[i], t),
    ensures
        bound_scan(t, tys, k, preds) == Some((false, preds)),
    decreases tys.len() - k,
{
    if k < tys.len() {
        assert(is_phantom_of(tys[k], t));
        lemma_phantom_fields_unbounded(t, tys, k + 1, preds);
    }
}


/// A field that mentions the type parameter `t` itself anywhere among the top
/// tokens of its type (`t`, `Vec<t>`, `Box<t>`), and is neither
/// `PhantomData<t>` nor mentions an associated type of `t`, bounds `t` by
/// `Debug`, whatever the fields after it are.
pub proof fn lemma_top_mention_bounds(t: Seq<char>, tys: Seq<TyV>, k: int, preds: Seq<TyV>, i: int)
    requires
        0 <= k < tys.len(),
        !is_phantom_of(tys[k], t),
        assoc_spec(t, tys[k]).len() == 0,
        0 <= i < tys[k].tokens.len(),
        tys[k].tokens[i] matches TokV::Ident(x, _) && x == t,
    ensures
        bound_scan(t, tys, k, preds) == Some((true, preds)),
{
    assert(mentions_at_top(tys[k].tokens, t));
}

/// Fields that each mention exactly one associated type of `t` (or are
/// `PhantomData<t>`) only add where-clause bounds: they never bound `t` itself,
/// whether or not `t` appears among their tokens.
pub proof fn lemma_assoc_fields_do_not_bound(t: Seq<char>, tys: Seq<TyV>, k: int, preds: Seq<TyV>)
    requires
        0 <= k,
        forall|i: int|
            k <= i < tys.len() ==> is_phantom_of(#[trigger] tys[i], t) || assoc_spec(t, tys[i]).len() == 1,
    ensures
        bound_scan(t, tys, k, preds) matches Some((b, _)) && !b,
    decreases tys.len() - k,
{
    if k < tys.len() {
        assert(is_phantom_of(tys[k], t) || assoc_spec(t, tys[k]).len() == 1);
        if is_phantom_of(tys[k], t) {
            lemma_assoc_fields_do_not_bound(t, tys, k + 1, preds);
        } else {
            lemma_assoc_fields_do_not_bound(t, tys, k + 1, preds.push(assoc_spec(t, tys[k])[0]));
        }
    }
}

} // verus!
