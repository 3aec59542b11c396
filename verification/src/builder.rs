use vstd::prelude::*;
use vstd::string::StringExecFns;

use crate::text::{
    concat, is_maybe_raw_ident_text, maybe_raw_ident_text_ok, not_ident_message,
    not_ident_message_of, str_lit_value, str_lit_value_of, strip_raw, strip_raw_text,
};
use crate::tokens::{stream_v, Delim, Tok, TokV};
use crate::types::{
    lemma_seg_args, lemma_ty_path, ty_v, Attr, Data, DeriveInput, Field, GenArg, Meta, SegArgs,
    SegArgsV, Ty, TyV,
};

verus! {

/// An attribute argument of the form `name = value`.
pub struct NameValue {
    /// The identifier the name consists of, where it is one identifier.
    pub path_ident: Option<String>,
    /// The value, where it is a string literal.
    pub str_value: Option<String>,
}

/// The value of an optional string.
pub open spec fn opt_text(s: Option<String>) -> Option<Seq<char>> {
    match s {
        Some(x) => Some(x@),
        None => None,
    }
}

/// The value of a parsed argument, or of the error's message.
pub open spec fn name_value_v(nv: Result<NameValue, String>) -> Result<(Option<Seq<char>>, Option<Seq<char>>), Seq<char>> {
    match nv {
        Err(e) => Err(e@),
        Ok(x) => Ok((opt_text(x.path_ident), opt_text(x.str_value))),
    }
}

/// The value of a setter name read from an attribute, or of the error's
/// message.
pub open spec fn each_result_v(r: Result<Option<String>, String>) -> Result<Option<Seq<char>>, Seq<char>> {
    match r {
        Err(e) => Err(e@),
        Ok(v) => Ok(opt_text(v)),
    }
}

/// Whether a token is the punctuation character `c`.
pub open spec fn punct_is(t: TokV, c: char) -> bool {
    t matches TokV::Punct(d, _, _) && d == c
}

/// Whether the tokens at `i` are the path separator `::`: a `:` joined to the
/// next, then a `:`.
pub open spec fn is_colon2(s: Seq<TokV>, i: int) -> bool {
    &&& 0 <= i
    &&& i + 1 < s.len()
    &&& s[i] matches TokV::Punct(c, joint, _) && c == ':' && joint
    &&& punct_is(s[i + 1], ':')
}

/// Where a path that goes on at `i` ends: each `::` followed by an
/// identifier continues it.
pub open spec fn path_end(s: Seq<TokV>, i: int) -> int
    decreases s.len() - i,
{
    if 0 <= i && is_colon2(s, i) && i + 2 < s.len() && s[i + 2] is Ident {
        path_end(s, i + 3)
    } else {
        i
    }
}

/// Whether a token is a group in square brackets.
pub open spec fn is_bracket_group(t: TokV) -> bool {
    t matches TokV::Group(d, _, _) && d == Delim::Bracket
}

/// Whether a token stream has a `,` or `;` outside its groups.
pub open spec fn has_separator(v: Seq<TokV>) -> bool {
    exists|i: int| 0 <= i < v.len() && (punct_is(#[trigger] v[i], ',') || punct_is(v[i], ';'))
}

/// How an attribute's arguments read as `name = value`: a path (an optional
/// leading `::`, then identifiers joined by `::`), `=`, and a value. The
/// result holds the identifier the path consists of, where it is a single
/// one, and the value where it is one string literal. Refused, with the
/// parser's message: a missing path, a missing `=`, a missing value, an
/// attribute as the value, and a `,` or `;` in the value; any other value is
/// read as an expression.
pub open spec fn meta_name_value(s: Seq<TokV>) -> Result<(Option<Seq<char>>, Option<Seq<char>>), Seq<char>> {
    let b: int = if is_colon2(s, 0) {
        2
    } else {
        0
    };
    if b >= s.len() {
        Err("unexpected end of input, expected identifier"@)
    } else if !(s[b] is Ident) {
        Err("expected identifier"@)
    } else {
        let e = path_end(s, b + 1);
        if !(e < s.len() && punct_is(s[e], '=')) {
            Err("expected `=`"@)
        } else {
            let v = s.skip(e + 1);
            let name = if b == 0 && e == 1 {
                Some(s[0]->Ident_0)
            } else {
                None
            };
            if v.len() == 1 && v[0] is Literal {
                Ok((name, str_lit_value(v[0]->Literal_0)))
            } else if v.len() == 0 {
                Err("unexpected end of input, expected an expression"@)
            } else if v.len() >= 2 && punct_is(v[0], '#') && is_bracket_group(v[1]) {
                Err("unexpected attribute inside of attribute"@)
            } else if has_separator(v) {
                Err("unexpected token"@)
            } else {
                Ok((name, None))
            }
        }
    }
}

/// Whether the token at `i` is the punctuation character `c`.
fn punct_at(s: &Vec<Tok>, i: usize, c: char) -> (r: bool)
    requires
        i < s.len(),
    ensures
        r == punct_is(stream_v(s@)[i as int], c),
{
    match &s[i] {
        Tok::Punct { ch, .. } => *ch == c,
        _ => false,
    }
}

/// Whether the tokens at `i` are `::`.
fn colon2_at(s: &Vec<Tok>, i: usize) -> (r: bool)
    ensures
        r == is_colon2(stream_v(s@), i as int),
{
    if i >= s.len() || s.len() - i < 2 {
        return false;
    }
    let first = match &s[i] {
        Tok::Punct { ch, joint, .. } => *ch == ':' && *joint,
        _ => false,
    };
    first && punct_at(s, i + 1, ':')
}

/// Whether the token at `i` is an identifier.
fn ident_at(s: &Vec<Tok>, i: usize) -> (r: bool)
    requires
        i < s.len(),
    ensures
        r == stream_v(s@)[i as int] is Ident,
{
    match &s[i] {
        Tok::Ident { .. } => true,
        _ => false,
    }
}

/// Reads an attribute's arguments as `name = value`.
#[verifier::loop_isolation(false)]
pub fn read_meta_name_value(s: &Vec<Tok>) -> (r: Result<NameValue, String>)
    ensures
        name_value_v(r) == meta_name_value(stream_v(s@)),
{
    proof {
        reveal_strlit("unexpected end of input, expected identifier");
        reveal_strlit("expected identifier");
        reveal_strlit("expected `=`");
        reveal_strlit("unexpected end of input, expected an expression");
        reveal_strlit("unexpected attribute inside of attribute");
        reveal_strlit("unexpected token");
    }
    let ghost sv = stream_v(s@);
    let b: usize = if colon2_at(s, 0) {
        2
    } else {
        0
    };
    if b >= s.len() {
        return Err(String::from_str("unexpected end of input, expected identifier"));
    }
    if !ident_at(s, b) {
        return Err(String::from_str("expected identifier"));
    }
    let mut e: usize = b + 1;
    while e < s.len() && colon2_at(s, e) && s.len() - e > 2 && ident_at(s, e + 2)
        invariant
            b + 1 <= e <= s.len(),
            sv == stream_v(s@),
            path_end(sv, (b + 1) as int) == path_end(sv, e as int),
        decreases s.len() - e,
    {
        e = e + 3;
    }
    if !(e < s.len() && punct_at(s, e, '=')) {
        return Err(String::from_str("expected `=`"));
    }
    let ghost v = sv.skip(e + 1);
    let name = if b == 0 && e == 1 {
        match &s[0] {
            Tok::Ident { text, .. } => Some(text.clone()),
            _ => None,
        }
    } else {
        None
    };
    let n = s.len() - (e + 1);
    if n == 1 {
        match &s[e + 1] {
            Tok::Literal { text, .. } => {
                assert(v[0] == sv[e + 1]);
                return Ok(NameValue { path_ident: name, str_value: str_lit_value_of(text.as_str()) });
            },
            _ => {},
        }
    }
    if n == 0 {
        return Err(String::from_str("unexpected end of input, expected an expression"));
    }
    if n >= 2 && punct_at(s, e + 1, '#') {
        let bracket = match &s[e + 2] {
            Tok::Group { delim, .. } => *delim == Delim::Bracket,
            _ => false,
        };
        assert(v[0] == sv[e + 1] && v[1] == sv[e + 2]);
        if bracket {
            return Err(String::from_str("unexpected attribute inside of attribute"));
        }
    }
    assert(v.len() == n);
    assert(n >= 1 ==> v[0] == sv[e + 1]);
    assert(n >= 2 ==> v[1] == sv[e + 2]);
    let mut k: usize = e + 1;
    while k < s.len()
        invariant
            e + 1 <= k <= s.len(),
            sv == stream_v(s@),
            v == sv.skip(e + 1),
            v.len() > 0,
            !(v.len() == 1 && v[0] is Literal),
            !(v.len() >= 2 && punct_is(v[0], '#') && is_bracket_group(v[1])),
            forall|m: int| 0 <= m < k - (e + 1) ==> !punct_is(#[trigger] v[m], ',') && !punct_is(v[m], ';'),
        decreases s.len() - k,
    {
        if punct_at(s, k, ',') || punct_at(s, k, ';') {
            assert(v[k - (e + 1)] == sv[k as int]);
            return Err(String::from_str("unexpected token"));
        }
        assert(v[k - (e + 1)] == sv[k as int]);
        k = k + 1;
    }
    Ok(NameValue { path_ident: name, str_value: None })
}

/// The word of the attribute that configures a field.
pub open spec fn builder_word() -> Seq<char> {
    seq!['b', 'u', 'i', 'l', 'd', 'e', 'r']
}

/// The name of the argument that asks for a one-at-a-time setter.
pub open spec fn each_word() -> Seq<char> {
    seq!['e', 'a', 'c', 'h']
}

/// The error for `#[builder]`, which has no arguments.
pub open spec fn no_arguments_message() -> Seq<char> {
    "expected attribute arguments in parentheses: #[builder(...)]"@
}

/// The error for `#[builder = ...]`, whose arguments are not in parentheses.
pub open spec fn no_parentheses_message() -> Seq<char> {
    "expected parentheses: #[builder(...)]"@
}

/// The setter name that a parsed `#[builder(...)]` argument gives: `each = "name"`
/// gives `name`; any other argument of the form `name = value` gives none;
/// anything else is refused with the parser's message.
pub open spec fn each_spec(nv: Result<(Option<Seq<char>>, Option<Seq<char>>), Seq<char>>) -> Result<Option<Seq<char>>, Seq<char>> {
    match nv {
        Err(e) => Err(e),
        Ok((p, v)) => if p == Some(each_word()) && v is Some {
            Ok(v)
        } else {
            Ok(None)
        },
    }
}

/// The setter name that a parsed `#[builder(...)]` argument gives.
pub fn each_from_name_value(nv: Result<NameValue, String>) -> (r: Result<Option<String>, String>)
    ensures
        each_result_v(r) == each_spec(name_value_v(nv)),
{
    proof {
        reveal_strlit("each");
    }
    let each = String::from_str("each");
    assert(each@ == each_word());
    match nv {
        Err(e) => Err(e),
        Ok(x) => {
            let is_each = match &x.path_ident {
                Some(p) => *p == each,
                None => false,
            };
            if is_each && x.str_value.is_some() {
                Ok(x.str_value)
            } else {
                Ok(None)
            }
        },
    }
}

/// Whether an attribute is `#[builder ...]`.
pub open spec fn is_builder_attr(a: Attr) -> bool {
    a.path_ident matches Some(s) && s@ == builder_word()
}

/// The setter name that a field's first attribute gives: the arguments of a
/// `#[builder(...)]` attribute are read as `each = "name"`, and must be a
/// `name = value` pair; `#[builder]` and `#[builder = ...]` are refused; any
/// other attribute, or none, gives no name.
pub open spec fn parse_each_spec(attr: Option<Attr>) -> Result<Option<Seq<char>>, Seq<char>> {
    match attr {
        Some(a) => if is_builder_attr(a) {
            match a.meta {
                Meta::List { tokens } => each_spec(meta_name_value(stream_v(tokens@))),
                Meta::Path => Err(no_arguments_message()),
                Meta::NameValue { .. } => Err(no_parentheses_message()),
            }
        } else {
            Ok(None)
        },
        None => Ok(None),
    }
}

/// The attribute an optional reference points to.
pub open spec fn opt_attr(attr: Option<&Attr>) -> Option<Attr> {
    match attr {
        Some(a) => Some(*a),
        None => None,
    }
}

/// Whether a setter name read from an attribute can name a method: it is
/// exactly one identifier.
pub open spec fn each_names_method(each: Result<Option<Seq<char>>, Seq<char>>) -> bool {
    each matches Ok(Some(v)) ==> is_maybe_raw_ident_text(v)
}

/// The setter name that a field's first attribute gives, or the error's
/// message, whatever the name is.
fn read_each_attr(attr: Option<&Attr>) -> (r: Result<Option<String>, String>)
    ensures
        each_result_v(r) == parse_each_spec(opt_attr(attr)),
{
    proof {
        reveal_strlit("builder");
        reveal_strlit("expected attribute arguments in parentheses: #[builder(...)]");
        reveal_strlit("expected parentheses: #[builder(...)]");
    }
    let builder = String::from_str("builder");
    assert(builder@ == builder_word());
    match attr {
        Some(a) => {
            let is_builder = match &a.path_ident {
                Some(p) => *p == builder,
                None => false,
            };
            if !is_builder {
                return Ok(None);
            }
            match &a.meta {
                Meta::List { tokens } => each_from_name_value(read_meta_name_value(tokens)),
                Meta::Path => Err(
                    String::from_str("expected attribute arguments in parentheses: #[builder(...)]"),
                ),
                Meta::NameValue { .. } => Err(String::from_str("expected parentheses: #[builder(...)]")),
            }
        },
        None => Ok(None),
    }
}

/// The setter name that a field's first attribute gives, or the error's
/// message. A setter name must be exactly one identifier, as it names a
/// method.
pub fn parse_each_attr(attr: Option<&Attr>) -> (r: Result<Option<String>, String>)
    requires
        each_names_method(parse_each_spec(opt_attr(attr))),
    ensures
        each_result_v(r) == parse_each_spec(opt_attr(attr)),
{
    read_each_attr(attr)
}

/// The kind of a field's type.
#[derive(Clone, Copy, Debug, PartialEq, Eq, Structural)]
pub enum AngleBracketed {
    /// `Option<T>`.
    Option,
    /// `Vec<T>`, for a field with a one-at-a-time setter.
    Vec,
    /// Any other type.
    Other,
}

/// The kind of a type and the type inside it: a path type whose first segment
/// is `Option` with a first type argument is an option of that argument; one
/// whose first segment is `Vec` with a first type argument is a vector of it,
/// where the field has a one-at-a-time setter; any other type is neither.
pub open spec fn parse_ty_spec(ty: TyV, has_each: bool) -> (AngleBracketed, Option<TyV>) {
    match ty.path {
        Some(segs) => if segs.len() > 0 {
            match segs[0].args {
                SegArgsV::Angle(a) => if a.len() > 0 && a[0] is Type && segs[0].ident == seq![
                    'O',
                    'p',
                    't',
                    'i',
                    'o',
                    'n',
                ] {
                    (AngleBracketed::Option, Some(a[0]->Type_0))
                } else if a.len() > 0 && a[0] is Type && segs[0].ident == seq!['V', 'e', 'c']
                    && has_each {
                    (AngleBracketed::Vec, Some(a[0]->Type_0))
                } else {
                    (AngleBracketed::Other, None)
                },
                _ => (AngleBracketed::Other, None),
            }
        } else {
            (AngleBracketed::Other, None)
        },
        None => (AngleBracketed::Other, None),
    }
}

/// The value of an optional type.
pub open spec fn opt_ty_v(t: Option<Ty>) -> Option<TyV> {
    match t {
        Some(x) => Some(ty_v(x)),
        None => None,
    }
}

/// The type, the type inside it, and its kind.
pub fn parse_ty(ty: Ty, has_each: bool) -> (r: (Ty, Option<Ty>, AngleBracketed))
    ensures
        ty_v(r.0) == ty_v(ty),
        (r.2, opt_ty_v(r.1)) == parse_ty_spec(ty_v(ty), has_each),
{
    proof {
        reveal_strlit("Option");
        reveal_strlit("Vec");
        lemma_ty_path(ty);
    }
    let option = String::from_str("Option");
    let vec = String::from_str("Vec");
    assert(option@ == seq!['O', 'p', 't', 'i', 'o', 'n']);
    assert(vec@ == seq!['V', 'e', 'c']);
    let mut inner: Option<Ty> = None;
    let mut kind = AngleBracketed::Other;
    match &ty.path {
        Some(segs) => {
            if segs.len() > 0 {
                let first = &segs[0];
                proof {
                    lemma_seg_args(*first);
                }
                match &first.args {
                    SegArgs::Angle { args } => {
                        if args.len() > 0 {
                            match &args[0] {
                                GenArg::Type { ty: t } => {
                                    if first.ident == option {
                                        inner = Some(t.duplicate());
                                        kind = AngleBracketed::Option;
                                    } else if first.ident == vec && has_each {
                                        inner = Some(t.duplicate());
                                        kind = AngleBracketed::Vec;
                                    }
                                },
                                GenArg::Other => {},
                            }
                        }
                    },
                    _ => {},
                }
            }
        },
        None => {},
    }
    (ty, inner, kind)
}

/// A field of the struct, as the builder needs it.
pub struct OptionalField {
    pub name: String,
    pub ty: Ty,
    /// The one-at-a-time setter's name, from `#[builder(each = "...")]`.
    pub attr: Option<String>,
    /// The type inside an `Option` or a `Vec` field.
    pub inner_ty: Option<Ty>,
    pub angle_type: AngleBracketed,
}

/// Why the builder cannot be derived.
pub enum BuilderError {
    /// The item is not a struct with named fields.
    NotStruct,
    /// The `#[builder(...)]` attribute of this field cannot be read; the
    /// parser's message.
    BadAttribute { field: usize, message: String },
    /// The setter name this field's attribute gives is not an identifier.
    EachNotIdent { field: usize, value: String },
    /// This field has a one-at-a-time setter but is neither an `Option` nor a
    /// `Vec`, so there is no element type to set.
    NoElementType { field: usize },
}

/// Whether `op` is the builder's reading of the field `f`, given the setter
/// name of its first attribute.
pub open spec fn reads_field(f: Field, each: Option<Seq<char>>, op: OptionalField) -> bool {
    &&& op.name@ == f.ident@
    &&& ty_v(op.ty) == ty_v(f.ty)
    &&& opt_text(op.attr) == each
    &&& (op.angle_type, opt_ty_v(op.inner_ty)) == parse_ty_spec(ty_v(f.ty), each is Some)
}

/// The first attribute of a field, if any.
pub open spec fn first_attr(f: Field) -> Option<Attr> {
    if f.attrs@.len() > 0 {
        Some(f.attrs@[0])
    } else {
        None
    }
}

/// Whether the builder can read a field's first attribute: it gives a
/// setter name, or none, and a setter name is one identifier.
pub open spec fn attr_ok(f: Field) -> bool {
    &&& parse_each_spec(first_attr(f)) is Ok
    &&& each_names_method(parse_each_spec(first_attr(f)))
}

impl OptionalField {
    /// The builder's reading of a field: the setter name of its first
    /// attribute, and the kind of its type.
    pub fn from_field(field: Field) -> (r: OptionalField)
        requires
            attr_ok(field),
        ensures
            reads_field(field, parse_each_spec(first_attr(field))->Ok_0, r),
    {
        let attr = if field.attrs.len() > 0 {
            parse_each_attr(Some(&field.attrs[0]))
        } else {
            parse_each_attr(None)
        };
        let attr = match attr {
            Ok(a) => a,
            Err(_) => {
                proof {
                    assert(false);
                }
                None
            },
        };
        let has_each = attr.is_some();
        let Field { ident, ty, attrs } = field;
        let (ty, inner_ty, angle_type) = parse_ty(ty, has_each);
        OptionalField { name: ident, ty, attr, inner_ty, angle_type }
    }
}

/// The form of a setter.
#[derive(Clone, Copy, Debug, PartialEq, Eq, Structural)]
pub enum SetterKind {
    /// Pushes one element onto a `Vec` field.
    Each,
    /// Sets an `Option` field to `Some` of the argument.
    OptionInner,
    /// Sets the field to the argument.
    Whole,
}

/// A setter method of the builder.
pub struct BuilderMethod {
    /// The method's name, which is also its parameter's name.
    pub method: String,
    /// The field it sets.
    pub field: String,
    pub param_ty: Ty,
    pub kind: SetterKind,
}

/// The setter of a field, from its name, setter name, kind, inner type and
/// type: a field with a one-at-a-time setter gets that setter, taking the
/// element type; an `Option` field gets a setter named after it taking the
/// type inside; any other field gets a setter named after it taking its type.
/// `None` where the needed inner type is missing.
pub open spec fn setter_spec(
    name: Seq<char>,
    each: Option<Seq<char>>,
    kind: AngleBracketed,
    inner: Option<TyV>,
    ty: TyV,
) -> Option<(Seq<char>, SetterKind, TyV)> {
    match each {
        Some(a) => match inner {
            Some(t) => Some((a, SetterKind::Each, t)),
            None => None,
        },
        None => if kind == AngleBracketed::Option {
            match inner {
                Some(t) => Some((name, SetterKind::OptionInner, t)),
                None => None,
            }
        } else {
            Some((name, SetterKind::Whole, ty))
        },
    }
}

/// The setter of a field the builder has read.
pub open spec fn method_spec(op: OptionalField) -> Option<(Seq<char>, SetterKind, TyV)> {
    setter_spec(op.name@, opt_text(op.attr), op.angle_type, opt_ty_v(op.inner_ty), ty_v(op.ty))
}

/// Whether `m` is the setter `spec` describes, for the field named `field`.
pub open spec fn is_setter(m: BuilderMethod, field: Seq<char>, spec: Option<(Seq<char>, SetterKind, TyV)>) -> bool {
    &&& m.field@ == field
    &&& spec == Some((m.method@, m.kind, ty_v(m.param_ty)))
}

/// The setter methods of the builder, one per field in order. Each field
/// must have the inner type its setter takes.
pub fn generate_builder_methods(fiedls: &Vec<OptionalField>) -> (r: Vec<BuilderMethod>)
    requires
        forall|i: int| 0 <= i < fiedls@.len() ==> #[trigger] method_spec(fiedls@[i]) is Some,
    ensures
        r@.len() == fiedls@.len(),
        forall|i: int|
            0 <= i < fiedls@.len() ==> is_setter(#[trigger] r@[i], fiedls@[i].name@, method_spec(fiedls@[i])),
{
    let mut ms: Vec<BuilderMethod> = Vec::new();
    let mut i: usize = 0;
    while i < fiedls.len()
        invariant
            i <= fiedls.len(),
            ms@.len() == i,
            forall|k: int| 0 <= k < fiedls@.len() ==> #[trigger] method_spec(fiedls@[k]) is Some,
            forall|k: int| 0 <= k < i ==> is_setter(#[trigger] ms@[k], fiedls@[k].name@, method_spec(fiedls@[k])),
        decreases fiedls.len() - i,
    {
        let op = &fiedls[i];
        assert(method_spec(fiedls@[i as int]) is Some);
        let m = match &op.attr {
            Some(attr) => {
                let t = match &op.inner_ty {
                    Some(t) => t,
                    None => {
                        proof {
                            assert(false);
                        }
                        &op.ty
                    },
                };
                BuilderMethod {
                    method: attr.clone(),
                    field: op.name.clone(),
                    param_ty: t.duplicate(),
                    kind: SetterKind::Each,
                }
            },
            None => if op.angle_type == AngleBracketed::Option {
                let t = match &op.inner_ty {
                    Some(t) => t,
                    None => {
                        proof {
                            assert(false);
                        }
                        &op.ty
                    },
                };
                BuilderMethod {
                    method: op.name.clone(),
                    field: op.name.clone(),
                    param_ty: t.duplicate(),
                    kind: SetterKind::OptionInner,
                }
            } else {
                BuilderMethod {
                    method: op.name.clone(),
                    field: op.name.clone(),
                    param_ty: op.ty.duplicate(),
                    kind: SetterKind::Whole,
                }
            },
        };
        ms.push(m);
        i = i + 1;
    }
    ms
}

impl OptionalField {
    /// Whether `build` may leave the field unset: an `Option` or a `Vec` field
    /// then gets its default value; any other field must have been set.
    pub fn may_be_omitted(&self) -> (r: bool)
        ensures
            r == (self.angle_type == AngleBracketed::Vec || self.angle_type == AngleBracketed::Option),
    {
        self.angle_type == AngleBracketed::Vec || self.angle_type == AngleBracketed::Option
    }
}

/// The builder for a struct: its name, the struct's fields as read, and the
/// setters.
pub struct BuilderPlan {
    pub name: String,
    pub builder_name: String,
    pub fields: Vec<OptionalField>,
    pub methods: Vec<BuilderMethod>,
}

/// The suffix of the builder's name.
pub open spec fn builder_suffix() -> Seq<char> {
    seq!['B', 'u', 'i', 'l', 'd', 'e', 'r']
}

/// The setter of a struct field, as the builder reads it.
pub open spec fn field_setter(f: Field) -> Option<(Seq<char>, SetterKind, TyV)> {
    let each = parse_each_spec(first_attr(f))->Ok_0;
    let (kind, inner) = parse_ty_spec(ty_v(f.ty), each is Some);
    setter_spec(f.ident@, each, kind, inner, ty_v(f.ty))
}

/// The builder derive: only a struct with named fields is accepted; each
/// field's first attribute must be readable and give an identifier or no
/// setter name, and each field must have the inner type its setter takes.
pub open spec fn derive_accepts(input: DeriveInput) -> bool {
    match input.data {
        Data::NamedStruct { fields } => forall|j: int|
            0 <= j < fields@.len() ==> #[trigger] attr_ok(fields@[j]) && field_setter(fields@[j]) is Some,
        Data::Other => false,
    }
}

/// Whether `plan` is the builder for `input`: it is named after the struct
/// (without a raw marker) followed by `Builder`, reads each field as its first
/// attribute and its type say, and has one setter per field.
pub open spec fn is_builder_plan(input: DeriveInput, plan: BuilderPlan) -> bool {
    match input.data {
        Data::NamedStruct { fields } => {
            &&& plan.name@ == input.ident@
            &&& plan.builder_name@ == strip_raw(input.ident@) + builder_suffix()
            &&& plan.fields@.len() == fields@.len()
            &&& plan.methods@.len() == fields@.len()
            &&& forall|j: int|
                0 <= j < fields@.len() ==> {
                    &&& reads_field(
                        #[trigger] fields@[j],
                        parse_each_spec(first_attr(fields@[j]))->Ok_0,
                        plan.fields@[j],
                    )
                    &&& is_setter(plan.methods@[j], fields@[j].ident@, field_setter(fields@[j]))
                }
        },
        Data::Other => false,
    }
}

/// Whether `e` is why the builder cannot be derived for `input`: the item is
/// not a struct with named fields; or the first field whose first attribute
/// the builder cannot read has an unreadable attribute, with the parser's
/// message, or a setter name that is not an identifier; or, where every
/// attribute is read, the first field without the inner type its setter takes.
pub open spec fn is_builder_error(input: DeriveInput, e: BuilderError) -> bool {
    match input.data {
        Data::Other => e is NotStruct,
        Data::NamedStruct { fields } => match e {
            BuilderError::NotStruct => false,
            BuilderError::BadAttribute { field, message } => {
                &&& field < fields@.len()
                &&& parse_each_spec(first_attr(fields@[field as int])) == Err::<Option<Seq<char>>, Seq<char>>(message@)
                &&& forall|j: int| 0 <= j < field ==> #[trigger] attr_ok(fields@[j])
            },
            BuilderError::EachNotIdent { field, value } => {
                &&& field < fields@.len()
                &&& parse_each_spec(first_attr(fields@[field as int])) == Ok::<Option<Seq<char>>, Seq<char>>(Some(value@))
                &&& !is_maybe_raw_ident_text(value@)
                &&& forall|j: int| 0 <= j < field ==> #[trigger] attr_ok(fields@[j])
            },
            BuilderError::NoElementType { field } => {
                &&& forall|j: int| 0 <= j < fields@.len() ==> #[trigger] attr_ok(fields@[j])
                &&& field < fields@.len()
                &&& field_setter(fields@[field as int]) is None
                &&& forall|j: int| 0 <= j < field ==> #[trigger] field_setter(fields@[j]) is Some
            },
        },
    }
}

/// Why the builder cannot be derived for `input`, if it cannot.
pub fn builder_input_error(input: &DeriveInput) -> (r: Option<BuilderError>)
    ensures
        r is None <==> derive_accepts(*input),
        r matches Some(e) ==> is_builder_error(*input, e),
{
    let fields = match &input.data {
        Data::NamedStruct { fields } => fields,
        Data::Other => {
            return Some(BuilderError::NotStruct);
        },
    };
    let n = fields.len();
    let mut i: usize = 0;
    while i < n
        invariant
            n == fields@.len(),
            i <= n,
            input.data == (Data::NamedStruct { fields: *fields }),
            forall|k: int| 0 <= k < i ==> #[trigger] attr_ok(fields@[k]),
        decreases n - i,
    {
        let f = &fields[i];
        let read = if f.attrs.len() > 0 {
            read_each_attr(Some(&f.attrs[0]))
        } else {
            read_each_attr(None)
        };
        assert(opt_attr(if f.attrs.len() > 0 { Some(&f.attrs[0]) } else { None }) == first_attr(
            fields@[i as int],
        ));
        match read {
            Err(message) => {
                assert(!attr_ok(fields@[i as int]));
                return Some(BuilderError::BadAttribute { field: i, message });
            },
            Ok(Some(value)) => {
                if !maybe_raw_ident_text_ok(value.as_str()) {
                    assert(!attr_ok(fields@[i as int]));
                    return Some(BuilderError::EachNotIdent { field: i, value });
                }
            },
            Ok(None) => {},
        }
        i = i + 1;
    }
    let mut i: usize = 0;
    while i < n
        invariant
            n == fields@.len(),
            i <= n,
            input.data == (Data::NamedStruct { fields: *fields }),
            forall|k: int| 0 <= k < n ==> #[trigger] attr_ok(fields@[k]),
            forall|k: int| 0 <= k < i ==> #[trigger] field_setter(fields@[k]) is Some,
        decreases n - i,
    {
        assert(attr_ok(fields@[i as int]));
        if !field_has_setter(&fields[i]) {
            return Some(BuilderError::NoElementType { field: i });
        }
        i = i + 1;
    }
    None
}

/// Whether a field has the inner type its setter takes.
fn field_has_setter(f: &Field) -> (r: bool)
    requires
        attr_ok(*f),
    ensures
        r == field_setter(*f) is Some,
{
    let read = if f.attrs.len() > 0 {
        read_each_attr(Some(&f.attrs[0]))
    } else {
        read_each_attr(None)
    };
    assert(opt_attr(if f.attrs.len() > 0 { Some(&f.attrs[0]) } else { None }) == first_attr(*f));
    let has_each = match &read {
        Ok(Some(_)) => true,
        _ => false,
    };
    let (_, inner, kind) = parse_ty(f.ty.duplicate(), has_each);
    if has_each {
        inner.is_some()
    } else {
        kind != AngleBracketed::Option || inner.is_some()
    }
}

/// The builder derive, on an input it accepts.
pub fn derive(input: DeriveInput) -> (r: BuilderPlan)
    requires
        derive_accepts(input),
    ensures
        is_builder_plan(input, r),
{
    let DeriveInput { ident, span, generics, data } = input;
    let mut fields = match data {
        Data::NamedStruct { fields } => fields,
        Data::Other => {
            proof {
                assert(false);
            }
            Vec::new()
        },
    };
    let ghost orig = fields@;
    let mut ops: Vec<OptionalField> = Vec::new();
    let mut i: usize = 0;
    let n = fields.len();
    while i < n
        invariant
            n == orig.len(),
            i <= n,
            fields@ == orig.skip(i as int),
            input.data == (Data::NamedStruct { fields: input.data->fields }),
            input.data->fields@ == orig,
            derive_accepts(input),
            ops@.len() == i,
            forall|k: int|
                0 <= k < i ==> reads_field(
                    #[trigger] orig[k],
                    parse_each_spec(first_attr(orig[k]))->Ok_0,
                    ops@[k],
                ),
        decreases n - i,
    {
        assert(fields@.len() > 0);
        let f = fields.remove(0);
        assert(fields@ =~= orig.skip(i + 1));
        assert(f == orig[i as int]);
        assert(attr_ok(orig[i as int]));
        let op = OptionalField::from_field(f);
        ops.push(op);
        i = i + 1;
    }
    assert forall|k: int| 0 <= k < n implies #[trigger] method_spec(ops@[k]) == field_setter(orig[k]) by {
        assert(reads_field(orig[k], parse_each_spec(first_attr(orig[k]))->Ok_0, ops@[k]));
        assert(attr_ok(orig[k]));
    }
    assert forall|k: int| 0 <= k < ops@.len() implies #[trigger] method_spec(ops@[k]) is Some by {
        assert(method_spec(ops@[k]) == field_setter(orig[k]));
        assert(attr_ok(orig[k]) && field_setter(orig[k]) is Some);
    }
    let methods = generate_builder_methods(&ops);
    proof {
        reveal_strlit("Builder");
    }
    let builder_name = concat(strip_raw_text(ident.as_str()).as_str(), "Builder");
    assert("Builder"@ == builder_suffix());
    BuilderPlan { name: ident, builder_name, fields: ops, methods }
}

/// The builder derive: the builder where the input is accepted, else why not.
pub fn derive_or_error(input: DeriveInput) -> (r: Result<BuilderPlan, BuilderError>)
    ensures
        r is Ok <==> derive_accepts(input),
        match r {
            Ok(plan) => is_builder_plan(input, plan),
            Err(e) => is_builder_error(input, e),
        },
{
    match builder_input_error(&input) {
        Some(e) => Err(e),
        None => Ok(derive(input)),
    }
}

impl BuilderError {
    /// The message that the derive reports for the error.
    pub fn message(&self) -> (r: String)
        ensures
            r@ == match *self {
                BuilderError::NotStruct => "Builder can only be derived for structs"@,
                BuilderError::BadAttribute { message, .. } => message@,
                BuilderError::EachNotIdent { value, .. } => not_ident_message(value@),
                BuilderError::NoElementType { .. } => "called `Option::unwrap()` on a `None` value"@,
            },
    {
        match self {
            BuilderError::NotStruct => String::from_str("Builder can only be derived for structs"),
            BuilderError::BadAttribute { message, .. } => message.clone(),
            BuilderError::EachNotIdent { value, .. } => not_ident_message_of(value.as_str()),
            BuilderError::NoElementType { .. } => String::from_str(
                "called `Option::unwrap()` on a `None` value",
            ),
        }
    }
}

} // verus!
