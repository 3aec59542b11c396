use vstd::prelude::*;

use crate::tokens::{copy_stream, same_stream, stream_v, Tok, TokV};

verus! {

/// The arguments of a path segment.
pub enum SegArgs {
    /// No arguments: `Vec`.
    Plain,
    /// Angle-bracketed arguments: `Vec<T>`.
    Angle { args: Vec<GenArg> },
    /// Parenthesized arguments: `Fn(A) -> B`.
    Paren,
}

/// A segment of a type path.
pub struct Seg {
    pub ident: String,
    pub args: SegArgs,
}

/// A generic argument.
pub enum GenArg {
    /// A type argument.
    Type { ty: Ty },
    /// A lifetime, constant, binding or constraint.
    Other,
}

/// A type, as the macros read it: its tokens and, for a path type, the
/// segments of the path.
pub struct Ty {
    pub tokens: Vec<Tok>,
    pub path: Option<Vec<Seg>>,
}

/// The value of the arguments of a path segment.
pub enum SegArgsV {
    Plain,
    Angle(Seq<GenArgV>),
    Paren,
}

/// The value of a path segment.
pub struct SegV {
    pub ident: Seq<char>,
    pub args: SegArgsV,
}

/// The value of a generic argument.
pub enum GenArgV {
    Type(TyV),
    Other,
}

/// The value of a type.
pub struct TyV {
    pub tokens: Seq<TokV>,
    pub path: Option<Seq<SegV>>,
}

/// The value of a type.
pub open spec fn ty_v(t: Ty) -> TyV
    decreases t,
{
    TyV {
        tokens: stream_v(t.tokens@),
        path: match t.path {
            None => None,
            Some(segs) => Some(
                Seq::new(
                    segs@.len(),
                    |i: int|
                        if 0 <= i < segs@.len() {
                            seg_v(segs@[i])
                        } else {
                            SegV { ident: seq![], args: SegArgsV::Plain }
                        },
                ),
            ),
        },
    }
}

/// The value of a path segment.
pub open spec fn seg_v(s: Seg) -> SegV
    decreases s,
{
    SegV {
        ident: s.ident@,
        args: match s.args {
            SegArgs::Plain => SegArgsV::Plain,
            SegArgs::Paren => SegArgsV::Paren,
            SegArgs::Angle { args } => SegArgsV::Angle(
                Seq::new(
                    args@.len(),
                    |i: int|
                        if 0 <= i < args@.len() {
                            gen_v(args@[i])
                        } else {
                            GenArgV::Other
                        },
                ),
            ),
        },
    }
}

/// The value of a generic argument.
pub open spec fn gen_v(g: GenArg) -> GenArgV
    decreases g,
{
    match g {
        GenArg::Type { ty } => GenArgV::Type(ty_v(ty)),
        GenArg::Other => GenArgV::Other,
    }
}


/// The values of a sequence of segments.
pub open spec fn segs_v(s: Seq<Seg>) -> Seq<SegV> {
    Seq::new(s.len(), |i: int| seg_v(s[i]))
}

/// The values of a sequence of generic arguments.
pub open spec fn gens_v(s: Seq<GenArg>) -> Seq<GenArgV> {
    Seq::new(s.len(), |i: int| gen_v(s[i]))
}

/// The values of a sequence of types.
pub open spec fn tys_v(s: Seq<Ty>) -> Seq<TyV> {
    Seq::new(s.len(), |i: int| ty_v(s[i]))
}

/// The path of a type, by the values of its segments.
pub proof fn lemma_ty_path(t: Ty)
    ensures
        ty_v(t).tokens == stream_v(t.tokens@),
        ty_v(t).path == match t.path {
            None => None::<Seq<SegV>>,
            Some(segs) => Some(segs_v(segs@)),
        },
{
    match t.path {
        Some(segs) => {
            assert(ty_v(t).path->0 =~= segs_v(segs@));
        },
        None => {},
    }
}

/// The arguments of a segment, by their values.
pub proof fn lemma_seg_args(s: Seg)
    ensures
        seg_v(s).ident == s.ident@,
        seg_v(s).args == match s.args {
            SegArgs::Plain => SegArgsV::Plain,
            SegArgs::Paren => SegArgsV::Paren,
            SegArgs::Angle { args } => SegArgsV::Angle(gens_v(args@)),
        },
{
    match s.args {
        SegArgs::Angle { args } => {
            assert(seg_v(s).args->Angle_0 =~= gens_v(args@));
        },
        _ => {},
    }
}

/// Whether the search of `t` for the associated types of the parameter `p`
/// meets only paths with segments, as parsed paths are: the search looks at
/// the type itself and, unless it is an associated type of `p`, at the type
/// arguments of its path's last segment.
pub open spec fn search_wf(p: Seq<char>, t: TyV) -> bool
    decreases t,
{
    match t.path {
        None => true,
        Some(segs) => if segs.len() > 1 && segs[0].ident == p {
            true
        } else if segs.len() == 0 {
            false
        } else {
            match segs[segs.len() - 1].args {
                SegArgsV::Angle(a) => search_args_wf(p, a),
                _ => true,
            }
        },
    }
}

/// Whether the search of each type argument meets only paths with segments.
pub open spec fn search_args_wf(p: Seq<char>, a: Seq<GenArgV>) -> bool
    decreases a,
{
    a.len() == 0 || (arg_search_wf(p, a[0]) && search_args_wf(p, a.drop_first()))
}

/// Whether the search of a generic argument meets only paths with segments.
pub open spec fn arg_search_wf(p: Seq<char>, g: GenArgV) -> bool
    decreases g,
{
    match g {
        GenArgV::Type(x) => search_wf(p, x),
        GenArgV::Other => true,
    }
}

/// Whether two types are the same syntax: the same tokens, spans aside.
pub open spec fn same_type(a: TyV, b: TyV) -> bool {
    same_stream(a.tokens, b.tokens)
}

/// The sequence without the elements that are the same type as the element
/// kept before them.
pub open spec fn dedup(s: Seq<TyV>) -> Seq<TyV>
    decreases s.len(),
{
    if s.len() == 0 {
        s
    } else {
        let d = dedup(s.drop_last());
        if d.len() > 0 && same_type(d.last(), s.last()) {
            d
        } else {
            d.push(s.last())
        }
    }
}

/// The type arguments of a segment's angle-bracketed arguments, in order.
pub open spec fn type_args(a: Seq<GenArgV>) -> Seq<TyV>
    decreases a,
{
    if a.len() == 0 {
        seq![]
    } else {
        (match a[0] {
            GenArgV::Type(x) => seq![x],
            GenArgV::Other => seq![],
        }) + type_args(a.drop_first())
    }
}

/// The type arguments of a segment, if its arguments are angle-bracketed.
pub open spec fn strip_spec(g: SegV) -> Option<Seq<TyV>> {
    match g.args {
        SegArgsV::Angle(a) => Some(type_args(a)),
        _ => None,
    }
}

/// The associated types of the type parameter `p` that a type mentions: a path
/// of two or more segments that starts with `p` is one itself; otherwise the
/// type arguments of the path's last segment are searched, in order, and
/// repeats next to each other are dropped.
pub open spec fn assoc_spec(p: Seq<char>, t: TyV) -> Seq<TyV>
    decreases t,
{
    match t.path {
        None => seq![],
        Some(segs) => if segs.len() > 1 && segs[0].ident == p {
            seq![t]
        } else if segs.len() == 0 {
            seq![]
        } else {
            match segs[segs.len() - 1].args {
                SegArgsV::Angle(a) => dedup(assoc_args(p, a)),
                _ => seq![],
            }
        },
    }
}

/// The associated types of `p` found in each type argument, concatenated.
pub open spec fn assoc_args(p: Seq<char>, a: Seq<GenArgV>) -> Seq<TyV>
    decreases a,
{
    if a.len() == 0 {
        seq![]
    } else {
        (match a[0] {
            GenArgV::Type(x) => assoc_spec(p, x),
            GenArgV::Other => seq![],
        }) + assoc_args(p, a.drop_first())
    }
}

impl Ty {
    /// A deep copy of the type.
    #[verifier::loop_isolation(false)]
    pub fn duplicate(&self) -> (r: Ty)
        ensures
            ty_v(r) == ty_v(*self),
        decreases self,
    {
        let tokens = copy_stream(&self.tokens);
        let path = match &self.path {
            None => None,
            Some(segs) => {
                let mut out: Vec<Seg> = Vec::new();
                let mut i: usize = 0;
                while i < segs.len()
                    invariant
                        i <= segs.len(),
                        out@.len() == i,
                        segs_v(out@) == segs_v(segs@).take(i as int),
                    decreases segs.len() - i,
                {
                    let g = segs[i].duplicate();
                    assert(segs_v(out@.push(g)) =~= segs_v(segs@).take(i + 1));
                    out.push(g);
                    i = i + 1;
                }
                assert(segs_v(segs@).take(segs.len() as int) =~= segs_v(segs@));
                Some(out)
            },
        };
        let r = Ty { tokens, path };
        proof {
            lemma_ty_path(r);
            lemma_ty_path(*self);
        }
        r
    }
}

impl Seg {
    /// A deep copy of the segment.
    #[verifier::loop_isolation(false)]
    pub fn duplicate(&self) -> (r: Seg)
        ensures
            seg_v(r) == seg_v(*self),
        decreases self,
    {
        let args = match &self.args {
            SegArgs::Plain => SegArgs::Plain,
            SegArgs::Paren => SegArgs::Paren,
            SegArgs::Angle { args } => {
                let mut out: Vec<GenArg> = Vec::new();
                let mut i: usize = 0;
                while i < args.len()
                    invariant
                        i <= args.len(),
                        out@.len() == i,
                        gens_v(out@) == gens_v(args@).take(i as int),
                    decreases args.len() - i,
                {
                    let g = match &args[i] {
                        GenArg::Type { ty } => GenArg::Type { ty: ty.duplicate() },
                        GenArg::Other => GenArg::Other,
                    };
                    assert(gens_v(out@.push(g)) =~= gens_v(args@).take(i + 1));
                    out.push(g);
                    i = i + 1;
                }
                assert(gens_v(args@).take(args.len() as int) =~= gens_v(args@));
                SegArgs::Angle { args: out }
            },
        };
        let r = Seg { ident: self.ident.clone(), args };
        proof {
            lemma_seg_args(r);
            lemma_seg_args(*self);
        }
        r
    }
}

/// The type arguments of a segment's angle-bracketed arguments, copied; `None`
/// for other arguments.
pub fn strip_segment(path: &Seg) -> (r: Option<Vec<Ty>>)
    ensures
        match r {
            Some(v) => strip_spec(seg_v(*path)) == Some(tys_v(v@)),
            None => strip_spec(seg_v(*path)) is None,
        },
{
    proof {
        lemma_seg_args(*path);
    }
    match &path.args {
        SegArgs::Angle { args } => {
            let mut striped: Vec<Ty> = Vec::new();
            let mut i: usize = 0;
            let ghost a = gens_v(args@);
            assert(a.skip(0) =~= a);
            assert(tys_v(striped@) =~= Seq::<TyV>::empty());
            while i < args.len()
                invariant
                    i <= args.len(),
                    a == gens_v(args@),
                    type_args(a) == tys_v(striped@) + type_args(a.skip(i as int)),
                decreases args.len() - i,
            {
                assert(a.skip(i as int).drop_first() =~= a.skip(i + 1));
                assert(a.skip(i as int)[0] == gen_v(args@[i as int]));
                match &args[i] {
                    GenArg::Type { ty } => {
                        let c = ty.duplicate();
                        assert(tys_v(striped@.push(c)) =~= tys_v(striped@) + seq![ty_v(*ty)]);
                        striped.push(c);
                    },
                    GenArg::Other => {},
                }
                i = i + 1;
            }
            assert(a.skip(args.len() as int) =~= Seq::<GenArgV>::empty());
            Some(striped)
        },
        _ => None,
    }
}


/// The associated types of `p` found in each of the types, concatenated.
pub open spec fn assoc_list(p: Seq<char>, ts: Seq<TyV>) -> Seq<TyV>
    decreases ts.len(),
{
    if ts.len() == 0 {
        seq![]
    } else {
        assoc_spec(p, ts[0]) + assoc_list(p, ts.drop_first())
    }
}

/// Searching the arguments is searching their type arguments.
pub proof fn lemma_assoc_args_list(p: Seq<char>, a: Seq<GenArgV>)
    ensures
        assoc_args(p, a) == assoc_list(p, type_args(a)),
    decreases a.len(),
{
    if a.len() > 0 {
        lemma_assoc_args_list(p, a.drop_first());
        match a[0] {
            GenArgV::Type(x) => {
                let t = type_args(a);
                assert(t == seq![x] + type_args(a.drop_first()));
                assert(t[0] == x);
                assert(t.drop_first() =~= type_args(a.drop_first()));
            },
            GenArgV::Other => {
                assert(type_args(a) =~= type_args(a.drop_first()));
            },
        }
    }
}


/// The body of an attribute.
pub enum Meta {
    /// `#[name]`.
    Path,
    /// `#[name(...)]`, with the tokens inside the parentheses.
    List { tokens: Vec<Tok> },
    /// `#[name = value]`, with the tokens of the value.
    NameValue { value: Vec<Tok> },
}

/// An attribute.
pub struct Attr {
    /// The identifier the attribute's path consists of, where it is a single
    /// identifier.
    pub path_ident: Option<String>,
    pub meta: Meta,
}

/// A named field.
pub struct Field {
    pub ident: String,
    pub ty: Ty,
    pub attrs: Vec<Attr>,
}

/// A generic parameter.
pub enum GenericParam {
    /// A type parameter, with its name.
    Type { ident: String },
    /// A lifetime or constant parameter.
    Other,
}

/// The shape of the item that a derive is applied to.
pub enum Data {
    /// A struct with named fields.
    NamedStruct { fields: Vec<Field> },
    /// A tuple or unit struct, an enum or a union.
    Other,
}

/// The item that a derive is applied to.
pub struct DeriveInput {
    pub ident: String,
    /// The span of the item's name.
    pub span: usize,
    pub generics: Vec<GenericParam>,
    pub data: Data,
}

/// The search of the arguments meets only paths with segments exactly where
/// that of each argument does.
pub proof fn lemma_search_args_all(p: Seq<char>, a: Seq<GenArgV>)
    ensures
        search_args_wf(p, a) <==> forall|k: int| 0 <= k < a.len() ==> arg_search_wf(p, #[trigger] a[k]),
    decreases a.len(),
{
    if a.len() > 0 {
        lemma_search_args_all(p, a.drop_first());
        if forall|k: int| 0 <= k < a.len() ==> arg_search_wf(p, #[trigger] a[k]) {
            assert forall|k: int| 0 <= k < a.drop_first().len() implies arg_search_wf(
                p,
                #[trigger] a.drop_first()[k],
            ) by {
                assert(arg_search_wf(p, a[k + 1]));
            }
            assert(arg_search_wf(p, a[0]));
        }
        if search_args_wf(p, a) {
            assert forall|k: int| 0 <= k < a.len() implies arg_search_wf(p, #[trigger] a[k]) by {
                if k > 0 {
                    assert(arg_search_wf(p, a.drop_first()[k - 1]));
                }
            }
        }
    }
}

/// Whether the search of a type for the associated types of `p` meets only
/// paths with segments.
pub fn search_well_formed(p: &String, t: &Ty) -> (r: bool)
    ensures
        r == search_wf(p@, ty_v(*t)),
    decreases t,
{
    proof {
        lemma_ty_path(*t);
    }
    match &t.path {
        None => true,
        Some(segs) => {
            if segs.len() > 1 {
                assert(segs_v(segs@)[0] == seg_v(segs@[0]));
                if segs[0].ident == *p {
                    return true;
                }
            }
            if segs.len() == 0 {
                return false;
            }
            assert(segs_v(segs@)[segs.len() - 1] == seg_v(segs@[segs.len() - 1]));
            seg_search_well_formed(p, &segs[segs.len() - 1])
        },
    }
}

/// Whether the search of the type arguments of a segment meets only paths
/// with segments.
fn seg_search_well_formed(p: &String, s: &Seg) -> (r: bool)
    ensures
        r == match seg_v(*s).args {
            SegArgsV::Angle(a) => search_args_wf(p@, a),
            _ => true,
        },
    decreases s,
{
    proof {
        lemma_seg_args(*s);
    }
    match &s.args {
        SegArgs::Angle { args } => {
            proof {
                lemma_search_args_all(p@, gens_v(args@));
            }
            let mut k: usize = 0;
            while k < args.len()
                invariant
                    k <= args.len(),
                    s.args == (SegArgs::Angle { args: *args }),
                    forall|j: int| 0 <= j < k ==> arg_search_wf(p@, #[trigger] gens_v(args@)[j]),
                decreases args.len() - k,
            {
                let ok = match &args[k] {
                    GenArg::Type { ty } => search_well_formed(p, ty),
                    GenArg::Other => true,
                };
                assert(gens_v(args@)[k as int] == gen_v(args@[k as int]));
                if !ok {
                    proof {
                        lemma_search_args_all(p@, gens_v(args@));
                        lemma_seg_args(*s);
                    }
                    return false;
                }
                k = k + 1;
            }
            proof {
                lemma_search_args_all(p@, gens_v(args@));
                lemma_seg_args(*s);
            }
            true
        },
        _ => true,
    }
}

} // verus!
