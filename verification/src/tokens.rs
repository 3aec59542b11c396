use vstd::prelude::*;

verus! {

/// The span handle that stands for the macro's call site.
///
/// Tokens carry spans as indices into a table that the front end keeps; index 0
/// is always the call site, which is where freshly created tokens point.
pub const CALL_SITE: usize = 0;

/// The delimiter of a token group.
#[derive(Clone, Copy, Debug, PartialEq, Eq, Structural)]
pub enum Delim {
    Paren,
    Brace,
    Bracket,
    /// An invisible delimiter, as produced by macro expansion.
    Invisible,
}

/// A token tree.
pub enum Tok {
    Ident { text: String, span: usize },
    Punct { ch: char, joint: bool, span: usize },
    Literal { text: String, span: usize },
    Group { delim: Delim, stream: Vec<Tok>, span: usize },
}

/// The mathematical value of a token tree.
pub enum TokV {
    Ident(Seq<char>, usize),
    Punct(char, bool, usize),
    Literal(Seq<char>, usize),
    Group(Delim, Seq<TokV>, usize),
}

/// The value of one token tree.
pub open spec fn tok_v(t: Tok) -> TokV
    decreases t,
{
    match t {
        Tok::Ident { text, span } => TokV::Ident(text@, span),
        Tok::Punct { ch, joint, span } => TokV::Punct(ch, joint, span),
        Tok::Literal { text, span } => TokV::Literal(text@, span),
        Tok::Group { delim, stream, span } => TokV::Group(
            delim,
            Seq::new(
                stream@.len(),
                |i: int|
                    if 0 <= i < stream@.len() {
                        tok_v(stream@[i])
                    } else {
                        TokV::Punct(' ', false, CALL_SITE)
                    },
            ),
            span,
        ),
    }
}

/// The value of a token stream.
pub open spec fn stream_v(s: Seq<Tok>) -> Seq<TokV> {
    Seq::new(s.len(), |i: int| tok_v(s[i]))
}

impl View for Tok {
    type V = TokV;

    open spec fn view(&self) -> TokV {
        tok_v(*self)
    }
}

/// The stream inside a group, as the value of its token vector.
pub proof fn lemma_group_stream(delim: Delim, stream: Vec<Tok>, span: usize)
    ensures
        tok_v(Tok::Group { delim, stream, span }) == TokV::Group(delim, stream_v(stream@), span),
{
    let t = Tok::Group { delim, stream, span };
    let v = tok_v(t);
    match v {
        TokV::Group(d, inner, sp) => {
            assert(inner =~= stream_v(stream@));
        },
        _ => {},
    }
}

/// Pushing a token pushes its value.
pub proof fn lemma_stream_push(s: Seq<Tok>, t: Tok)
    ensures
        stream_v(s.push(t)) == stream_v(s).push(tok_v(t)),
{
    assert(stream_v(s.push(t)) =~= stream_v(s).push(tok_v(t)));
}

/// The text of a token string, cloned.
fn copy_text(s: &String) -> (r: String)
    ensures
        r@ == s@,
{
    s.clone()
}

impl Tok {
    /// A deep copy of the token tree.
    pub fn duplicate(&self) -> (r: Tok)
        ensures
            r@ == self@,
        decreases self,
    {
        match self {
            Tok::Ident { text, span } => Tok::Ident { text: copy_text(text), span: *span },
            Tok::Punct { ch, joint, span } => Tok::Punct { ch: *ch, joint: *joint, span: *span },
            Tok::Literal { text, span } => Tok::Literal { text: copy_text(text), span: *span },
            Tok::Group { delim, stream, span } => {
                let s = copy_stream(stream);
                proof {
                    lemma_group_stream(*delim, *stream, *span);
                    lemma_group_stream(*delim, s, *span);
                }
                Tok::Group { delim: *delim, stream: s, span: *span }
            },
        }
    }
}

/// A deep copy of a token stream.
pub fn copy_stream(s: &Vec<Tok>) -> (r: Vec<Tok>)
    ensures
        stream_v(r@) == stream_v(s@),
    decreases s,
{
    let mut r: Vec<Tok> = Vec::new();
    let mut i: usize = 0;
    while i < s.len()
        invariant
            i <= s.len(),
            stream_v(r@) == stream_v(s@).take(i as int),
        decreases s.len() - i,
    {
        let t = s[i].duplicate();
        proof {
            lemma_stream_push(r@, t);
            assert(stream_v(s@).take(i + 1) =~= stream_v(s@).take(i as int).push(tok_v(s@[i as int])));
        }
        r.push(t);
        i = i + 1;
    }
    assert(stream_v(s@).take(s.len() as int) =~= stream_v(s@));
    r
}



/// Whether two token trees are the same tokens, spans aside: identifiers and
/// literals by their text, punctuation by its character, groups by their
/// delimiter and contents.
pub open spec fn same_tok(a: TokV, b: TokV) -> bool
    decreases a,
{
    match a {
        TokV::Ident(x, _) => b matches TokV::Ident(y, _) && x == y,
        TokV::Punct(c, _, _) => b matches TokV::Punct(d, _, _) && c == d,
        TokV::Literal(x, _) => b matches TokV::Literal(y, _) && x == y,
        TokV::Group(d, s, _) => match b {
            TokV::Group(e, t, _) => d == e && s.len() == t.len() && forall|i: int|
                0 <= i < s.len() ==> same_tok(#[trigger] s[i], t[i]),
            _ => false,
        },
    }
}

/// Whether two token streams are the same tokens, spans aside.
pub open spec fn same_stream(s: Seq<TokV>, t: Seq<TokV>) -> bool {
    s.len() == t.len() && forall|i: int| 0 <= i < s.len() ==> same_tok(#[trigger] s[i], t[i])
}

/// Whether two token trees are the same tokens, spans aside.
pub fn same_token(a: &Tok, b: &Tok) -> (r: bool)
    ensures
        r == same_tok(a@, b@),
    decreases a,
{
    match (a, b) {
        (Tok::Ident { text: x, .. }, Tok::Ident { text: y, .. }) => *x == *y,
        (Tok::Punct { ch: c, .. }, Tok::Punct { ch: d, .. }) => *c == *d,
        (Tok::Literal { text: x, .. }, Tok::Literal { text: y, .. }) => *x == *y,
        (Tok::Group { delim: d, stream: s, span: sp }, Tok::Group { delim: e, stream: t, span: sq }) => {
            proof {
                lemma_group_stream(*d, *s, *sp);
                lemma_group_stream(*e, *t, *sq);
            }
            *d == *e && same_tokens(s, t)
        },
        (Tok::Group { delim: d, stream: s, span: sp }, _) => {
            proof {
                lemma_group_stream(*d, *s, *sp);
            }
            false
        },
        _ => false,
    }
}

/// Whether two token streams are the same tokens, spans aside.
pub fn same_tokens(s: &Vec<Tok>, t: &Vec<Tok>) -> (r: bool)
    ensures
        r == same_stream(stream_v(s@), stream_v(t@)),
    decreases s,
{
    if s.len() != t.len() {
        return false;
    }
    let mut i: usize = 0;
    while i < s.len()
        invariant
            i <= s.len(),
            s.len() == t.len(),
            forall|k: int| 0 <= k < i ==> same_tok(#[trigger] stream_v(s@)[k], stream_v(t@)[k]),
        decreases s.len() - i,
    {
        let same = same_token(&s[i], &t[i]);
        assert(stream_v(s@)[i as int] == s@[i as int]@ && stream_v(t@)[i as int] == t@[i as int]@);
        if !same {
            return false;
        }
        i = i + 1;
    }
    true
}

} // verus!
