use vstd::prelude::*;
use vstd::string::StringExecFns;

use crate::seq_macro::{RangeBound, SeqInput};
use crate::text::{int_lit_value, int_lit_value_of};
use crate::tokens::{copy_stream, lemma_group_stream, stream_v, Delim, Tok, TokV};

verus! {

/// The value of a `seq!` invocation read from its tokens.
pub struct SeqInputV {
    pub name: Seq<char>,
    pub start: Option<RangeBound>,
    pub end: Option<RangeBound>,
    pub inclusive: bool,
    pub body: Seq<TokV>,
}

/// The value of a `seq!` invocation.
pub open spec fn seq_input_v(s: SeqInput) -> SeqInputV {
    SeqInputV {
        name: s.name@,
        start: s.start,
        end: s.end,
        inclusive: s.inclusive,
        body: stream_v(s.body@),
    }
}

/// The span of a token.
pub open spec fn tok_span(t: TokV) -> usize {
    match t {
        TokV::Ident(_, sp) => sp,
        TokV::Punct(_, _, sp) => sp,
        TokV::Literal(_, sp) => sp,
        TokV::Group(_, _, sp) => sp,
    }
}

/// Whether a token is the identifier `w`.
pub open spec fn is_word(t: TokV, w: Seq<char>) -> bool {
    t matches TokV::Ident(x, _) && x == w
}

/// Whether a token is a group in braces.
pub open spec fn is_brace(t: TokV) -> bool {
    t matches TokV::Group(d, _, _) && d == Delim::Brace
}

/// Whether a token is a `.`, joined to the next token where `joint` asks it.
pub open spec fn is_dot(t: TokV, joint: bool) -> bool {
    t matches TokV::Punct(c, j, _) && c == '.' && (joint ==> j)
}

/// The position of the first brace group from `i` on, or the length.
pub open spec fn first_brace(s: Seq<TokV>, i: int) -> int
    decreases s.len() - i,
{
    if i < 0 || i >= s.len() {
        s.len() as int
    } else if is_brace(s[i]) {
        i
    } else {
        first_brace(s, i + 1)
    }
}

/// Whether `..` starts at position `i`: a `.` joined to a second `.`.
pub open spec fn dots_at(r: Seq<TokV>, i: int) -> bool {
    0 <= i && i + 1 < r.len() && is_dot(r[i], true) && is_dot(r[i + 1], false)
}

/// The position of the first `..` from `i` on, or the length.
pub open spec fn first_dots(r: Seq<TokV>, i: int) -> int
    decreases r.len() - i,
{
    if i < 0 || i + 1 >= r.len() {
        r.len() as int
    } else if dots_at(r, i) {
        i
    } else {
        first_dots(r, i + 1)
    }
}

/// Whether the `..` at position `i` is `..=`.
pub open spec fn inclusive_at(r: Seq<TokV>, i: int) -> bool {
    &&& 0 <= i
    &&& i + 2 < r.len()
    &&& is_dot(r[i + 1], true)
    &&& r[i + 2] matches TokV::Punct(c, _, _) && c == '='
}

/// A bound of the range, from its tokens: none where there are none; an
/// integer literal by its value (or as too large for `usize`); any other
/// expression by the span of its first token.
pub open spec fn bound_of(t: Seq<TokV>) -> Option<RangeBound> {
    if t.len() == 0 {
        None
    } else if t.len() == 1 && t[0] is Literal && int_lit_value(t[0]->Literal_0) is Some {
        let v = int_lit_value(t[0]->Literal_0)->Some_0;
        if v <= usize::MAX {
            Some(RangeBound::IntLit { value: v as usize })
        } else {
            Some(RangeBound::TooLarge)
        }
    } else {
        Some(RangeBound::Other { span: tok_span(t[0]) })
    }
}

/// How the tokens of a `seq!` invocation read: `name in range { body }`, where
/// the body is the first brace group after `in` and the last token, and the
/// range is split at its first `..` or `..=` into the two bounds.
pub open spec fn seq_invocation_spec(s: Seq<TokV>) -> Result<SeqInputV, Seq<char>> {
    if s.len() == 0 {
        Err("unexpected end of input, expected identifier"@)
    } else if !(s[0] is Ident) {
        Err("expected identifier"@)
    } else if !(s.len() >= 2 && is_word(s[1], "in"@)) {
        Err("expected `in`"@)
    } else {
        let k = first_brace(s, 2);
        if k >= s.len() {
            Err("expected curly braces"@)
        } else if k + 1 < s.len() {
            Err("unexpected token"@)
        } else {
            let r = s.subrange(2, k);
            let i = first_dots(r, 0);
            if i >= r.len() {
                Err("expected range expression"@)
            } else {
                let after = if inclusive_at(r, i) {
                    i + 3
                } else {
                    i + 2
                };
                Ok(
                    SeqInputV {
                        name: s[0]->Ident_0,
                        start: bound_of(r.subrange(0, i)),
                        end: bound_of(r.subrange(after, r.len() as int)),
                        inclusive: inclusive_at(r, i),
                        body: s[k]->Group_1,
                    },
                )
            }
        }
    }
}

/// The span of a token.
fn span_of(t: &Tok) -> (r: usize)
    ensures
        r == tok_span(t@),
{
    match t {
        Tok::Ident { span, .. } => *span,
        Tok::Punct { span, .. } => *span,
        Tok::Literal { span, .. } => *span,
        Tok::Group { span, .. } => *span,
    }
}

/// Whether the token at `i` is a `.`, joined to the next where `joint` asks it.
fn dot_at(s: &Vec<Tok>, i: usize, joint: bool) -> (r: bool)
    requires
        i < s.len(),
    ensures
        r == is_dot(stream_v(s@)[i as int], joint),
{
    match &s[i] {
        Tok::Punct { ch, joint: j, .. } => *ch == '.' && (!joint || *j),
        _ => false,
    }
}

/// Whether the token at `i` is a brace group.
fn brace_at(s: &Vec<Tok>, i: usize) -> (r: bool)
    requires
        i < s.len(),
    ensures
        r == is_brace(stream_v(s@)[i as int]),
{
    match &s[i] {
        Tok::Group { delim, .. } => *delim == Delim::Brace,
        _ => false,
    }
}

/// The bound whose tokens are those from `a` to `b`.
fn bound_in(s: &Vec<Tok>, a: usize, b: usize) -> (r: Option<RangeBound>)
    requires
        a <= b <= s.len(),
    ensures
        r == bound_of(stream_v(s@).subrange(a as int, b as int)),
{
    let ghost t = stream_v(s@).subrange(a as int, b as int);
    if a == b {
        return None;
    }
    assert(t[0] == stream_v(s@)[a as int]);
    if b - a == 1 {
        match &s[a] {
            Tok::Literal { text, .. } => match int_lit_value_of(text.as_str()) {
                Some(Some(v)) => {
                    return Some(RangeBound::IntLit { value: v });
                },
                Some(None) => {
                    return Some(RangeBound::TooLarge);
                },
                None => {},
            },
            _ => {},
        }
    }
    Some(RangeBound::Other { span: span_of(&s[a]) })
}

/// Reads the tokens of a `seq!` invocation: `name in range { body }`.
pub fn parse_seq_invocation(input: &Vec<Tok>) -> (r: Result<SeqInput, String>)
    ensures
        match r {
            Ok(s) => seq_invocation_spec(stream_v(input@)) == Ok::<SeqInputV, Seq<char>>(seq_input_v(s)),
            Err(m) => seq_invocation_spec(stream_v(input@)) == Err::<SeqInputV, Seq<char>>(m@),
        },
{
    proof {
        reveal_strlit("unexpected end of input, expected identifier");
        reveal_strlit("expected identifier");
        reveal_strlit("expected `in`");
        reveal_strlit("in");
        reveal_strlit("expected curly braces");
        reveal_strlit("unexpected token");
        reveal_strlit("expected range expression");
    }
    let ghost s = stream_v(input@);
    let n = input.len();
    if n == 0 {
        return Err(String::from_str("unexpected end of input, expected identifier"));
    }
    assert(s[0] == input@[0]@);
    let name = match &input[0] {
        Tok::Ident { text, .. } => text.clone(),
        _ => {
            return Err(String::from_str("expected identifier"));
        },
    };
    let word_in = String::from_str("in");
    let is_in = if n >= 2 {
        assert(s[1] == input@[1]@);
        match &input[1] {
            Tok::Ident { text, .. } => *text == word_in,
            _ => false,
        }
    } else {
        false
    };
    if !is_in {
        return Err(String::from_str("expected `in`"));
    }
    let mut k: usize = 2;
    while k < n && !brace_at(input, k)
        invariant
            2 <= k <= n,
            n == input.len(),
            s == stream_v(input@),
            first_brace(s, 2) == first_brace(s, k as int),
        decreases n - k,
    {
        k = k + 1;
    }
    if k >= n {
        return Err(String::from_str("expected curly braces"));
    }
    if k + 1 < n {
        return Err(String::from_str("unexpected token"));
    }
    let ghost r = s.subrange(2, k as int);
    let mut i: usize = 2;
    while i + 1 < k && !(dot_at(input, i, true) && dot_at(input, i + 1, false))
        invariant
            2 <= i <= k,
            k < n,
            n == input.len(),
            s == stream_v(input@),
            r == s.subrange(2, k as int),
            first_dots(r, 0) == first_dots(r, i - 2),
        decreases k - i,
    {
        assert(r[i - 2] == s[i as int] && r[i - 1] == s[i + 1]);
        i = i + 1;
    }
    if i + 1 >= k {
        return Err(String::from_str("expected range expression"));
    }
    assert(r[i - 2] == s[i as int] && r[i - 1] == s[i + 1]);
    let inclusive = i + 2 < k && dot_at(input, i + 1, true) && match &input[i + 2] {
        Tok::Punct { ch, .. } => *ch == '=',
        _ => false,
    };
    assert(i + 2 < k ==> r[i as int] == s[i + 2]);
    let after = if inclusive {
        i + 3
    } else {
        i + 2
    };
    let start = bound_in(input, 2, i);
    let end = bound_in(input, after, k);
    assert(r.subrange(0, i - 2 as int) =~= s.subrange(2, i as int));
    assert(r.subrange(after - 2 as int, r.len() as int) =~= s.subrange(after as int, k as int));
    let body = match &input[k] {
        Tok::Group { delim, stream, span } => {
            proof {
                lemma_group_stream(*delim, *stream, *span);
            }
            copy_stream(stream)
        },
        _ => Vec::new(),
    };
    Ok(SeqInput { name, start, end, inclusive, body })
}

} // verus!
