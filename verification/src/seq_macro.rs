use vstd::prelude::*;
use vstd::string::StringExecFns;

use crate::text::{
    concat, decimal, is_ident_text, ident_text_ok,
    suffixed_literal_text, unsuffixed_literal_text, usize_suffix,
};
use crate::tokens::{
    lemma_group_stream, lemma_stream_push, stream_v, tok_v, Delim, Tok, TokV,
    CALL_SITE,
};

verus! {

/// Why a `seq!` invocation is refused.
#[derive(Clone, Copy, Debug, PartialEq, Eq, Structural)]
pub enum SeqError {
    /// The range has no start.
    MissingStart,
    /// The range has no end.
    MissingEnd,
    /// A bound of the range is not an integer literal; the span is the bound's.
    UnsupportedBound { span: usize },
    /// An integer literal bound does not fit in `usize`.
    BoundTooLarge,
    /// The sum of the two bounds does not fit in `usize`.
    RangeTooLarge,
    /// `x ~ id` where `x` is not an identifier, or where the pasted text is
    /// not an identifier.
    InvalidPaste,
    /// An invisible group that does not hold exactly one token after
    /// rewriting.
    InvisibleGroup,
}

/// A bound of the range of a `seq!` invocation.
#[derive(Clone, Copy, Debug, PartialEq, Eq, Structural)]
pub enum RangeBound {
    /// An integer literal, by its value.
    IntLit { value: usize },
    /// An integer literal whose value does not fit in `usize`.
    TooLarge,
    /// Any other expression; the span is that of its first token.
    Other { span: usize },
}

/// A parsed `seq!` invocation: `name in start..end { body }`.
pub struct SeqInput {
    pub name: String,
    pub start: Option<RangeBound>,
    pub end: Option<RangeBound>,
    /// Whether the range is written `..=`.
    pub inclusive: bool,
    pub body: Vec<Tok>,
}

/// Whether a token is the punctuation character `c`.
pub open spec fn is_punct(t: TokV, c: char) -> bool {
    t matches TokV::Punct(d, _, _) && d == c
}

/// The token that a rewritten group becomes: an invisible group is replaced
/// by its only token, and refused where it does not hold exactly one.
pub open spec fn regroup(d: Delim, x: Seq<TokV>, sp: usize) -> Result<TokV, SeqError> {
    if d == Delim::Invisible {
        if x.len() == 1 {
            Ok(x[0])
        } else {
            Err(SeqError::InvisibleGroup)
        }
    } else {
        Ok(TokV::Group(d, x, sp))
    }
}

/// The placeholder replaced in one token tree: the identifier `p` becomes the
/// literal `lit`, and groups are rewritten inside.
pub open spec fn replace_tok(t: TokV, p: Seq<char>, lit: Seq<char>) -> Result<TokV, SeqError>
    decreases t,
{
    match t {
        TokV::Group(d, st, sp) => match replace_stream(st, seq![], p, lit) {
            Ok(x) => regroup(d, x, sp),
            Err(e) => Err(e),
        },
        TokV::Ident(s, sp) => if s == p {
            Ok(TokV::Literal(lit, CALL_SITE))
        } else {
            Ok(t)
        },
        _ => Ok(t),
    }
}

/// The placeholder replaced in a token stream, appended to `out`: besides the
/// replacement, `x ~ id` pastes `id` (or `lit` where `id` is the placeholder)
/// onto the identifier last written to `out`; the result must be an
/// identifier.
pub open spec fn replace_stream(
    s: Seq<TokV>,
    out: Seq<TokV>,
    p: Seq<char>,
    lit: Seq<char>,
) -> Result<Seq<TokV>, SeqError>
    decreases s,
{
    if s.len() == 0 {
        Ok(out)
    } else if s.len() >= 2 && is_punct(s[0], '~') && s[1] is Ident && out.len() > 0 {
        match out.last() {
            TokV::Ident(left, sp) => {
                let right = if s[1]->Ident_0 == p {
                    lit
                } else {
                    s[1]->Ident_0
                };
                if is_ident_text(left + right) {
                    replace_stream(
                        s.skip(2),
                        out.drop_last().push(TokV::Ident(left + right, sp)),
                        p,
                        lit,
                    )
                } else {
                    Err(SeqError::InvalidPaste)
                }
            },
            _ => Err(SeqError::InvalidPaste),
        }
    } else {
        match replace_tok(s[0], p, lit) {
            Err(e) => Err(e),
            Ok(t) => replace_stream(s.drop_first(), out.push(t), p, lit),
        }
    }
}

/// The value of a result that holds a token stream.
pub open spec fn result_v(r: Result<Vec<Tok>, SeqError>) -> Result<Seq<TokV>, SeqError> {
    match r {
        Ok(v) => Ok(stream_v(v@)),
        Err(e) => Err(e),
    }
}

/// The token that a rewritten group becomes.
fn regroup_tok(delim: Delim, stream: Vec<Tok>, span: usize) -> (r: Result<Tok, SeqError>)
    ensures
        match r {
            Ok(t) => regroup(delim, stream_v(stream@), span) == Ok::<TokV, SeqError>(tok_v(t)),
            Err(e) => regroup(delim, stream_v(stream@), span) == Err::<TokV, SeqError>(e),
        },
{
    if delim == Delim::Invisible {
        if stream.len() == 1 {
            let mut s = stream;
            let t = s.pop().unwrap();
            Ok(t)
        } else {
            Err(SeqError::InvisibleGroup)
        }
    } else {
        proof {
            lemma_group_stream(delim, stream, span);
        }
        Ok(Tok::Group { delim, stream, span })
    }
}

/// Replaces a placeholder identifier by a literal in a token stream.
pub struct Placeholder {
    pub placeholder: String,
    /// The text of the literal that replaces it.
    pub replacement: String,
}

proof fn lemma_unfold_step(s: Seq<TokV>, i: int)
    requires
        0 <= i < s.len(),
    ensures
        s.skip(i)[0] == s[i],
        s.skip(i).drop_first() == s.skip(i + 1),
        i + 1 < s.len() ==> s.skip(i)[1] == s[i + 1],
        i + 1 < s.len() ==> s.skip(i).skip(2) == s.skip(i + 2),
        s.skip(i).len() == s.len() - i,
{
    assert(s.skip(i).drop_first() =~= s.skip(i + 1));
    if i + 1 < s.len() {
        assert(s.skip(i).skip(2) =~= s.skip(i + 2));
    }
}

impl Placeholder {
    /// The placeholder replaced in one token tree.
    pub fn expanded(&self, t: &Tok) -> (r: Result<Tok, SeqError>)
        ensures
            match r {
                Ok(x) => replace_tok(tok_v(*t), self.placeholder@, self.replacement@) == Ok::<TokV, SeqError>(tok_v(x)),
                Err(e) => replace_tok(tok_v(*t), self.placeholder@, self.replacement@) == Err::<TokV, SeqError>(e),
            },
        decreases t,
    {
        match t {
            Tok::Group { delim, stream, span } => {
                proof {
                    lemma_group_stream(*delim, *stream, *span);
                }
                let inner = self.visit_token_stream(stream)?;
                regroup_tok(*delim, inner, *span)
            },
            Tok::Ident { text, span } => {
                if *text == self.placeholder {
                    Ok(Tok::Literal { text: self.replacement.clone(), span: CALL_SITE })
                } else {
                    Ok(t.duplicate())
                }
            },
            _ => Ok(t.duplicate()),
        }
    }

    /// The placeholder replaced in a token stream, with identifiers pasted
    /// across `~`.
    pub fn visit_token_stream(&self, node: &Vec<Tok>) -> (r: Result<Vec<Tok>, SeqError>)
        ensures
            result_v(r) == replace_stream(stream_v(node@), seq![], self.placeholder@, self.replacement@),
        decreases node,
    {
        let ghost p = self.placeholder@;
        let ghost lit = self.replacement@;
        let ghost s = stream_v(node@);
        let mut out: Vec<Tok> = Vec::new();
        let mut i: usize = 0;
        assert(s.skip(0) =~= s);
        assert(stream_v(out@) =~= Seq::<TokV>::empty());
        while i < node.len()
            invariant
                i <= node.len(),
                s == stream_v(node@),
                p == self.placeholder@,
                lit == self.replacement@,
                replace_stream(s, seq![], p, lit) == replace_stream(s.skip(i as int), stream_v(out@), p, lit),
            decreases node.len() - i,
        {
            proof {
                lemma_unfold_step(s, i as int);
            }
            let is_tilde = match &node[i] {
                Tok::Punct { ch, .. } => *ch == '~',
                _ => false,
            };
            let next_is_ident = i + 1 < node.len() && match &node[i + 1] {
                Tok::Ident { .. } => true,
                _ => false,
            };
            if is_tilde && next_is_ident && out.len() > 0 {
                let ghost before = stream_v(out@);
                let last = out.pop().unwrap();
                proof {
                    assert(stream_v(out@) =~= before.drop_last());
                    assert(before.last() == tok_v(last));
                }
                let left: (String, usize) = match last {
                    Tok::Ident { text, span } => (text, span),
                    _ => {
                        return Err(SeqError::InvalidPaste);
                    },
                };
                let right: String = match &node[i + 1] {
                    Tok::Ident { text, .. } => if *text == self.placeholder {
                        self.replacement.clone()
                    } else {
                        text.clone()
                    },
                    _ => String::new(),
                };
                let text = concat(left.0.as_str(), right.as_str());
                if !ident_text_ok(text.as_str()) {
                    return Err(SeqError::InvalidPaste);
                }
                let pasted = Tok::Ident { text, span: left.1 };
                proof {
                    lemma_stream_push(out@, pasted);
                }
                out.push(pasted);
                i = i + 2;
            } else {
                let t = self.expanded(&node[i])?;
                proof {
                    lemma_stream_push(out@, t);
                }
                out.push(t);
                i = i + 1;
            }
        }
        assert(s.skip(node.len() as int) =~= Seq::<TokV>::empty());
        Ok(out)
    }
}


/// The body repeated for every number from `k` up to `end` (exclusive), each
/// copy with the placeholder replaced by that number, appended to `out`.
pub open spec fn copies(body: Seq<TokV>, p: Seq<char>, k: int, end: int, out: Seq<TokV>) -> Result<
    Seq<TokV>,
    SeqError,
>
    decreases end - k,
{
    if k >= end {
        Ok(out)
    } else {
        match replace_stream(body, seq![], p, decimal(k as nat)) {
            Err(e) => Err(e),
            Ok(x) => copies(body, p, k + 1, end, out + x),
        }
    }
}

/// Expands a token stream over a range of numbers.
pub struct RangeExpand {
    pub start: usize,
    pub end: usize,
    pub inclusive: bool,
    pub name: String,
}

/// The expansion of `body` over the range: one copy for each number of
/// `start..end`, with the placeholder replaced by the number's unsuffixed
/// literal, and for an inclusive range one more for `end`, replaced by the
/// `usize`-suffixed literal. Refused where `start + end` overflows.
pub open spec fn range_expand(ex: RangeExpand, body: Seq<TokV>) -> Result<Seq<TokV>, SeqError> {
    if ex.start + ex.end > usize::MAX {
        Err(SeqError::RangeTooLarge)
    } else {
        match copies(body, ex.name@, ex.start as int, ex.end as int, seq![]) {
            Err(e) => Err(e),
            Ok(x) => if ex.inclusive {
                match replace_stream(body, seq![], ex.name@, decimal(ex.end as nat) + usize_suffix()) {
                    Err(e) => Err(e),
                    Ok(y) => Ok(x + y),
                }
            } else {
                Ok(x)
            },
        }
    }
}

impl RangeExpand {
    /// The body expanded over the range.
    pub fn visit_token_stream(&self, node: &Vec<Tok>) -> (r: Result<Vec<Tok>, SeqError>)
        ensures
            result_v(r) == range_expand(*self, stream_v(node@)),
    {
        if self.end > usize::MAX - self.start {
            return Err(SeqError::RangeTooLarge);
        }
        let ghost body = stream_v(node@);
        let ghost p = self.name@;
        let mut tokens: Vec<Tok> = Vec::new();
        let mut i: usize = self.start;
        assert(stream_v(tokens@) =~= Seq::<TokV>::empty());
        while i < self.end
            invariant
                self.start <= i || self.start >= self.end,
                i == self.start || i <= self.end,
                body == stream_v(node@),
                p == self.name@,
                self.start + self.end <= usize::MAX,
                copies(body, p, self.start as int, self.end as int, seq![]) == copies(
                    body,
                    p,
                    i as int,
                    self.end as int,
                    stream_v(tokens@),
                ),
            decreases self.end - i,
        {
            let placeholder = Placeholder {
                placeholder: self.name.clone(),
                replacement: unsuffixed_literal_text(i),
            };
            let copy = placeholder.visit_token_stream(node)?;
            let ghost before = stream_v(tokens@);
            let mut c = copy;
            tokens.append(&mut c);
            assert(stream_v(tokens@) =~= before + stream_v(copy@));
            i = i + 1;
        }
        if self.inclusive {
            let placeholder = Placeholder {
                placeholder: self.name.clone(),
                replacement: suffixed_literal_text(self.end),
            };
            let copy = placeholder.visit_token_stream(node)?;
            let ghost before = stream_v(tokens@);
            let mut c = copy;
            tokens.append(&mut c);
            assert(stream_v(tokens@) =~= before + stream_v(copy@));
        }
        Ok(tokens)
    }
}

/// Whether three tokens open a repeated section `#( ... )*`.
pub open spec fn is_section(s: Seq<TokV>) -> bool {
    &&& s.len() >= 3
    &&& is_punct(s[0], '#')
    &&& s[1] matches TokV::Group(d, _, _) && d == Delim::Paren
    &&& is_punct(s[2], '*')
}

/// Repeated sections expanded in one token tree, with whether the placeholder
/// occurs in it outside any section.
pub open spec fn section_tok(t: TokV, ex: RangeExpand) -> Result<(TokV, bool), SeqError>
    decreases t,
{
    match t {
        TokV::Group(d, st, sp) => match section_stream(st, seq![], false, ex) {
            Ok((x, f)) => match regroup(d, x, sp) {
                Ok(t) => Ok((t, f)),
                Err(e) => Err(e),
            },
            Err(e) => Err(e),
        },
        TokV::Ident(s, _) => Ok((t, s == ex.name@)),
        _ => Ok((t, false)),
    }
}

/// Every repeated section `#( ... )*` of a stream replaced by its contents
/// expanded over the range, appended to `out`; the flag tells, or-ed into
/// `flag`, whether the placeholder occurs outside any section.
pub open spec fn section_stream(s: Seq<TokV>, out: Seq<TokV>, flag: bool, ex: RangeExpand) -> Result<
    (Seq<TokV>, bool),
    SeqError,
>
    decreases s,
{
    if s.len() == 0 {
        Ok((out, flag))
    } else if is_section(s) {
        match range_expand(ex, s[1]->Group_1) {
            Err(e) => Err(e),
            Ok(x) => section_stream(s.skip(3), out + x, flag, ex),
        }
    } else {
        match section_tok(s[0], ex) {
            Err(e) => Err(e),
            Ok((t, f)) => section_stream(s.drop_first(), out.push(t), flag || f, ex),
        }
    }
}

/// Finds and expands the repeated sections of a `seq!` body.
pub struct Section {
    pub expander: RangeExpand,
    /// Set once the placeholder was met outside every repeated section.
    pub else_need_expand: bool,
}

impl Section {
    /// Sections expanded in one token tree.
    pub fn expand(&mut self, node: &Tok) -> (r: Result<Tok, SeqError>)
        ensures
            final(self).expander == old(self).expander,
            match (r, section_tok(tok_v(*node), old(self).expander)) {
                (Ok(x), Ok((t, f))) => tok_v(x) == t && final(self).else_need_expand == (old(
                    self,
                ).else_need_expand || f),
                (Err(e), Err(e2)) => e == e2,
                _ => false,
            },
        decreases node,
    {
        match node {
            Tok::Group { delim, stream, span } => {
                proof {
                    lemma_group_stream(*delim, *stream, *span);
                }
                let inner = self.visit_token_stream(stream)?;
                regroup_tok(*delim, inner, *span)
            },
            Tok::Ident { text, .. } => {
                if *text == self.expander.name {
                    self.else_need_expand = true;
                }
                Ok(node.duplicate())
            },
            _ => Ok(node.duplicate()),
        }
    }
}


impl Section {
    /// Every repeated section of a stream expanded.
    pub fn visit_token_stream(&mut self, node: &Vec<Tok>) -> (r: Result<Vec<Tok>, SeqError>)
        ensures
            final(self).expander == old(self).expander,
            match (result_v(r), section_stream(stream_v(node@), seq![], false, old(self).expander)) {
                (Ok(x), Ok((y, f))) => x == y && final(self).else_need_expand == (old(
                    self,
                ).else_need_expand || f),
                (Err(e), Err(e2)) => e == e2,
                _ => false,
            },
        decreases node,
    {
        let ghost s = stream_v(node@);
        let ghost ex = self.expander;
        let ghost old_flag = self.else_need_expand;
        let ghost mut flag = false;
        let mut out: Vec<Tok> = Vec::new();
        let mut i: usize = 0;
        assert(s.skip(0) =~= s);
        assert(stream_v(out@) =~= Seq::<TokV>::empty());
        while i < node.len()
            invariant
                i <= node.len(),
                s == stream_v(node@),
                self.expander == ex,
                ex == old(self).expander,
                old_flag == old(self).else_need_expand,
                self.else_need_expand == (old_flag || flag),
                section_stream(s, seq![], false, ex) == section_stream(
                    s.skip(i as int),
                    stream_v(out@),
                    flag,
                    ex,
                ),
            decreases node.len() - i,
        {
            proof {
                lemma_unfold_step(s, i as int);
            }
            let mut window = false;
            if node.len() - i > 2 {
                let open = match &node[i] {
                    Tok::Punct { ch, .. } => *ch == '#',
                    _ => false,
                };
                let paren = match &node[i + 1] {
                    Tok::Group { delim, .. } => *delim == Delim::Paren,
                    _ => false,
                };
                let close = match &node[i + 2] {
                    Tok::Punct { ch, .. } => *ch == '*',
                    _ => false,
                };
                window = open && paren && close;
            }
            proof {
                if node.len() - i > 2 {
                    assert(s.skip(i as int)[2] == s[i + 2]);
                }
            }
            assert(window == is_section(s.skip(i as int)));
            if window {
                match &node[i + 1] {
                    Tok::Group { delim, stream, span } => {
                        proof {
                            lemma_group_stream(*delim, *stream, *span);
                        }
                        let expanded = self.expander.visit_token_stream(stream)?;
                        let ghost before = stream_v(out@);
                        let mut c = expanded;
                        out.append(&mut c);
                        assert(stream_v(out@) =~= before + stream_v(expanded@));
                        assert(s.skip(i as int).skip(3) =~= s.skip(i + 3));
                    },
                    _ => {},
                }
                i = i + 3;
            } else {
                let t = self.expand(&node[i])?;
                proof {
                    let (tv, f) = section_tok(s[i as int], ex)->Ok_0;
                    flag = flag || f;
                    lemma_stream_push(out@, t);
                }
                out.push(t);
                i = i + 1;
            }
        }
        assert(s.skip(node.len() as int) =~= Seq::<TokV>::empty());
        Ok(out)
    }
}


/// The number that a range bound denotes.
pub open spec fn bound_spec(b: RangeBound) -> Result<usize, SeqError> {
    match b {
        RangeBound::IntLit { value } => Ok(value),
        RangeBound::TooLarge => Err(SeqError::BoundTooLarge),
        RangeBound::Other { span } => Err(SeqError::UnsupportedBound { span }),
    }
}

/// The number that a range bound denotes: only integer literals are accepted.
pub fn parse_range(input: &RangeBound) -> (r: Result<usize, SeqError>)
    ensures
        r == bound_spec(*input),
{
    match input {
        RangeBound::IntLit { value } => Ok(*value),
        RangeBound::TooLarge => Err(SeqError::BoundTooLarge),
        RangeBound::Other { span } => Err(SeqError::UnsupportedBound { span: *span }),
    }
}

/// What a `seq!` invocation expands to: both bounds must be present (the
/// start is checked first) and be integer literals; then every repeated
/// section `#( ... )*` of the body is expanded over the range, and where the
/// placeholder also occurs outside every section, the whole body so obtained
/// is expanded over the range once more.
pub open spec fn seq_spec(input: SeqInput) -> Result<Seq<TokV>, SeqError> {
    match (input.start, input.end) {
        (None, _) => Err(SeqError::MissingStart),
        (Some(_), None) => Err(SeqError::MissingEnd),
        (Some(sb), Some(eb)) => match bound_spec(sb) {
            Err(e) => Err(e),
            Ok(st) => match bound_spec(eb) {
                Err(e) => Err(e),
                Ok(en) => {
                    let ex = RangeExpand {
                        start: st,
                        end: en,
                        inclusive: input.inclusive,
                        name: input.name,
                    };
                    match section_stream(stream_v(input.body@), seq![], false, ex) {
                        Err(e) => Err(e),
                        Ok((b, f)) => if f {
                            range_expand(ex, b)
                        } else {
                            Ok(b)
                        },
                    }
                },
            },
        },
    }
}

/// Expands a `seq!` invocation.
pub fn exec_seq(input: &SeqInput) -> (r: Result<Vec<Tok>, SeqError>)
    ensures
        result_v(r) == seq_spec(*input),
{
    let start_bound = match &input.start {
        Some(b) => b,
        None => {
            return Err(SeqError::MissingStart);
        },
    };
    let end_bound = match &input.end {
        Some(b) => b,
        None => {
            return Err(SeqError::MissingEnd);
        },
    };
    let start = parse_range(start_bound)?;
    let end = parse_range(end_bound)?;
    let expander = RangeExpand {
        start,
        end,
        inclusive: input.inclusive,
        name: input.name.clone(),
    };
    let mut section = Section { expander, else_need_expand: false };
    let body = section.visit_token_stream(&input.body)?;
    if section.else_need_expand {
        section.expander.visit_token_stream(&body)
    } else {
        Ok(body)
    }
}

impl SeqError {
    /// The message that the macro reports for the error.
    pub fn message(&self) -> (r: String)
        ensures
            r@ == seq_error_message(*self),
    {
        match self {
            SeqError::MissingStart => String::from_str("start of range must be specified"),
            SeqError::MissingEnd => String::from_str("end musts be specified"),
            SeqError::UnsupportedBound { .. } => String::from_str("Not support expr"),
            SeqError::BoundTooLarge => String::from_str("number too large to fit in target type"),
            SeqError::RangeTooLarge => String::from_str("attempt to add with overflow"),
            SeqError::InvalidPaste => String::from_str("pasted text is not a valid Ident"),
            SeqError::InvisibleGroup => String::from_str("unexpected token"),
        }
    }
}

/// The message of each error.
pub open spec fn seq_error_message(e: SeqError) -> Seq<char> {
    match e {
        SeqError::MissingStart => "start of range must be specified"@,
        SeqError::MissingEnd => "end musts be specified"@,
        SeqError::UnsupportedBound { .. } => "Not support expr"@,
        SeqError::BoundTooLarge => "number too large to fit in target type"@,
        SeqError::RangeTooLarge => "attempt to add with overflow"@,
        SeqError::InvalidPaste => "pasted text is not a valid Ident"@,
        SeqError::InvisibleGroup => "unexpected token"@,
    }
}


/// Whether a token tree holds neither the identifier `p`, nor a `~`, nor an
/// invisible group.
pub open spec fn tok_free(t: TokV, p: Seq<char>) -> bool
    decreases t,
{
    match t {
        TokV::Ident(s, _) => s != p,
        TokV::Punct(c, _, _) => c != '~',
        TokV::Literal(..) => true,
        TokV::Group(d, st, _) => d != Delim::Invisible && stream_free(st, p),
    }
}

/// Whether a token stream holds neither the identifier `p`, nor a `~`, nor an
/// invisible group.
pub open spec fn stream_free(s: Seq<TokV>, p: Seq<char>) -> bool
    decreases s,
{
    s.len() == 0 || (tok_free(s[0], p) && stream_free(s.drop_first(), p))
}

/// A token tree without the placeholder, `~` and invisible groups is left as
/// it is.
pub proof fn lemma_replace_free_tok(t: TokV, p: Seq<char>, lit: Seq<char>)
    requires
        tok_free(t, p),
    ensures
        replace_tok(t, p, lit) == Ok::<TokV, SeqError>(t),
    decreases t,
{
    match t {
        TokV::Group(d, st, sp) => {
            lemma_replace_free_stream(st, seq![], p, lit);
            assert(Seq::<TokV>::empty() + st =~= st);
        },
        _ => {},
    }
}

/// Replacing a placeholder in a stream that holds neither it, nor `~`, nor an
/// invisible group copies the stream.
pub proof fn lemma_replace_free_stream(s: Seq<TokV>, out: Seq<TokV>, p: Seq<char>, lit: Seq<char>)
    requires
        stream_free(s, p),
    ensures
        replace_stream(s, out, p, lit) == Ok::<Seq<TokV>, SeqError>(out + s),
    decreases s,
{
    if s.len() == 0 {
        assert(out + s =~= out);
    } else {
        assert(!is_punct(s[0], '~')) by {
            if is_punct(s[0], '~') {
                assert(!tok_free(s[0], p));
            }
        }
        lemma_replace_free_tok(s[0], p, lit);
        lemma_replace_free_stream(s.drop_first(), out.push(s[0]), p, lit);
        assert(out.push(s[0]) + s.drop_first() =~= out + s);
    }
}

/// `n` copies of a stream, one after the other.
pub open spec fn repeat(s: Seq<TokV>, n: nat) -> Seq<TokV>
    decreases n,
{
    if n == 0 {
        seq![]
    } else {
        s + repeat(s, (n - 1) as nat)
    }
}

proof fn lemma_copies_free(body: Seq<TokV>, p: Seq<char>, k: int, end: int, out: Seq<TokV>)
    requires
        stream_free(body, p),
    ensures
        copies(body, p, k, end, out) == Ok::<Seq<TokV>, SeqError>(
            out + repeat(body, if end > k { (end - k) as nat } else { 0 }),
        ),
    decreases end - k,
{
    if k >= end {
        assert(out + repeat(body, 0) =~= out);
    } else {
        lemma_replace_free_stream(body, seq![], p, decimal(k as nat));
        assert(Seq::<TokV>::empty() + body =~= body);
        lemma_copies_free(body, p, k + 1, end, out + body);
        let n = (end - k) as nat;
        assert(repeat(body, n) == body + repeat(body, (n - 1) as nat));
        assert(out + body + repeat(body, (n - 1) as nat) =~= out + repeat(body, n));
    }
}

/// The number of copies a range makes: one per number of `start..end`, and
/// one more for an inclusive range.
pub open spec fn copy_count(ex: RangeExpand) -> nat {
    (if ex.end > ex.start {
        (ex.end - ex.start) as nat
    } else {
        0nat
    }) + if ex.inclusive {
        1nat
    } else {
        0nat
    }
}

/// A body that holds neither the placeholder, nor `~`, nor an invisible group
/// is repeated as it is, once per copy the range makes.
pub proof fn lemma_expand_free_body(ex: RangeExpand, body: Seq<TokV>)
    requires
        stream_free(body, ex.name@),
        ex.start + ex.end <= usize::MAX,
    ensures
        range_expand(ex, body) == Ok::<Seq<TokV>, SeqError>(repeat(body, copy_count(ex))),
{
    let n = if ex.end > ex.start {
        (ex.end - ex.start) as nat
    } else {
        0nat
    };
    lemma_copies_free(body, ex.name@, ex.start as int, ex.end as int, seq![]);
    assert(Seq::<TokV>::empty() + repeat(body, n) =~= repeat(body, n));
    if ex.inclusive {
        lemma_replace_free_stream(body, seq![], ex.name@, decimal(ex.end as nat) + usize_suffix());
        assert(Seq::<TokV>::empty() + body =~= body);
        lemma_repeat_push(body, n);
    }
}

proof fn lemma_repeat_push(s: Seq<TokV>, n: nat)
    ensures
        repeat(s, n) + s == repeat(s, n + 1),
    decreases n,
{
    if n == 0 {
        assert(repeat(s, 0) + s =~= s + repeat(s, 0));
    } else {
        lemma_repeat_push(s, (n - 1) as nat);
        assert(repeat(s, n) + s =~= s + (repeat(s, (n - 1) as nat) + s));
    }
}

/// An empty range expands any body to nothing.
pub proof fn lemma_empty_range(ex: RangeExpand, body: Seq<TokV>)
    requires
        ex.start >= ex.end,
        !ex.inclusive,
        ex.start + ex.end <= usize::MAX,
    ensures
        range_expand(ex, body) == Ok::<Seq<TokV>, SeqError>(seq![]),
{
}

/// Whether a token tree holds no repeated section, not the identifier `p` and
/// no invisible group.
pub open spec fn plain_tok(t: TokV, p: Seq<char>) -> bool
    decreases t,
{
    match t {
        TokV::Ident(s, _) => s != p,
        TokV::Group(d, st, _) => d != Delim::Invisible && plain_stream(st, p),
        _ => true,
    }
}

/// Whether a token stream holds no repeated section `#( ... )*`, not the
/// identifier `p` and no invisible group.
pub open spec fn plain_stream(s: Seq<TokV>, p: Seq<char>) -> bool
    decreases s,
{
    s.len() == 0 || (!is_section(s) && plain_tok(s[0], p) && plain_stream(s.drop_first(), p))
}

proof fn lemma_section_plain_tok(t: TokV, ex: RangeExpand)
    requires
        plain_tok(t, ex.name@),
    ensures
        section_tok(t, ex) == Ok::<(TokV, bool), SeqError>((t, false)),
    decreases t,
{
    match t {
        TokV::Group(d, st, sp) => {
            lemma_section_plain_stream(st, seq![], false, ex);
            assert(Seq::<TokV>::empty() + st =~= st);
        },
        _ => {},
    }
}

proof fn lemma_section_plain_stream(s: Seq<TokV>, out: Seq<TokV>, flag: bool, ex: RangeExpand)
    requires
        plain_stream(s, ex.name@),
    ensures
        section_stream(s, out, flag, ex) == Ok::<(Seq<TokV>, bool), SeqError>((out + s, flag)),
    decreases s,
{
    if s.len() == 0 {
        assert(out + s =~= out);
    } else {
        lemma_section_plain_tok(s[0], ex);
        lemma_section_plain_stream(s.drop_first(), out.push(s[0]), flag, ex);
        assert(out.push(s[0]) + s.drop_first() =~= out + s);
    }
}

/// A `seq!` invocation with literal bounds whose body has no repeated
/// section, no invisible group and does not mention the placeholder expands
/// to its body unchanged.
pub proof fn lemma_seq_plain_body(input: SeqInput)
    requires
        input.start matches Some(b) && bound_spec(b) is Ok,
        input.end matches Some(b) && bound_spec(b) is Ok,
        plain_stream(stream_v(input.body@), input.name@),
    ensures
        seq_spec(input) == Ok::<Seq<TokV>, SeqError>(stream_v(input.body@)),
{
    let st = bound_spec(input.start->0)->Ok_0;
    let en = bound_spec(input.end->0)->Ok_0;
    let ex = RangeExpand { start: st, end: en, inclusive: input.inclusive, name: input.name };
    lemma_section_plain_stream(stream_v(input.body@), seq![], false, ex);
    assert(Seq::<TokV>::empty() + stream_v(input.body@) =~= stream_v(input.body@));
}


/// Whether no repeated section `#( ... )*` starts in the last two tokens of
/// `s1` and runs on into `s2`.
pub open spec fn no_section_across(s1: Seq<TokV>, s2: Seq<TokV>) -> bool {
    forall|i: int| 0 <= i < s1.len() && s1.len() < i + 3 ==> !is_section(#[trigger] (s1 + s2).skip(i))
}

/// Sections are expanded independently of where they stand: where no section
/// runs across the boundary, expanding `s1 + s2` is expanding `s1` and then,
/// after its result, `s2`; an error in `s1` is the error of the whole.
pub proof fn lemma_sections_concat(s1: Seq<TokV>, s2: Seq<TokV>, out: Seq<TokV>, flag: bool, ex: RangeExpand)
    requires
        no_section_across(s1, s2),
    ensures
        section_stream(s1 + s2, out, flag, ex) == match section_stream(s1, out, flag, ex) {
            Ok((o, f)) => section_stream(s2, o, f, ex),
            Err(e) => Err(e),
        },
    decreases s1.len(),
{
    let s = s1 + s2;
    if s1.len() == 0 {
        assert(s =~= s2);
    } else if is_section(s1) {
        assert(s[0] == s1[0] && s[1] == s1[1] && s[2] == s1[2]);
        assert(is_section(s));
        assert(s.skip(3) =~= s1.skip(3) + s2);
        assert forall|i: int| 0 <= i < s1.skip(3).len() && s1.skip(3).len() < i + 3 implies !is_section(
            #[trigger] (s1.skip(3) + s2).skip(i),
        ) by {
            assert((s1.skip(3) + s2).skip(i) =~= s.skip(i + 3));
            assert(!is_section(s.skip(i + 3)));
        }
        match range_expand(ex, s1[1]->Group_1) {
            Ok(x) => {
                lemma_sections_concat(s1.skip(3), s2, out + x, flag, ex);
            },
            Err(e) => {},
        }
    } else {
        if s1.len() >= 3 {
            assert(s[0] == s1[0] && s[1] == s1[1] && s[2] == s1[2]);
        } else {
            assert(s.skip(0) =~= s);
        }
        assert(!is_section(s));
        assert(s[0] == s1[0]);
        assert(s.drop_first() =~= s1.drop_first() + s2);
        assert forall|i: int|
            0 <= i < s1.drop_first().len() && s1.drop_first().len() < i + 3 implies !is_section(
            #[trigger] (s1.drop_first() + s2).skip(i),
        ) by {
            assert((s1.drop_first() + s2).skip(i) =~= s.skip(i + 1));
            assert(!is_section(s.skip(i + 1)));
        }
        match section_tok(s1[0], ex) {
            Ok((t, f)) => {
                lemma_sections_concat(s1.drop_first(), s2, out.push(t), flag || f, ex);
            },
            Err(e) => {},
        }
    }
}

/// Two repeated sections in a row expand to the first section's contents
/// expanded over the range, followed by the second's.
pub proof fn lemma_two_sections(a: Seq<TokV>, b: Seq<TokV>, sp: usize, ex: RangeExpand, p1: TokV, p2: TokV)
    requires
        is_punct(p1, '#'),
        is_punct(p2, '*'),
        range_expand(ex, a) is Ok,
        range_expand(ex, b) is Ok,
    ensures
        section_stream(
            seq![p1, TokV::Group(Delim::Paren, a, sp), p2, p1, TokV::Group(Delim::Paren, b, sp), p2],
            seq![],
            false,
            ex,
        ) == Ok::<(Seq<TokV>, bool), SeqError>(
            (range_expand(ex, a)->Ok_0 + range_expand(ex, b)->Ok_0, false),
        ),
{
    let w1 = seq![p1, TokV::Group(Delim::Paren, a, sp), p2];
    let w2 = seq![p1, TokV::Group(Delim::Paren, b, sp), p2];
    let x = range_expand(ex, a)->Ok_0;
    let y = range_expand(ex, b)->Ok_0;
    assert(seq![p1, TokV::Group(Delim::Paren, a, sp), p2, p1, TokV::Group(Delim::Paren, b, sp), p2] =~= w1 + w2);
    assert forall|i: int| 0 <= i < w1.len() && w1.len() < i + 3 implies !is_section(#[trigger] (w1 + w2).skip(i)) by {
        let r = (w1 + w2).skip(i);
        if i == 1 {
            assert(r[0] == TokV::Group(Delim::Paren, a, sp));
        } else {
            assert(r[0] == p2);
        }
    }
    lemma_sections_concat(w1, w2, seq![], false, ex);
    let e = Seq::<TokV>::empty();
    assert(is_section(w1));
    assert(w1[1]->Group_1 == a);
    assert(w1.skip(3) =~= e);
    assert(section_stream(e, e + x, false, ex) == Ok::<(Seq<TokV>, bool), SeqError>((e + x, false)));
    assert(section_stream(w1, e, false, ex) == Ok::<(Seq<TokV>, bool), SeqError>((e + x, false)));
    assert(is_section(w2));
    assert(w2[1]->Group_1 == b);
    assert(w2.skip(3) =~= e);
    assert(section_stream(e, e + x + y, false, ex) == Ok::<(Seq<TokV>, bool), SeqError>((e + x + y, false)));
    assert(section_stream(w2, e + x, false, ex) == Ok::<(Seq<TokV>, bool), SeqError>((e + x + y, false)));
    assert(e + x + y =~= x + y);
}

} // verus!
