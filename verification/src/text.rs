use vstd::prelude::*;
use vstd::string::StringExecFns;

verus! {

/// Appends one character to a string (`String::push`).
///
/// Trusted: the contract claims that the string afterwards holds its old
/// characters followed by `c`.
#[verifier::external_body]
fn push_char(s: &mut String, c: char)
    ensures
        final(s)@ == old(s)@.push(c),
{
    s.push(c);
}

/// The characters of `s`, in order.
pub fn chars_of(s: &str) -> (r: Vec<char>)
    ensures
        r@ == s@,
{
    let mut r: Vec<char> = Vec::new();
    for c in it: s.chars()
        invariant
            r@ == it.seq().take(it.index() as int),
            it.seq() == s@,
    {
        r.push(c);
    }
    r
}

/// A string made of the given characters.
pub fn string_from_chars(cs: &[char]) -> (r: String)
    ensures
        r@ == cs@,
{
    let mut r = String::new();
    let mut i: usize = 0;
    while i < cs.len()
        invariant
            i <= cs.len(),
            r@ == cs@.take(i as int),
        decreases cs.len() - i,
    {
        push_char(&mut r, cs[i]);
        assert(cs@.take(i + 1) =~= cs@.take(i as int).push(cs@[i as int]));
        i = i + 1;
    }
    assert(cs@.take(cs.len() as int) =~= cs@);
    r
}

/// `a` followed by `b`.
pub fn concat(a: &str, b: &str) -> (r: String)
    ensures
        r@ == a@ + b@,
{
    let mut r = a.to_owned();
    r.append(b);
    r
}

/// The digit character of a number below ten.
pub open spec fn digit_char(d: nat) -> char {
    if d < 10 {
        (48 + d) as char
    } else {
        '?'
    }
}

/// The decimal numeral of `n`, without leading zeros.
pub open spec fn decimal(n: nat) -> Seq<char>
    decreases n,
{
    if n < 10 {
        seq![digit_char(n)]
    } else {
        decimal(n / 10).push(digit_char(n % 10))
    }
}

/// The suffix of an integer literal of type `usize`.
pub open spec fn usize_suffix() -> Seq<char> {
    seq!['u', 's', 'i', 'z', 'e']
}

/// The text of an unsuffixed integer literal
/// (`proc_macro2::Literal::usize_unsuffixed`, then `to_string`).
///
/// Trusted: the contract claims the text is the decimal numeral of `n`, as the
/// crate documents ("an integer like `1`") and builds it (`n.to_string()`).
#[verifier::external_body]
pub(crate) fn unsuffixed_literal_text(n: usize) -> (r: String)
    ensures
        r@ == decimal(n as nat),
{
    proc_macro2::Literal::usize_unsuffixed(n).to_string()
}

/// The text of a `usize`-suffixed integer literal
/// (`proc_macro2::Literal::usize_suffixed`, then `to_string`).
///
/// Trusted: the contract claims the text is the decimal numeral of `n` followed
/// by `usize`, as the crate documents ("an integer like `1u32`") and builds it.
#[verifier::external_body]
pub(crate) fn suffixed_literal_text(n: usize) -> (r: String)
    ensures
        r@ == decimal(n as nat) + usize_suffix(),
{
    proc_macro2::Literal::usize_suffixed(n).to_string()
}

/// Strict lexicographic order of two character sequences, by code point: the
/// order of Rust's `str` comparison.
pub open spec fn lex_lt(a: Seq<char>, b: Seq<char>) -> bool
    decreases a.len(),
{
    if a.len() == 0 {
        b.len() > 0
    } else if b.len() == 0 {
        false
    } else if a[0] != b[0] {
        a[0] < b[0]
    } else {
        lex_lt(a.drop_first(), b.drop_first())
    }
}

/// `a < b` in string order.
pub fn text_lt(a: &str, b: &str) -> (r: bool)
    ensures
        r == lex_lt(a@, b@),
{
    let x = chars_of(a);
    let y = chars_of(b);
    let mut i: usize = 0;
    assert(x@.skip(0) =~= x@);
    assert(y@.skip(0) =~= y@);
    while i < x.len() && i < y.len() && x[i] == y[i]
        invariant
            i <= x.len(),
            i <= y.len(),
            lex_lt(x@, y@) == lex_lt(x@.skip(i as int), y@.skip(i as int)),
        decreases x.len() - i,
    {
        assert(x@.skip(i as int).drop_first() =~= x@.skip(i + 1));
        assert(y@.skip(i as int).drop_first() =~= y@.skip(i + 1));
        i = i + 1;
    }
    if i == x.len() {
        i < y.len()
    } else if i == y.len() {
        false
    } else {
        x[i] < y[i]
    }
}

/// `s` without a leading `r#`, the marker of a raw identifier.
pub open spec fn strip_raw(s: Seq<char>) -> Seq<char> {
    if s.len() >= 2 && s[0] == 'r' && s[1] == '#' {
        s.skip(2)
    } else {
        s
    }
}

/// The name of an identifier without its raw marker.
pub fn strip_raw_text(s: &str) -> (r: String)
    ensures
        r@ == strip_raw(s@),
{
    let cs = chars_of(s);
    if cs.len() >= 2 && cs[0] == 'r' && cs[1] == '#' {
        let mut rest: Vec<char> = Vec::new();
        let mut i: usize = 2;
        while i < cs.len()
            invariant
                2 <= i <= cs.len(),
                rest@ == cs@.subrange(2, i as int),
            decreases cs.len() - i,
        {
            rest.push(cs[i]);
            assert(cs@.subrange(2, i + 1) =~= cs@.subrange(2, i as int).push(cs@[i as int]));
            i = i + 1;
        }
        assert(cs@.skip(2) =~= cs@.subrange(2, cs.len() as int));
        string_from_chars(rest.as_slice())
    } else {
        string_from_chars(cs.as_slice())
    }
}

/// The parts joined, with `sep` between each two.
pub open spec fn join(parts: Seq<Seq<char>>, sep: Seq<char>) -> Seq<char>
    decreases parts.len(),
{
    if parts.len() == 0 {
        seq![]
    } else if parts.len() == 1 {
        parts[0]
    } else {
        join(parts.drop_last(), sep) + sep + parts.last()
    }
}

/// The views of a vector of strings.
pub open spec fn texts(v: Seq<String>) -> Seq<Seq<char>> {
    Seq::new(v.len(), |i: int| v[i]@)
}

/// The strings joined with `sep` between each two.
pub fn join_texts(parts: &Vec<String>, sep: &str) -> (r: String)
    ensures
        r@ == join(texts(parts@), sep@),
{
    let mut r = String::new();
    let mut i: usize = 0;
    while i < parts.len()
        invariant
            i <= parts.len(),
            r@ == join(texts(parts@).take(i as int), sep@),
        decreases parts.len() - i,
    {
        let ghost before = texts(parts@).take(i as int);
        if i != 0 {
            r.append(sep);
        }
        r.append(parts[i].as_str());
        assert(texts(parts@).take(i + 1).drop_last() =~= before);
        assert(texts(parts@).take(i + 1) =~= before.push(parts@[i as int]@));
        i = i + 1;
    }
    assert(texts(parts@).take(parts.len() as int) =~= texts(parts@));
    r
}

/// Whether every character is an ASCII digit.
pub open spec fn all_digits(s: Seq<char>) -> bool {
    forall|i: int| 0 <= i < s.len() ==> '0' <= #[trigger] s[i] <= '9'
}

/// The string order compares code points: at the first position where two
/// texts differ, the one whose character has the smaller code point comes
/// first.
pub proof fn lemma_lex_lt_code_points(a: Seq<char>, b: Seq<char>, i: int)
    requires
        0 <= i < a.len(),
        i < b.len(),
        a.take(i) == b.take(i),
        a[i] != b[i],
    ensures
        lex_lt(a, b) == ((a[i] as int) < (b[i] as int)),
    decreases i,
{
    if i == 0 {
        assert((a[0] < b[0]) == ((a[0] as int) < (b[0] as int)));
    } else {
        assert(a[0] == a.take(i)[0] && b[0] == b.take(i)[0]);
        assert(a.drop_first().take(i - 1) =~= a.take(i).drop_first());
        assert(b.drop_first().take(i - 1) =~= b.take(i).drop_first());
        lemma_lex_lt_code_points(a.drop_first(), b.drop_first(), i - 1);
    }
}

/// A text comes before every longer text that it starts, and never after it.
pub proof fn lemma_lex_lt_prefix(a: Seq<char>, b: Seq<char>)
    requires
        a.len() < b.len(),
        a == b.take(a.len() as int),
    ensures
        lex_lt(a, b),
        !lex_lt(b, a),
    decreases a.len(),
{
    if a.len() > 0 {
        assert(a[0] == b[0]);
        assert(a.drop_first() =~= b.drop_first().take(a.len() - 1));
        lemma_lex_lt_prefix(a.drop_first(), b.drop_first());
    }
}

/// The string order is transitive.
pub proof fn lemma_lex_lt_transitive(a: Seq<char>, b: Seq<char>, c: Seq<char>)
    requires
        lex_lt(a, b),
        lex_lt(b, c),
    ensures
        lex_lt(a, c),
    decreases a.len(),
{
    if a.len() > 0 && b.len() > 0 && c.len() > 0 && a[0] == b[0] && b[0] == c[0] {
        lemma_lex_lt_transitive(a.drop_first(), b.drop_first(), c.drop_first());
    }
}

/// Of two different sequences, one sorts strictly before the other.
pub proof fn lemma_lex_lt_total(a: Seq<char>, b: Seq<char>)
    ensures
        a == b || lex_lt(a, b) || lex_lt(b, a),
    decreases a.len(),
{
    if a.len() > 0 && b.len() > 0 && a[0] == b[0] {
        lemma_lex_lt_total(a.drop_first(), b.drop_first());
        if a.drop_first() == b.drop_first() {
            assert(a =~= seq![a[0]] + a.drop_first());
            assert(b =~= seq![b[0]] + b.drop_first());
        }
    } else if a.len() == 0 && b.len() == 0 {
        assert(a =~= b);
    } else if a.len() > 0 && b.len() > 0 {
    }
}


/// No sequence sorts strictly before itself.
pub proof fn lemma_lex_lt_irreflexive(a: Seq<char>)
    ensures
        !lex_lt(a, a),
    decreases a.len(),
{
    if a.len() > 0 {
        lemma_lex_lt_irreflexive(a.drop_first());
    }
}

/// The string order is a strict total order consistent with equality: of two
/// sequences exactly one of "equal", "first before second", "second before
/// first" holds.
pub proof fn lemma_lex_order(a: Seq<char>, b: Seq<char>)
    ensures
        !(lex_lt(a, b) && lex_lt(b, a)),
        a == b <==> (!lex_lt(a, b) && !lex_lt(b, a)),
{
    lemma_lex_lt_total(a, b);
    lemma_lex_lt_irreflexive(a);
    if lex_lt(a, b) && lex_lt(b, a) {
        lemma_lex_lt_transitive(a, b, a);
    }
}

/// Whether `unicode_ident` gives a character the property XID_Start.
pub uninterp spec fn xid_start(c: char) -> bool;

/// Whether `unicode_ident` gives a character the property XID_Continue.
pub uninterp spec fn xid_continue(c: char) -> bool;

/// The Unicode property XID_Start of a character (`unicode_ident::is_xid_start`).
///
/// Trusted: the contract claims only that the result is that property of the
/// character, named `xid_start`; the tables themselves are not stated.
#[verifier::external_body]
fn is_xid_start(c: char) -> (r: bool)
    ensures
        r == xid_start(c),
{
    unicode_ident::is_xid_start(c)
}

/// The Unicode property XID_Continue of a character
/// (`unicode_ident::is_xid_continue`).
///
/// Trusted: the contract claims only that the result is that property of the
/// character, named `xid_continue`; the tables themselves are not stated.
#[verifier::external_body]
fn is_xid_continue(c: char) -> (r: bool)
    ensures
        r == xid_continue(c),
{
    unicode_ident::is_xid_continue(c)
}

/// A character that may begin an identifier: `_` or one with XID_Start.
pub open spec fn ident_start(c: char) -> bool {
    c == '_' || xid_start(c)
}

/// Whether an identifier can be made of a text: it is not empty, not a
/// number, starts with `_` or an XID_Start character, and goes on with
/// XID_Continue characters. Keywords are identifiers too.
pub open spec fn is_ident_text(s: Seq<char>) -> bool {
    &&& s.len() > 0
    &&& !all_digits(s)
    &&& ident_start(s[0])
    &&& forall|i: int| 1 <= i < s.len() ==> #[trigger] xid_continue(s[i])
}

/// Whether a text starts with the raw marker `r#`.
pub open spec fn has_raw_marker(s: Seq<char>) -> bool {
    s.len() >= 2 && s[0] == 'r' && s[1] == '#'
}

/// The words that cannot be raw identifiers.
pub open spec fn raw_forbidden(s: Seq<char>) -> bool {
    ||| s == seq!['_']
    ||| s == seq!['s', 'u', 'p', 'e', 'r']
    ||| s == seq!['s', 'e', 'l', 'f']
    ||| s == seq!['S', 'e', 'l', 'f']
    ||| s == seq!['c', 'r', 'a', 't', 'e']
}

/// Whether an identifier can be made of a text that may carry the raw marker:
/// `r#name` where `name` is an identifier that may be raw, else the text
/// itself is an identifier.
pub open spec fn is_maybe_raw_ident_text(s: Seq<char>) -> bool {
    if has_raw_marker(s) {
        is_ident_text(s.skip(2)) && !raw_forbidden(s.skip(2))
    } else {
        is_ident_text(s)
    }
}

/// Whether every character is an ASCII digit.
pub fn all_digits_ok(s: &Vec<char>) -> (r: bool)
    ensures
        r == all_digits(s@),
{
    let mut i: usize = 0;
    while i < s.len()
        invariant
            i <= s.len(),
            forall|k: int| 0 <= k < i ==> '0' <= #[trigger] s@[k] <= '9',
        decreases s.len() - i,
    {
        if !('0' <= s[i] && s[i] <= '9') {
            return false;
        }
        i = i + 1;
    }
    true
}

/// Whether an identifier can be made of the characters.
pub fn ident_chars_ok(s: &Vec<char>) -> (r: bool)
    ensures
        r == is_ident_text(s@),
{
    if s.len() == 0 || all_digits_ok(s) {
        return false;
    }
    if !(s[0] == '_' || is_xid_start(s[0])) {
        return false;
    }
    let mut i: usize = 1;
    while i < s.len()
        invariant
            1 <= i <= s.len(),
            forall|k: int| 1 <= k < i ==> #[trigger] xid_continue(s@[k]),
        decreases s.len() - i,
    {
        if !is_xid_continue(s[i]) {
            return false;
        }
        i = i + 1;
    }
    true
}

/// Whether an identifier can be made of a text.
pub fn ident_text_ok(s: &str) -> (r: bool)
    ensures
        r == is_ident_text(s@),
{
    let cs = chars_of(s);
    ident_chars_ok(&cs)
}

/// Whether a text is one of the words that cannot be raw identifiers.
fn raw_forbidden_ok(s: &Vec<char>) -> (r: bool)
    ensures
        r == raw_forbidden(s@),
{
    let n = s.len();
    let w1 = n == 1 && s[0] == '_';
    let w2 = n == 5 && s[0] == 's' && s[1] == 'u' && s[2] == 'p' && s[3] == 'e' && s[4] == 'r';
    let w3 = n == 4 && s[0] == 's' && s[1] == 'e' && s[2] == 'l' && s[3] == 'f';
    let w4 = n == 4 && s[0] == 'S' && s[1] == 'e' && s[2] == 'l' && s[3] == 'f';
    let w5 = n == 5 && s[0] == 'c' && s[1] == 'r' && s[2] == 'a' && s[3] == 't' && s[4] == 'e';
    proof {
        if w1 { assert(s@ =~= seq!['_']); }
        if w2 { assert(s@ =~= seq!['s', 'u', 'p', 'e', 'r']); }
        if w3 { assert(s@ =~= seq!['s', 'e', 'l', 'f']); }
        if w4 { assert(s@ =~= seq!['S', 'e', 'l', 'f']); }
        if w5 { assert(s@ =~= seq!['c', 'r', 'a', 't', 'e']); }
    }
    w1 || w2 || w3 || w4 || w5
}

/// The characters of `s` from position `k` on.
fn chars_from(s: &Vec<char>, k: usize) -> (r: Vec<char>)
    requires
        k <= s.len(),
    ensures
        r@ == s@.skip(k as int),
{
    let mut r: Vec<char> = Vec::new();
    let mut i: usize = k;
    while i < s.len()
        invariant
            k <= i <= s.len(),
            r@ == s@.subrange(k as int, i as int),
        decreases s.len() - i,
    {
        r.push(s[i]);
        i = i + 1;
    }
    r
}

/// Whether an identifier can be made of a text that may carry the raw marker.
pub fn maybe_raw_ident_text_ok(s: &str) -> (r: bool)
    ensures
        r == is_maybe_raw_ident_text(s@),
{
    let cs = chars_of(s);
    if cs.len() >= 2 && cs[0] == 'r' && cs[1] == '#' {
        let rest = chars_from(&cs, 2);
        ident_chars_ok(&rest) && !raw_forbidden_ok(&rest)
    } else {
        ident_chars_ok(&cs)
    }
}

/// The message with which an identifier is refused, for a text of which no
/// identifier can be made (the raw marker taken off first): an empty text, a
/// number, a text with a character an identifier cannot have, or a word that
/// cannot be a raw identifier.
pub open spec fn not_ident_message(v: Seq<char>) -> Seq<char> {
    let t = if has_raw_marker(v) {
        v.skip(2)
    } else {
        v
    };
    if t.len() == 0 {
        "Ident is not allowed to be empty; use Option<Ident>"@
    } else if all_digits(t) {
        "Ident cannot be a number; use Literal instead"@
    } else if !is_ident_text(t) {
        "\""@ + t + "\" is not a valid Ident"@
    } else {
        "`r#"@ + t + "` cannot be a raw identifier"@
    }
}

/// The message with which an identifier is refused for a text.
pub fn not_ident_message_of(v: &str) -> (r: String)
    ensures
        r@ == not_ident_message(v@),
{
    proof {
        reveal_strlit("Ident is not allowed to be empty; use Option<Ident>");
        reveal_strlit("Ident cannot be a number; use Literal instead");
    }
    let cs = chars_of(v);
    let t = if cs.len() >= 2 && cs[0] == 'r' && cs[1] == '#' {
        chars_from(&cs, 2)
    } else {
        chars_from(&cs, 0)
    };
    assert(cs@.skip(0) =~= cs@);
    let mut text = String::new();
    let mut i: usize = 0;
    while i < t.len()
        invariant
            i <= t.len(),
            text@ == t@.take(i as int),
        decreases t.len() - i,
    {
        push_char(&mut text, t[i]);
        assert(t@.take(i + 1) =~= t@.take(i as int).push(t@[i as int]));
        i = i + 1;
    }
    assert(t@.take(t.len() as int) =~= t@);
    if t.len() == 0 {
        String::from_str("Ident is not allowed to be empty; use Option<Ident>")
    } else if all_digits_ok(&t) {
        String::from_str("Ident cannot be a number; use Literal instead")
    } else if !ident_chars_ok(&t) {
        let quoted = concat("\"", text.as_str());
        concat(quoted.as_str(), "\" is not a valid Ident")
    } else {
        let quoted = concat("`r#", text.as_str());
        concat(quoted.as_str(), "` cannot be a raw identifier")
    }
}

/// The value of a hexadecimal digit, or -1.
pub open spec fn hex_value(c: char) -> int {
    if '0' <= c <= '9' {
        c as int - '0' as int
    } else if 'a' <= c <= 'f' {
        c as int - 'a' as int + 10
    } else if 'A' <= c <= 'F' {
        c as int - 'A' as int + 10
    } else {
        -1
    }
}

/// Whether a number is a Unicode scalar value, the values of `char`.
pub open spec fn is_scalar(v: int) -> bool {
    0 <= v <= 0x10FFFF && !(0xD800 <= v <= 0xDFFF)
}

/// The body of a `\u{...}` escape after the brace: hexadecimal digits, at most
/// six, with `_` allowed after the first, then the closing brace. Gives the
/// value and the text after the brace.
pub open spec fn unicode_escape(s: Seq<char>, digits: nat, acc: int) -> Option<(int, Seq<char>)>
    decreases s.len(),
{
    if s.len() == 0 {
        None
    } else if s[0] == '_' && digits > 0 {
        unicode_escape(s.skip(1), digits, acc)
    } else if s[0] == '}' {
        if digits == 0 {
            None
        } else {
            Some((acc, s.skip(1)))
        }
    } else if hex_value(s[0]) >= 0 && digits < 6 {
        unicode_escape(s.skip(1), digits + 1, acc * 16 + hex_value(s[0]))
    } else {
        None
    }
}

/// Whether a character is skipped after a line continuation.
pub open spec fn is_ws(c: char) -> bool {
    c == ' ' || c == '\t' || c == '\n' || c == '\r'
}

/// The text after the whitespace at its start.
pub open spec fn skip_ws(s: Seq<char>) -> Seq<char>
    decreases s.len(),
{
    if s.len() > 0 && is_ws(s[0]) {
        skip_ws(s.skip(1))
    } else {
        s
    }
}

/// What follows an escape's body is shorter than the body.
pub proof fn lemma_unicode_escape_shorter(s: Seq<char>, digits: nat, acc: int)
    ensures
        unicode_escape(s, digits, acc) matches Some((_, r)) ==> r.len() < s.len(),
    decreases s.len(),
{
    if s.len() > 0 && s[0] == '_' && digits > 0 {
        lemma_unicode_escape_shorter(s.skip(1), digits, acc);
    } else if s.len() > 0 && s[0] != '}' && hex_value(s[0]) >= 0 && digits < 6 {
        lemma_unicode_escape_shorter(s.skip(1), digits + 1, acc * 16 + hex_value(s[0]));
    }
}

/// Skipping whitespace does not lengthen a text.
pub proof fn lemma_skip_ws_shorter(s: Seq<char>)
    ensures
        skip_ws(s).len() <= s.len(),
    decreases s.len(),
{
    if s.len() > 0 && is_ws(s[0]) {
        lemma_skip_ws_shorter(s.skip(1));
    }
}

/// `c` put in front of the content of a decoded string, if there is one.
pub open spec fn prepend(c: Seq<char>, r: Option<(Seq<char>, Seq<char>)>) -> Option<(Seq<char>, Seq<char>)> {
    match r {
        Some((content, rest)) => Some((c + content, rest)),
        None => None,
    }
}

/// The content of a string literal after its opening quote, with escapes
/// decoded, and the text after the closing quote: `\n`, `\r`, `\t`, `\\`,
/// `\0`, `\'`, `\"`, `\x` with two hexadecimal digits up to `7F`, `\u{...}`
/// of a scalar value, and a backslash before a line break, which skips the
/// whitespace that follows; a carriage return must be followed by a line feed,
/// and the pair reads as a line feed. `None` where the text breaks these rules
/// or has no closing quote.
pub open spec fn cooked_str(s: Seq<char>) -> Option<(Seq<char>, Seq<char>)>
    decreases s.len(),
{
    if s.len() == 0 {
        None
    } else if s[0] == '"' {
        Some((seq![], s.skip(1)))
    } else if s[0] == '\\' {
        if s.len() < 2 {
            None
        } else {
            let b = s[1];
            let rest = s.skip(2);
            if b == 'x' {
                if rest.len() >= 2 && hex_value(rest[0]) >= 0 && hex_value(rest[1]) >= 0 && hex_value(
                    rest[0],
                ) * 16 + hex_value(rest[1]) <= 0x7F {
                    prepend(
                        seq![(hex_value(rest[0]) * 16 + hex_value(rest[1])) as char],
                        cooked_str(rest.skip(2)),
                    )
                } else {
                    None
                }
            } else if b == 'u' {
                if rest.len() > 0 && rest[0] == '{' {
                    proof {
                        lemma_unicode_escape_shorter(rest.skip(1), 0, 0);
                    }
                    match unicode_escape(rest.skip(1), 0, 0) {
                        Some((v, after)) => if is_scalar(v) {
                            prepend(seq![v as char], cooked_str(after))
                        } else {
                            None
                        },
                        None => None,
                    }
                } else {
                    None
                }
            } else if b == 'n' {
                prepend(seq!['\n'], cooked_str(rest))
            } else if b == 'r' {
                prepend(seq!['\r'], cooked_str(rest))
            } else if b == 't' {
                prepend(seq!['\t'], cooked_str(rest))
            } else if b == '\\' || b == '\'' || b == '"' {
                prepend(seq![b], cooked_str(rest))
            } else if b == '0' {
                prepend(seq!['\0'], cooked_str(rest))
            } else if b == '\r' || b == '\n' {
                proof {
                    lemma_skip_ws_shorter(rest);
                }
                cooked_str(skip_ws(rest))
            } else {
                None
            }
        }
    } else if s[0] == '\r' {
        if s.len() >= 2 && s[1] == '\n' {
            prepend(seq!['\n'], cooked_str(s.skip(2)))
        } else {
            None
        }
    } else {
        prepend(seq![s[0]], cooked_str(s.skip(1)))
    }
}

/// The number of `#` at the start of a text.
pub open spec fn leading_pounds(s: Seq<char>) -> nat
    decreases s.len(),
{
    if s.len() > 0 && s[0] == '#' {
        1 + leading_pounds(s.skip(1))
    } else {
        0
    }
}

/// The position of the last `"` in a text, or -1.
pub open spec fn last_quote(s: Seq<char>) -> int
    decreases s.len(),
{
    if s.len() == 0 {
        -1
    } else if s.last() == '"' {
        s.len() - 1
    } else {
        last_quote(s.drop_last())
    }
}

/// The content of a raw string literal after its `r`: as many `#` as
/// open it, a quote, the content up to the last quote, then as many `#`.
pub open spec fn raw_str(s: Seq<char>) -> Option<Seq<char>> {
    let p = leading_pounds(s) as int;
    let c = last_quote(s);
    if p < s.len() && s[p] == '"' && p + 1 <= c && c + 1 + p <= s.len() && (forall|k: int|
        c + 1 <= k < c + 1 + p ==> #[trigger] s[k] == '#') {
        Some(s.subrange(p + 1, c))
    } else {
        None
    }
}

/// The value of a string literal token's text: a quoted string with its
/// escapes decoded, or a raw string's content; any suffix is ignored. `None`
/// for any other literal.
pub open spec fn str_lit_value(t: Seq<char>) -> Option<Seq<char>> {
    if t.len() > 0 && t[0] == '"' {
        match cooked_str(t.skip(1)) {
            Some((content, _)) => Some(content),
            None => None,
        }
    } else if t.len() > 0 && t[0] == 'r' {
        raw_str(t.skip(1))
    } else {
        None
    }
}

/// The character with a given scalar value (`char::from_u32`).
///
/// Trusted: the contract claims what std documents: `None` exactly where the
/// number is not a Unicode scalar value, else the character of that value.
#[verifier::external_body]
fn char_from_u32(v: u32) -> (r: Option<char>)
    ensures
        r is None <==> !is_scalar(v as int),
        r matches Some(c) ==> c == (v as int) as char,
{
    char::from_u32(v)
}

/// The value of a hexadecimal digit, or -1.
fn hex_digit(c: char) -> (r: i32)
    ensures
        r == hex_value(c),
{
    if '0' <= c && c <= '9' {
        (c as u32 - '0' as u32) as i32
    } else if 'a' <= c && c <= 'f' {
        (c as u32 - 'a' as u32 + 10) as i32
    } else if 'A' <= c && c <= 'F' {
        (c as u32 - 'A' as u32 + 10) as i32
    } else {
        -1
    }
}

/// The body of a `\u{...}` escape that starts at position `j`, after the
/// brace: its value and the position after the closing brace.
fn read_unicode_escape(cs: &Vec<char>, j: usize) -> (r: Option<(u32, usize)>)
    requires
        j <= cs.len(),
    ensures
        match r {
            Some((v, k)) => k <= cs.len() && unicode_escape(cs@.skip(j as int), 0, 0) == Some(
                (v as int, cs@.skip(k as int)),
            ),
            None => unicode_escape(cs@.skip(j as int), 0, 0) is None,
        },
{
    let mut k: usize = j;
    let mut digits: u32 = 0;
    let mut acc: u32 = 0;
    while k < cs.len()
        invariant
            j <= k <= cs.len(),
            digits <= 6,
            digits == 0 ==> acc == 0,
            digits <= 1 ==> acc < 0x10,
            digits <= 2 ==> acc < 0x100,
            digits <= 3 ==> acc < 0x1000,
            digits <= 4 ==> acc < 0x10000,
            digits <= 5 ==> acc < 0x100000,
            acc < 0x1000000,
            unicode_escape(cs@.skip(j as int), 0, 0) == unicode_escape(
                cs@.skip(k as int),
                digits as nat,
                acc as int,
            ),
        decreases cs.len() - k,
    {
        let c = cs[k];
        let ghost s = cs@.skip(k as int);
        assert(s[0] == c);
        assert(s.skip(1) =~= cs@.skip(k + 1));
        if c == '_' && digits > 0 {
            k = k + 1;
        } else if c == '}' {
            if digits == 0 {
                return None;
            }
            return Some((acc, k + 1));
        } else {
            let h = hex_digit(c);
            if h >= 0 && digits < 6 {
                acc = acc * 16 + h as u32;
                digits = digits + 1;
                k = k + 1;
            } else {
                return None;
            }
        }
    }
    assert(cs@.skip(k as int).len() == 0);
    None
}

/// The text of an optional character.
pub open spec fn opt_char_seq(o: Option<char>) -> Seq<char> {
    match o {
        Some(c) => seq![c],
        None => seq![],
    }
}

/// One escape of a quoted string literal, whose backslash is at position `i`:
/// the character it gives (none for a line continuation) and the position
/// after it.
fn escape_unit(cs: &Vec<char>, i: usize) -> (r: Option<(Option<char>, usize)>)
    requires
        i < cs.len(),
        cs@[i as int] == '\\',
    ensures
        match r {
            Some((o, k)) => i < k <= cs.len() && cooked_str(cs@.skip(i as int)) == prepend(
                opt_char_seq(o),
                cooked_str(cs@.skip(k as int)),
            ),
            None => cooked_str(cs@.skip(i as int)) is None,
        },
{
    let ghost s = cs@.skip(i as int);
    assert(s[0] == cs@[i as int]);
    if cs.len() - i < 2 {
        return None;
    }
    let b = cs[i + 1];
    let j = i + 2;
    assert(s[1] == b);
    assert(s.skip(2) =~= cs@.skip(j as int));
    let ghost rest = s.skip(2);
    if b == 'x' {
        if cs.len() - j < 2 {
            return None;
        }
        let h0 = hex_digit(cs[j]);
        let h1 = hex_digit(cs[j + 1]);
        assert(rest[0] == cs@[j as int] && rest[1] == cs@[j + 1]);
        if h0 < 0 || h1 < 0 || h0 * 16 + h1 > 0x7F {
            return None;
        }
        let v = (h0 * 16 + h1) as u32;
        match char_from_u32(v) {
            Some(ch) => {
                assert(rest.skip(2) =~= cs@.skip(j + 2));
                Some((Some(ch), j + 2))
            },
            None => None,
        }
    } else if b == 'u' {
        if j >= cs.len() || cs[j] != '{' {
            assert(j < cs.len() ==> rest[0] == cs@[j as int]);
            return None;
        }
        assert(rest[0] == cs@[j as int]);
        assert(rest.skip(1) =~= cs@.skip(j + 1));
        match read_unicode_escape(cs, j + 1) {
            Some((v, k)) => match char_from_u32(v) {
                Some(ch) => {
                    proof {
                        lemma_unicode_escape_shorter(rest.skip(1), 0, 0);
                    }
                    Some((Some(ch), k))
                },
                None => None,
            },
            None => None,
        }
    } else if b == '\r' || b == '\n' {
        let mut k: usize = j;
        while k < cs.len() && (cs[k] == ' ' || cs[k] == '\t' || cs[k] == '\n' || cs[k] == '\r')
            invariant
                j <= k <= cs.len(),
                skip_ws(cs@.skip(j as int)) == skip_ws(cs@.skip(k as int)),
            decreases cs.len() - k,
        {
            assert(cs@.skip(k as int)[0] == cs@[k as int]);
            assert(cs@.skip(k as int).skip(1) =~= cs@.skip(k + 1));
            k = k + 1;
        }
        assert(k < cs.len() ==> cs@.skip(k as int)[0] == cs@[k as int]);
        assert(skip_ws(cs@.skip(k as int)) == cs@.skip(k as int));
        proof {
            lemma_prepend_empty(cooked_str(cs@.skip(k as int)));
        }
        Some((None, k))
    } else {
        let m = if b == 'n' {
            '\n'
        } else if b == 'r' {
            '\r'
        } else if b == 't' {
            '\t'
        } else if b == '\\' || b == '\'' || b == '"' {
            b
        } else if b == '0' {
            '\0'
        } else {
            return None;
        };
        Some((Some(m), j))
    }
}

/// One unit of a quoted string literal at position `i`, which is not the
/// closing quote: the character it gives and the position after it.
fn cooked_unit(cs: &Vec<char>, i: usize) -> (r: Option<(Option<char>, usize)>)
    requires
        i < cs.len(),
        cs@[i as int] != '"',
    ensures
        match r {
            Some((o, k)) => i < k <= cs.len() && cooked_str(cs@.skip(i as int)) == prepend(
                opt_char_seq(o),
                cooked_str(cs@.skip(k as int)),
            ),
            None => cooked_str(cs@.skip(i as int)) is None,
        },
{
    let ghost s = cs@.skip(i as int);
    let c = cs[i];
    assert(s[0] == c);
    if c == '\\' {
        escape_unit(cs, i)
    } else if c == '\r' {
        if cs.len() - i < 2 || cs[i + 1] != '\n' {
            assert(cs.len() - i >= 2 ==> s[1] == cs@[i + 1]);
            return None;
        }
        assert(s[1] == cs@[i + 1]);
        assert(s.skip(2) =~= cs@.skip(i + 2));
        Some((Some('\n'), i + 2))
    } else {
        assert(s.skip(1) =~= cs@.skip(i + 1));
        Some((Some(c), i + 1))
    }
}

/// The content of a quoted string literal whose text starts at position
/// `start`, after the opening quote, with escapes decoded.
fn read_cooked_str(cs: &Vec<char>, start: usize) -> (r: Option<String>)
    requires
        start <= cs.len(),
    ensures
        match r {
            Some(s) => cooked_str(cs@.skip(start as int)) matches Some((c, _)) && c == s@,
            None => cooked_str(cs@.skip(start as int)) is None,
        },
{
    let mut out = String::new();
    let mut i: usize = start;
    proof {
        lemma_prepend_empty(cooked_str(cs@.skip(start as int)));
    }
    while i < cs.len()
        invariant
            start <= i <= cs.len(),
            cooked_str(cs@.skip(start as int)) == prepend(out@, cooked_str(cs@.skip(i as int))),
        decreases cs.len() - i,
    {
        if cs[i] == '"' {
            assert(cs@.skip(i as int)[0] == cs@[i as int]);
            assert(out@ + seq![] =~= out@);
            return Some(out);
        }
        match cooked_unit(cs, i) {
            None => {
                return None;
            },
            Some((o, k)) => {
                proof {
                    lemma_prepend_assoc(out@, opt_char_seq(o), cooked_str(cs@.skip(k as int)));
                }
                match o {
                    Some(ch) => {
                        push_char(&mut out, ch);
                    },
                    None => {
                        assert(out@ + seq![] =~= out@);
                    },
                }
                i = k;
            },
        }
    }
    assert(cs@.skip(i as int).len() == 0);
    None
}

/// Putting nothing in front changes nothing.
proof fn lemma_prepend_empty(r: Option<(Seq<char>, Seq<char>)>)
    ensures
        prepend(seq![], r) == r,
{
    if let Some((content, rest)) = r {
        assert(seq![] + content =~= content);
    }
}

/// Putting two texts in front one after the other puts their concatenation.
proof fn lemma_prepend_assoc(a: Seq<char>, b: Seq<char>, r: Option<(Seq<char>, Seq<char>)>)
    ensures
        prepend(a, prepend(b, r)) == prepend(a + b, r),
{
    if let Some((content, rest)) = r {
        assert(a + (b + content) =~= (a + b) + content);
    }
}

/// The content of a raw string literal whose text after the `r` starts at
/// position `start`.
fn read_raw_str(cs: &Vec<char>, start: usize) -> (r: Option<String>)
    requires
        start <= cs.len(),
    ensures
        match r {
            Some(s) => raw_str(cs@.skip(start as int)) == Some(s@),
            None => raw_str(cs@.skip(start as int)) is None,
        },
{
    let ghost s = cs@.skip(start as int);
    let mut p: usize = 0;
    assert(s.skip(0) =~= s);
    while start + p < cs.len() && cs[start + p] == '#'
        invariant
            start + p <= cs.len(),
            s == cs@.skip(start as int),
            leading_pounds(s) == p + leading_pounds(s.skip(p as int)),
        decreases cs.len() - start - p,
    {
        assert(s.skip(p as int)[0] == cs@[start + p]);
        assert(s.skip(p as int).skip(1) =~= s.skip(p + 1));
        p = p + 1;
    }
    assert(start + p < cs.len() ==> s.skip(p as int)[0] == cs@[start + p]);
    assert(leading_pounds(s.skip(p as int)) == 0);
    let mut c: usize = cs.len();
    assert(s.take(c - start) =~= s);
    while c > start && cs[c - 1] != '"'
        invariant
            start <= c <= cs.len(),
            s == cs@.skip(start as int),
            last_quote(s) == last_quote(s.take(c - start)),
        decreases c,
    {
        assert(s.take(c - start).last() == cs@[c - 1]);
        assert(s.take(c - start).drop_last() =~= s.take(c - 1 - start));
        c = c - 1;
    }
    let ghost q = last_quote(s);
    if c == start {
        assert(s.take(0).len() == 0);
        assert(q == -1);
        return None;
    }
    assert(s.take(c - start).last() == cs@[c - 1]);
    assert(q == c - 1 - start);
    let close = c - 1;
    if !(start + p < cs.len() && cs[start + p] == '"' && start + p + 1 <= close && p <= cs.len() - close - 1) {
        assert(start + p < cs.len() ==> s[p as int] == cs@[start + p]);
        return None;
    }
    assert(s[p as int] == cs@[start + p]);
    let mut k: usize = close + 1;
    while k < close + 1 + p
        invariant
            close + 1 <= k <= close + 1 + p <= cs.len(),
            start <= close,
            s == cs@.skip(start as int),
            q == close - start,
            q == last_quote(s),
            leading_pounds(s) == p,
            forall|m: int| close + 1 <= m < k ==> #[trigger] cs@[m] == '#',
        decreases close + 1 + p - k,
    {
        if cs[k] != '#' {
            assert(s[k - start] == cs@[k as int]);
            assert(!(forall|m: int| q + 1 <= m < q + 1 + p ==> #[trigger] s[m] == '#'));
            return None;
        }
        k = k + 1;
    }
    assert forall|m: int| q + 1 <= m < q + 1 + p implies #[trigger] s[m] == '#' by {
        assert(s[m] == cs@[m + start]);
        assert(cs@[m + start] == '#');
    }
    let mut out = String::new();
    let mut m: usize = start + p + 1;
    while m < close
        invariant
            start + p + 1 <= m <= close,
            close < cs.len(),
            out@ == cs@.subrange((start + p + 1) as int, m as int),
        decreases close - m,
    {
        push_char(&mut out, cs[m]);
        m = m + 1;
    }
    assert(out@ =~= s.subrange(p + 1, q));
    Some(out)
}

/// The value of a string literal token's text.
pub fn str_lit_value_of(t: &str) -> (r: Option<String>)
    ensures
        match r {
            Some(s) => str_lit_value(t@) == Some(s@),
            None => str_lit_value(t@) is None,
        },
{
    let cs = chars_of(t);
    if cs.len() > 0 && cs[0] == '"' {
        read_cooked_str(&cs, 1)
    } else if cs.len() > 0 && cs[0] == 'r' {
        read_raw_str(&cs, 1)
    } else {
        None
    }
}

/// Whether a text is an identifier by its characters alone: it starts with
/// `_` or an XID_Start character and goes on with XID_Continue characters.
pub open spec fn xid_ok(s: Seq<char>) -> bool {
    &&& s.len() > 0
    &&& ident_start(s[0])
    &&& forall|i: int| 1 <= i < s.len() ==> #[trigger] xid_continue(s[i])
}

/// Whether a text is an identifier by its characters alone.
pub fn xid_ok_chars(s: &Vec<char>, from: usize) -> (r: bool)
    requires
        from <= s.len(),
    ensures
        r == xid_ok(s@.skip(from as int)),
{
    let ghost t = s@.skip(from as int);
    if from >= s.len() {
        return false;
    }
    assert(t[0] == s@[from as int]);
    if !(s[from] == '_' || is_xid_start(s[from])) {
        return false;
    }
    let mut i: usize = from + 1;
    while i < s.len()
        invariant
            from + 1 <= i <= s.len(),
            t == s@.skip(from as int),
            forall|k: int| 1 <= k < i - from ==> #[trigger] xid_continue(t[k]),
        decreases s.len() - i,
    {
        assert(t[i - from] == s@[i as int]);
        if !is_xid_continue(s[i]) {
            return false;
        }
        i = i + 1;
    }
    true
}

/// The value of a digit in a base, or -1 where it is not one: `0`-`9`, and
/// `a`-`f` in either case above base ten.
pub open spec fn digit_in(c: char, base: nat) -> int {
    if '0' <= c <= '9' {
        c as int - '0' as int
    } else if base > 10 && hex_value(c) >= 0 {
        hex_value(c)
    } else {
        -1
    }
}

/// The end of an integer literal's digits: the suffix must be empty or an
/// identifier; there must have been a digit.
pub open spec fn int_finish(acc: nat, seen: bool, suffix: Seq<char>) -> Option<nat> {
    if seen && (suffix.len() == 0 || xid_ok(suffix)) {
        Some(acc)
    } else {
        None
    }
}

/// Whether the `e` of a decimal literal starts its suffix, given what follows
/// it: digits after it make an exponent, so a floating-point literal (as do a
/// sign, or digits followed by an identifier).
pub open spec fn e_starts_suffix(t: Seq<char>, has_exp: bool) -> bool
    decreases t.len(),
{
    if t.len() == 0 {
        !has_exp
    } else if t[0] == '_' {
        e_starts_suffix(t.skip(1), has_exp)
    } else if t[0] == '-' || t[0] == '+' {
        false
    } else if '0' <= t[0] <= '9' {
        e_starts_suffix(t.skip(1), true)
    } else {
        !(has_exp && xid_ok(t))
    }
}

/// The value of the digits of an integer literal from `s` on, in `base`, with
/// `acc` read so far: `_` is skipped; in base ten a `.` makes a
/// floating-point literal and an `e` may start an exponent; a digit beyond
/// the base refuses the literal; anything else starts the suffix.
pub open spec fn int_scan(s: Seq<char>, base: nat, acc: nat, seen: bool) -> Option<nat>
    decreases s.len(),
{
    if s.len() == 0 {
        int_finish(acc, seen, s)
    } else if base == 10 && (s[0] == 'e' || s[0] == 'E') {
        if e_starts_suffix(s.skip(1), false) {
            int_finish(acc, seen, s)
        } else {
            None
        }
    } else if digit_in(s[0], base) >= 0 {
        if digit_in(s[0], base) >= base {
            None
        } else {
            int_scan(s.skip(1), base, acc * base + digit_in(s[0], base) as nat, true)
        }
    } else if s[0] == '_' {
        int_scan(s.skip(1), base, acc, seen)
    } else if s[0] == '.' && base == 10 {
        None
    } else {
        int_finish(acc, seen, s)
    }
}

/// The value of an integer literal token's text: `0x`, `0o` and `0b` give
/// bases 16, 8 and 2, a leading decimal digit base ten; `None` for any other
/// literal.
pub open spec fn int_lit_value(t: Seq<char>) -> Option<nat> {
    if t.len() >= 2 && t[0] == '0' && t[1] == 'x' {
        int_scan(t.skip(2), 16, 0, false)
    } else if t.len() >= 2 && t[0] == '0' && t[1] == 'o' {
        int_scan(t.skip(2), 8, 0, false)
    } else if t.len() >= 2 && t[0] == '0' && t[1] == 'b' {
        int_scan(t.skip(2), 2, 0, false)
    } else if t.len() > 0 && '0' <= t[0] <= '9' {
        int_scan(t, 10, 0, false)
    } else {
        None
    }
}

/// Whether the `e` of a decimal literal at position `i` starts its suffix.
fn e_starts_suffix_at(cs: &Vec<char>, i: usize) -> (r: bool)
    requires
        i < cs.len(),
    ensures
        r == e_starts_suffix(cs@.skip(i + 1), false),
{
    let mut j: usize = i + 1;
    let mut has_exp = false;
    while j < cs.len()
        invariant
            i + 1 <= j <= cs.len(),
            e_starts_suffix(cs@.skip(i + 1), false) == e_starts_suffix(cs@.skip(j as int), has_exp),
        decreases cs.len() - j,
    {
        let c = cs[j];
        assert(cs@.skip(j as int)[0] == c);
        assert(cs@.skip(j as int).skip(1) =~= cs@.skip(j + 1));
        if c == '_' {
        } else if c == '-' || c == '+' {
            return false;
        } else if '0' <= c && c <= '9' {
            has_exp = true;
        } else {
            return !(has_exp && xid_ok_chars(cs, j));
        }
        j = j + 1;
    }
    !has_exp
}

/// The value of a digit in a base, or -1.
fn digit_in_base(c: char, base: u32) -> (r: i32)
    ensures
        r == digit_in(c, base as nat),
{
    if '0' <= c && c <= '9' {
        (c as u32 - '0' as u32) as i32
    } else if base > 10 {
        hex_digit(c)
    } else {
        -1
    }
}

/// The value of an integer literal token's text: `None` where the text is
/// not an integer literal, `Some(None)` where its value does not fit in
/// `usize`.
pub fn int_lit_value_of(t: &str) -> (r: Option<Option<usize>>)
    ensures
        match r {
            None => int_lit_value(t@) is None,
            Some(None) => int_lit_value(t@) matches Some(v) && v > usize::MAX,
            Some(Some(v)) => int_lit_value(t@) == Some(v as nat),
        },
{
    let cs = chars_of(t);
    let (base, start): (u32, usize) = if cs.len() >= 2 && cs[0] == '0' && cs[1] == 'x' {
        (16, 2)
    } else if cs.len() >= 2 && cs[0] == '0' && cs[1] == 'o' {
        (8, 2)
    } else if cs.len() >= 2 && cs[0] == '0' && cs[1] == 'b' {
        (2, 2)
    } else if cs.len() > 0 && '0' <= cs[0] && cs[0] <= '9' {
        (10, 0)
    } else {
        return None;
    };
    assert(cs@.skip(0) =~= cs@);
    let mut i: usize = start;
    let mut acc: usize = 0;
    let mut big = false;
    let mut seen = false;
    let ghost mut acc_g: nat = 0;
    while i < cs.len()
        invariant
            start <= i <= cs.len(),
            base == 2 || base == 8 || base == 10 || base == 16,
            int_lit_value(t@) == int_scan(cs@.skip(i as int), base as nat, acc_g, seen),
            !big ==> acc == acc_g,
            big ==> acc_g > usize::MAX,
        decreases cs.len() - i,
    {
        let ghost s = cs@.skip(i as int);
        let c = cs[i];
        assert(s[0] == c);
        assert(s.skip(1) =~= cs@.skip(i + 1));
        if base == 10 && (c == 'e' || c == 'E') {
            if !e_starts_suffix_at(&cs, i) {
                return None;
            }
            if !(seen && xid_ok_chars(&cs, i)) {
                return None;
            }
            return Some(if big { None } else { Some(acc) });
        }
        let d = digit_in_base(c, base);
        if d >= 0 {
            if d as u32 >= base {
                return None;
            }
            proof {
                let b = base as nat;
                let dd = d as nat;
                assert(acc_g * b + dd >= acc_g) by (nonlinear_arith)
                    requires
                        b >= 2,
                ;
                acc_g = acc_g * b + dd;
            }
            if !big {
                match acc.checked_mul(base as usize) {
                    Some(m) => match m.checked_add(d as usize) {
                        Some(v) => {
                            acc = v;
                        },
                        None => {
                            big = true;
                        },
                    },
                    None => {
                        assert(acc * base + d > usize::MAX) by (nonlinear_arith)
                            requires
                                acc * base > usize::MAX,
                                d >= 0,
                        ;
                        big = true;
                    },
                }
            }
            seen = true;
        } else if c == '_' {
        } else if c == '.' && base == 10 {
            return None;
        } else {
            if !seen || !xid_ok_chars(&cs, i) {
                return None;
            }
            return Some(if big { None } else { Some(acc) });
        }
        i = i + 1;
    }
    assert(cs@.skip(i as int).len() == 0);
    if !seen {
        return None;
    }
    Some(if big { None } else { Some(acc) })
}

} // verus!
