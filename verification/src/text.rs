//! Specification-level model of the source text: character classes,
//! line/column arithmetic, maximal character runs, and the escape-sequence
//! decoding relation used by templates.

use vstd::prelude::*;

verus! {

/// Horizontal whitespace: space or tab.
pub open spec fn is_space(c: char) -> bool {
    c == ' ' || c == '\t'
}

/// A character of a variable name: ASCII letter, digit or underscore.
pub open spec fn is_ident_char(c: char) -> bool {
    ('a' <= c && c <= 'z') || ('A' <= c && c <= 'Z') || ('0' <= c && c <= '9') || c == '_'
}

/// A character of a cookie-attribute name: ASCII letter or hyphen.
pub open spec fn is_attr_char(c: char) -> bool {
    ('a' <= c && c <= 'z') || ('A' <= c && c <= 'Z') || c == '-'
}

/// An ASCII hexadecimal digit.
pub open spec fn is_hex_digit(c: char) -> bool {
    ('0' <= c && c <= '9') || ('a' <= c && c <= 'f') || ('A' <= c && c <= 'F')
}

/// The numeric value of a hexadecimal digit.
pub open spec fn hex_val(c: char) -> int {
    if '0' <= c && c <= '9' {
        c as int - '0' as int
    } else if 'a' <= c && c <= 'f' {
        10 + c as int - 'a' as int
    } else {
        10 + c as int - 'A' as int
    }
}

/// `lit` occurs in `s` starting at index `n`.
pub open spec fn starts_with_at(s: Seq<char>, n: int, lit: Seq<char>) -> bool {
    0 <= n && n + lit.len() <= s.len() && s.subrange(n, n + lit.len()) == lit
}

/// A non-empty literal fixes the character at its start.
pub proof fn lemma_starts_with_first(s: Seq<char>, n: int, lit: Seq<char>)
    requires
        starts_with_at(s, n, lit),
        lit.len() > 0,
    ensures
        s[n] == lit[0],
{
    assert(s.subrange(n, n + lit.len() as int)[0] == s[n]);
}

/// The end of the maximal run of characters satisfying `p` that begins at
/// index `n`: the first index at or after `n` whose character fails `p`,
/// or `s.len()` if every character from `n` on satisfies `p`.
pub open spec fn run_end(s: Seq<char>, n: int, p: spec_fn(char) -> bool) -> int
    decreases s.len() - n,
{
    if n < 0 || n >= s.len() {
        n
    } else if p(s[n]) {
        run_end(s, n + 1, p)
    } else {
        n
    }
}

/// Bounds and characterization of `run_end`.
pub proof fn lemma_run_end(s: Seq<char>, n: int, p: spec_fn(char) -> bool)
    requires
        0 <= n <= s.len(),
    ensures
        n <= run_end(s, n, p) <= s.len(),
        forall|i: int| n <= i < run_end(s, n, p) ==> p(s[i]),
        run_end(s, n, p) < s.len() ==> !p(s[run_end(s, n, p)]),
    decreases s.len() - n,
{
    if n < s.len() && p(s[n]) {
        lemma_run_end(s, n + 1, p);
    }
}

/// A run is insensitive to what lies beyond it: stepping inside the run
/// does not change where it ends.
pub proof fn lemma_run_end_step(s: Seq<char>, n: int, p: spec_fn(char) -> bool)
    requires
        0 <= n < s.len(),
        p(s[n]),
    ensures
        run_end(s, n, p) == run_end(s, n + 1, p),
{
}

// ---------------------------------------------------------------------------
// Line/column positions.
// ---------------------------------------------------------------------------

/// The position after consuming character `c` at position `p`
/// (`p` is a pair `(line, column)`, both 1-based).
pub open spec fn next_pos(p: (int, int), c: char) -> (int, int) {
    if c == '\n' {
        (p.0 + 1, 1)
    } else {
        (p.0, p.1 + 1)
    }
}

/// The position after consuming the characters of `s`, starting at `p`.
pub open spec fn pos_after(p: (int, int), s: Seq<char>) -> (int, int)
    decreases s.len(),
{
    if s.len() == 0 {
        p
    } else {
        pos_after(next_pos(p, s[0]), s.drop_first())
    }
}

/// Consuming exactly two characters.
pub proof fn lemma_pos_after_two(p: (int, int), c1: char, c2: char)
    ensures
        pos_after(p, seq![c1, c2]) == next_pos(next_pos(p, c1), c2),
{
    assert(seq![c1, c2].drop_first() =~= seq![c2]);
    assert(seq![c2].drop_first() =~= Seq::<char>::empty());
    assert(pos_after(p, seq![c1, c2]) == pos_after(next_pos(p, c1), seq![c2]));
    assert(pos_after(next_pos(p, c1), seq![c2]) == pos_after(
        next_pos(next_pos(p, c1), c2),
        Seq::<char>::empty(),
    ));
}

/// Lexicographic order on positions.
pub open spec fn pos_le(a: (int, int), b: (int, int)) -> bool {
    a.0 < b.0 || (a.0 == b.0 && a.1 <= b.1)
}

/// Consuming a concatenation is consuming the parts in order.
pub proof fn lemma_pos_after_app(p: (int, int), s1: Seq<char>, s2: Seq<char>)
    ensures
        pos_after(p, s1 + s2) == pos_after(pos_after(p, s1), s2),
    decreases s1.len(),
{
    if s1.len() == 0 {
        assert(s1 + s2 =~= s2);
    } else {
        assert((s1 + s2).drop_first() =~= s1.drop_first() + s2);
        lemma_pos_after_app(next_pos(p, s1[0]), s1.drop_first(), s2);
    }
}

/// Consuming one more character at the end.
pub proof fn lemma_pos_after_push(p: (int, int), s: Seq<char>, c: char)
    ensures
        pos_after(p, s.push(c)) == next_pos(pos_after(p, s), c),
    decreases s.len(),
{
    if s.len() == 0 {
        assert(s.push(c)[0] == c);
        assert(s.push(c).drop_first() =~= Seq::<char>::empty());
        assert(pos_after(p, s.push(c)) == pos_after(
            next_pos(p, c),
            Seq::<char>::empty(),
        ));
    } else {
        assert(s.push(c)[0] == s[0]);
        assert(s.push(c).drop_first() =~= s.drop_first().push(c));
        lemma_pos_after_push(next_pos(p, s[0]), s.drop_first(), c);
        assert(pos_after(p, s.push(c)) == pos_after(
            next_pos(p, s[0]),
            s.drop_first().push(c),
        ));
        assert(pos_after(p, s) == pos_after(next_pos(p, s[0]), s.drop_first()));
    }
}

/// Positions only move forward: the position after consuming text is at
/// or beyond the position before, in lexicographic line/column order.
pub proof fn lemma_pos_after_le(p: (int, int), s: Seq<char>)
    requires
        p.1 >= 1,
    ensures
        pos_le(p, pos_after(p, s)),
        pos_after(p, s).1 >= 1,
    decreases s.len(),
{
    if s.len() > 0 {
        lemma_pos_after_le(next_pos(p, s[0]), s.drop_first());
    }
}

// ---------------------------------------------------------------------------
// Escape sequences.
// ---------------------------------------------------------------------------

/// The character denoted by the single-character escape `\c`, if any.
pub open spec fn esc_char(c: char) -> Option<char> {
    if c == '"' {
        Some('"')
    } else if c == '\\' {
        Some('\\')
    } else if c == '/' {
        Some('/')
    } else if c == 'b' {
        Some('\u{08}')
    } else if c == 'f' {
        Some('\u{0C}')
    } else if c == 'n' {
        Some('\n')
    } else if c == 'r' {
        Some('\r')
    } else if c == 't' {
        Some('\t')
    } else {
        None
    }
}

/// The value of the four hexadecimal digits at `s[n .. n+4]`.
pub open spec fn hex4_val(s: Seq<char>, n: int) -> int {
    ((hex_val(s[n]) * 16 + hex_val(s[n + 1])) * 16 + hex_val(s[n + 2])) * 16 + hex_val(s[n + 3])
}

/// The four characters at `s[n .. n+4]` are hexadecimal digits.
pub open spec fn hex4_ok(s: Seq<char>, n: int) -> bool {
    0 <= n && n + 4 <= s.len() && is_hex_digit(s[n]) && is_hex_digit(s[n + 1]) && is_hex_digit(
        s[n + 2],
    ) && is_hex_digit(s[n + 3])
}

/// A Unicode scalar value expressible by four hexadecimal digits:
/// anything below 0x10000 except the surrogate range.
pub open spec fn is_scalar4(v: int) -> bool {
    0 <= v < 0xD800 || 0xE000 <= v < 0x10000
}

/// The length of the escape sequence starting at `s[n]` (which must be
/// a backslash): 2 for a single-character escape, 6 for `\uXXXX`,
/// `None` if the backslash does not begin a valid escape.
pub open spec fn escape_len(s: Seq<char>, n: int) -> Option<int> {
    if n + 2 <= s.len() && esc_char(s[n + 1]) is Some {
        Some(2)
    } else if n + 6 <= s.len() && s[n + 1] == 'u' && hex4_ok(s, n + 2) && is_scalar4(
        hex4_val(s, n + 2),
    ) {
        Some(6)
    } else {
        None
    }
}

/// The length of the `{{ ... }}` expression starting at `s[n]`: two
/// braces, optional spaces, a non-empty variable name, optional spaces,
/// two closing braces; `None` if the text at `n` is not such an
/// expression.
pub open spec fn expr_len(s: Seq<char>, n: int) -> Option<int> {
    if starts_with_at(s, n, seq!['{', '{']) {
        let a = run_end(s, n + 2, |ch: char| is_space(ch));
        let b = run_end(s, a, |ch: char| is_ident_char(ch));
        let d = run_end(s, b, |ch: char| is_space(ch));
        if b > a && starts_with_at(s, d, seq!['}', '}']) {
            Some(d + 2 - n)
        } else {
            None
        }
    } else {
        None
    }
}

/// Recognizer for the tail of a quoted template: starting just inside
/// the quotes at index `n`, the index right after the closing quote, or
/// `None` if no well-formed template body ends in a closing quote.
/// Literal characters pass; a backslash must begin a valid escape; two
/// open braces must begin a valid expression.
pub open spec fn qt_end(s: Seq<char>, n: int) -> Option<int>
    decreases s.len() - n,
{
    if n < 0 || n >= s.len() {
        None
    } else if s[n] == '"' {
        Some(n + 1)
    } else if s[n] == '\\' {
        match escape_len(s, n) {
            Some(k) => qt_end(s, n + k),
            None => None,
        }
    } else if starts_with_at(s, n, seq!['{', '{']) {
        match expr_len(s, n) {
            // an expression is at least five characters long; the lower
            // clamp only discharges the termination measure
            Some(k) => qt_end(s, n + (if k < 1 { 1 } else { k })),
            None => None,
        }
    } else {
        qt_end(s, n + 1)
    }
}

/// `val` is the decoding of the escaped text `enc`: each backslash in
/// `enc` begins a valid escape sequence, and `val` holds the denoted
/// characters, other characters passing through unchanged.
pub open spec fn decodes_to(enc: Seq<char>, val: Seq<char>) -> bool
    decreases enc.len(),
{
    if enc.len() == 0 {
        val.len() == 0
    } else if enc[0] == '\\' {
        match escape_len(enc, 0) {
            Some(k) => {
                val.len() > 0 && (if k == 2 {
                    val[0] == esc_char(enc[1]).unwrap()
                } else {
                    val[0] as int == hex4_val(enc, 2)
                }) && decodes_to(enc.skip(k), val.drop_first())
            },
            None => false,
        }
    } else {
        val.len() > 0 && val[0] == enc[0] && decodes_to(enc.drop_first(), val.drop_first())
    }
}

/// Decoding concatenates: if `e1` decodes to `v1` and `e2` to `v2`,
/// their concatenation decodes to the concatenation of the values.
pub proof fn lemma_decodes_app(e1: Seq<char>, v1: Seq<char>, e2: Seq<char>, v2: Seq<char>)
    requires
        decodes_to(e1, v1),
        decodes_to(e2, v2),
    ensures
        decodes_to(e1 + e2, v1 + v2),
    decreases e1.len(),
{
    if e1.len() == 0 {
        assert(e1 + e2 =~= e2);
        assert(v1 + v2 =~= v2);
    } else {
        let e = e1 + e2;
        assert(e[0] == e1[0]);
        if e1[0] == '\\' {
            let k = escape_len(e1, 0).unwrap();
            if e1.len() >= 2 {
                assert(e[1] == e1[1]);
            }
            if k == 6 {
                assert(escape_len(e1, 0) == Some(6int));
                assert(hex4_ok(e1, 2));
                assert(e[2] == e1[2] && e[3] == e1[3] && e[4] == e1[4] && e[5] == e1[5]);
                assert(hex4_ok(e, 2));
                assert(hex4_val(e, 2) == hex4_val(e1, 2));
                assert(!(esc_char(e[1]) is Some));
                assert(escape_len(e, 0) == Some(6int));
            } else {
                assert(escape_len(e, 0) == Some(2int));
            }
            assert(e.skip(k) =~= e1.skip(k) + e2);
            assert((v1 + v2).drop_first() =~= v1.drop_first() + v2);
            lemma_decodes_app(e1.skip(k), v1.drop_first(), e2, v2);
        } else {
            assert(e.drop_first() =~= e1.drop_first() + e2);
            assert((v1 + v2).drop_first() =~= v1.drop_first() + v2);
            lemma_decodes_app(e1.drop_first(), v1.drop_first(), e2, v2);
        }
    }
}

} // verus!
