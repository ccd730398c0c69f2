//! Parser for cookie paths: a cookie name optionally followed by a
//! bracketed attribute (`Foo[Domain]`). The attribute name is matched
//! case-insensitively (ASCII) and kept exactly as written.

use vstd::prelude::*;
use vstd::string::StrSliceExecFns;
use vstd::string::StringExecFns;

use crate::ast::{
    is_name_template_at, is_whitespace_at, CookieAttribute, CookieAttributeName, CookiePath,
    SourceInfo, Template, TemplateElement,
};
use crate::primitives::{
    class_pred, read_while, zero_or_more_spaces, CharClass, Error, ParseError, ParseResult,
};
use crate::reader::Reader;
use crate::strutil::{char_from_u32, push_char};
use crate::text::{
    is_attr_char, is_space, lemma_pos_after_push, lemma_run_end, next_pos, pos_after, run_end,
};

verus! {

/// The ASCII-lowercased code of a character.
pub open spec fn lower_code(c: char) -> int {
    if 'A' <= c && c <= 'Z' {
        c as int + 32
    } else {
        c as int
    }
}

/// `s` equals `lit` up to ASCII case (`lit` is lowercase).
pub open spec fn attr_eq(s: Seq<char>, lit: Seq<char>) -> bool {
    s.len() == lit.len() && forall|i: int| 0 <= i < s.len() ==> lower_code(s[i]) == #[trigger] (
    lit[i]) as int
}

/// `s` is one of the known cookie-attribute names, up to case.
pub open spec fn known_attr(s: Seq<char>) -> bool {
    ||| attr_eq(s, "value"@)
    ||| attr_eq(s, "expires"@)
    ||| attr_eq(s, "max-age"@)
    ||| attr_eq(s, "domain"@)
    ||| attr_eq(s, "path"@)
    ||| attr_eq(s, "secure"@)
    ||| attr_eq(s, "httponly"@)
    ||| attr_eq(s, "samesite"@)
}

/// The attribute node carries the written text `s`, under the variant
/// its lowercase form selects.
pub open spec fn cookie_attr_name_ok(n: CookieAttributeName, s: Seq<char>) -> bool {
    match n {
        CookieAttributeName::Value(t) => t@ == s && attr_eq(s, "value"@),
        CookieAttributeName::Expires(t) => t@ == s && attr_eq(s, "expires"@),
        CookieAttributeName::MaxAge(t) => t@ == s && attr_eq(s, "max-age"@),
        CookieAttributeName::Domain(t) => t@ == s && attr_eq(s, "domain"@),
        CookieAttributeName::Path(t) => t@ == s && attr_eq(s, "path"@),
        CookieAttributeName::Secure(t) => t@ == s && attr_eq(s, "secure"@),
        CookieAttributeName::HttpOnly(t) => t@ == s && attr_eq(s, "httponly"@),
        CookieAttributeName::SameSite(t) => t@ == s && attr_eq(s, "samesite"@),
    }
}

/// The bracketed attribute `a` covers `s[nb .. c1]` starting at
/// position `p`: `[`, spaces, a known attribute name, spaces, `]`.
pub open spec fn is_cookie_attr_at(
    a: CookieAttribute,
    s: Seq<char>,
    nb: int,
    c1: int,
    p: (int, int),
) -> bool {
    let a0 = nb + 1;
    let sp0e = run_end(s, a0, |ch: char| is_space(ch));
    let ne = run_end(s, sp0e, |ch: char| is_attr_char(ch));
    let sp1e = run_end(s, ne, |ch: char| is_space(ch));
    &&& 0 <= nb < s.len() && s[nb] == '['
    &&& is_whitespace_at(a.space0, s, a0, sp0e, (p.0, p.1 + 1))
    &&& ne > sp0e
    &&& cookie_attr_name_ok(a.name, s.subrange(sp0e, ne))
    &&& is_whitespace_at(a.space1, s, ne, sp1e, pos_after((p.0, p.1 + 1), s.subrange(a0, ne)))
    &&& sp1e < s.len() && s[sp1e] == ']'
    &&& c1 == sp1e + 1
}

/// Why a cookie path fails: a `[` is present, but what follows is no
/// well-formed bracketed attribute.
pub open spec fn cookiepath_fails(s: Seq<char>, c0: int) -> bool {
    let nb = run_end(s, c0, |ch: char| ch != '[');
    let a0 = nb + 1;
    let sp0e = run_end(s, a0, |ch: char| is_space(ch));
    let ne = run_end(s, sp0e, |ch: char| is_attr_char(ch));
    let sp1e = run_end(s, ne, |ch: char| is_space(ch));
    &&& nb < s.len()
    &&& (ne == sp0e || !known_attr(s.subrange(sp0e, ne)) || sp1e == s.len() || s[sp1e] != ']')
}

/// Where a successful cookie-path parse leaves the cursor: at the end
/// of `s` when no `[` occurs, else just past the closing `]`.
pub open spec fn cookiepath_end(s: Seq<char>, c0: int) -> int {
    let nb = run_end(s, c0, |ch: char| ch != '[');
    if nb == s.len() {
        nb
    } else {
        let sp0e = run_end(s, nb + 1, |ch: char| is_space(ch));
        let ne = run_end(s, sp0e, |ch: char| is_attr_char(ch));
        let sp1e = run_end(s, ne, |ch: char| is_space(ch));
        sp1e + 1
    }
}

/// `cp` is the cookie path parsed from `s[c0 .. c1]` at position `p`:
/// the name template covers everything before the first `[` (or all of
/// `s`), and the attribute, if a `[` follows, covers the brackets.
pub open spec fn is_cookiepath_at(cp: CookiePath, s: Seq<char>, c0: int, c1: int, p: (int, int)) -> bool {
    let nb = run_end(s, c0, |ch: char| ch != '[');
    &&& is_name_template_at(cp.name, s, c0, nb, p)
    &&& if nb == s.len() {
        cp.attribute is None && c1 == nb
    } else {
        cp.attribute matches Some(a) && is_cookie_attr_at(
            a,
            s,
            nb,
            c1,
            pos_after(p, s.subrange(c0, nb)),
        )
    }
}

/// Case folding relates the written name to its lowercase form, so the
/// exec comparison against a lowercase literal decides `attr_eq`.
proof fn lemma_attr_eq_iff(sub: Seq<char>, low: Seq<char>, lit: Seq<char>)
    requires
        low.len() == sub.len(),
        forall|i: int| 0 <= i < sub.len() ==> (#[trigger] low[i]) as int == lower_code(sub[i]),
    ensures
        attr_eq(sub, lit) <==> low == lit,
{
    if attr_eq(sub, lit) {
        assert(low =~= lit) by {
            assert forall|i: int| 0 <= i < low.len() implies low[i] == lit[i] by {
                assert(low[i] as int == lower_code(sub[i]));
                assert(lower_code(sub[i]) == lit[i] as int);
            }
        }
    }
    if low == lit {
        assert(attr_eq(sub, lit));
    }
}

/// ASCII-lowercase a string, other characters passing unchanged.
#[verifier::loop_isolation(false)]
fn lower_ascii(s: &String) -> (r: String)
    ensures
        r@.len() == s@.len(),
        forall|i: int| 0 <= i < s@.len() ==> (#[trigger] r@[i]) as int == lower_code(s@[i]),
{
    let mut r = String::new();
    let n = s.as_str().unicode_len();
    let mut i: usize = 0;
    while i < n
        invariant
            i <= n,
            n == s@.len(),
            r@.len() == i,
            forall|m: int| 0 <= m < i ==> (#[trigger] r@[m]) as int == lower_code(s@[m]),
        decreases n - i,
    {
        let c = s.as_str().get_char(i);
        if 'A' <= c && c <= 'Z' {
            if let Some(d) = char_from_u32((c as u32) + 32) {
                push_char(&mut r, d);
            } else {
                proof {
                    assert(false);
                }
            }
        } else {
            push_char(&mut r, c);
        }
        i = i + 1;
    }
    r
}

/// Map a written attribute name to its variant, case-insensitively.
fn attr_name_of(text: String) -> (r: Option<CookieAttributeName>)
    ensures
        match r {
            Some(n) => cookie_attr_name_ok(n, text@) && known_attr(text@),
            None => !known_attr(text@),
        },
{
    let low = lower_ascii(&text);
    proof {
        lemma_attr_eq_iff(text@, low@, "value"@);
        lemma_attr_eq_iff(text@, low@, "expires"@);
        lemma_attr_eq_iff(text@, low@, "max-age"@);
        lemma_attr_eq_iff(text@, low@, "domain"@);
        lemma_attr_eq_iff(text@, low@, "path"@);
        lemma_attr_eq_iff(text@, low@, "secure"@);
        lemma_attr_eq_iff(text@, low@, "httponly"@);
        lemma_attr_eq_iff(text@, low@, "samesite"@);
    }
    if low == String::from_str("value") {
        Some(CookieAttributeName::Value(text))
    } else if low == String::from_str("expires") {
        Some(CookieAttributeName::Expires(text))
    } else if low == String::from_str("max-age") {
        Some(CookieAttributeName::MaxAge(text))
    } else if low == String::from_str("domain") {
        Some(CookieAttributeName::Domain(text))
    } else if low == String::from_str("path") {
        Some(CookieAttributeName::Path(text))
    } else if low == String::from_str("secure") {
        Some(CookieAttributeName::Secure(text))
    } else if low == String::from_str("httponly") {
        Some(CookieAttributeName::HttpOnly(text))
    } else if low == String::from_str("samesite") {
        Some(CookieAttributeName::SameSite(text))
    } else {
        None
    }
}

/// Parse a cookie path: everything up to the first `[` is the cookie
/// name (an unquoted literal template, possibly empty); a `[`, if
/// present, must open a well-formed `[Attribute]`. Trailing text after
/// the closing bracket is left unconsumed. On failure the reader is
/// restored.
pub fn cookiepath(reader: &mut Reader) -> (r: ParseResult<CookiePath>)
    requires
        old(reader).wf(),
    ensures
        final(reader).wf(),
        final(reader).buffer@ == old(reader).buffer@,
        ({
            let s = old(reader).buffer@;
            let c0 = old(reader).state.cursor as int;
            let p0 = old(reader).state.pos@;
            match r {
                Ok(cp) => {
                    &&& !cookiepath_fails(s, c0)
                    &&& final(reader).state.cursor as int == cookiepath_end(s, c0)
                    &&& is_cookiepath_at(cp, s, c0, final(reader).state.cursor as int, p0)
                    &&& final(reader).state.pos@ == pos_after(
                        p0,
                        s.subrange(c0, final(reader).state.cursor as int),
                    )
                },
                Err(err) => {
                    &&& final(reader).state == old(reader).state
                    &&& cookiepath_fails(s, c0)
                    &&& !err.recoverable
                },
            }
        }),
{
    let ghost s = reader.buffer@;
    let ghost c0 = reader.state.cursor as int;
    let ghost p0 = reader.state.pos@;
    let saved = reader.state;
    proof {
        assert(class_pred(CharClass::CookieName) =~= (|ch: char| ch != '['));
        assert(class_pred(CharClass::Space) =~= (|ch: char| is_space(ch)));
        assert(class_pred(CharClass::Attr) =~= (|ch: char| is_attr_char(ch)));
    }
    let nstart = reader.state.pos;
    let name_text = read_while(CharClass::CookieName, reader);
    let ghost nb = reader.state.cursor as int;
    let name_empty = name_text.as_str().is_empty();
    let name = Template {
        quotes: false,
        elements: if name_empty {
            Vec::new()
        } else {
            let mut es: Vec<TemplateElement> = Vec::new();
            let encoded = name_text.clone();
            es.push(TemplateElement::Literal { value: name_text, encoded });
            es
        },
        source_info: SourceInfo { start: nstart, end: reader.state.pos },
    };
    proof {
        lemma_run_end(s, c0, class_pred(CharClass::CookieName));
        if name_empty {
            assert(crate::ast::elems_encoded(name.elements@, 0) =~= s.subrange(c0, nb));
        } else {
            assert(name.elements@.len() == 1);
            assert(crate::ast::elems_encoded(name.elements@, 1) =~= Seq::<char>::empty());
            assert(crate::ast::elems_encoded(name.elements@, 0) =~= s.subrange(c0, nb));
        }
        assert(is_name_template_at(name, s, c0, nb, p0));
    }
    if reader.is_eof() {
        proof {
            assert(nb == s.len());
        }
        return Ok(CookiePath { name, attribute: None });
    }
    // a '[' follows: parse the bracketed attribute
    let ghost pnb = reader.state.pos@;
    let _ = reader.read();
    proof {
        assert(s[nb] == '[');
        assert(s.subrange(c0, nb + 1) =~= s.subrange(c0, nb).push('['));
        lemma_pos_after_push(p0, s.subrange(c0, nb), '[');
    }
    let space0 = zero_or_more_spaces(reader);
    let ghost sp0e = reader.state.cursor as int;
    let attr_text = read_while(CharClass::Attr, reader);
    let ghost ne = reader.state.cursor as int;
    proof {
        lemma_run_end(s, nb + 1, class_pred(CharClass::Space));
        lemma_run_end(s, sp0e, class_pred(CharClass::Attr));
    }
    if attr_text.as_str().is_empty() {
        reader.state = saved;
        return Err(
            Error { pos: saved.pos, recoverable: false, inner: ParseError::CookieAttribute {} },
        );
    }
    let kind = attr_name_of(attr_text);
    match kind {
        None => {
            reader.state = saved;
            return Err(
                Error {
                    pos: saved.pos,
                    recoverable: false,
                    inner: ParseError::CookieAttribute {},
                },
            );
        },
        Some(aname) => {
            let space1 = zero_or_more_spaces(reader);
            let ghost sp1e = reader.state.cursor as int;
            if reader.is_eof() {
                reader.state = saved;
                return Err(
                    Error { pos: saved.pos, recoverable: false, inner: ParseError::Eof {} },
                );
            }
            let close = reader.read();
            if close != ']' {
                reader.state = saved;
                return Err(
                    Error {
                        pos: saved.pos,
                        recoverable: false,
                        inner: ParseError::CookieAttribute {},
                    },
                );
            }
            let attribute = CookieAttribute { space0, name: aname, space1 };
            proof {
                let pb = (pnb.0, pnb.1 + 1);
                assert(seq!['['].drop_first() =~= Seq::<char>::empty());
                assert(seq!['['][0] == '[');
                assert(pos_after(pnb, seq!['[']) == pos_after(
                    next_pos(pnb, '['),
                    Seq::<char>::empty(),
                ));
                assert(pos_after(next_pos(pnb, '['), Seq::<char>::empty()) == next_pos(pnb, '['));
                assert(pos_after(pnb, seq!['[']) == pb);
                assert(s.subrange(nb + 1, ne) =~= s.subrange(nb + 1, sp0e) + s.subrange(
                    sp0e,
                    ne,
                ));
                crate::text::lemma_pos_after_app(
                    pb,
                    s.subrange(nb + 1, sp0e),
                    s.subrange(sp0e, ne),
                );
                assert(is_cookie_attr_at(attribute, s, nb, sp1e + 1, pnb));
                assert(s.subrange(nb + 1, sp1e) =~= s.subrange(nb + 1, sp0e) + (s.subrange(
                    sp0e,
                    ne,
                ) + s.subrange(ne, sp1e)));
                crate::text::lemma_pos_after_app(
                    pb,
                    s.subrange(nb + 1, sp0e),
                    s.subrange(sp0e, ne) + s.subrange(ne, sp1e),
                );
                crate::text::lemma_pos_after_app(
                    pos_after(pb, s.subrange(nb + 1, sp0e)),
                    s.subrange(sp0e, ne),
                    s.subrange(ne, sp1e),
                );
                assert(s.subrange(nb, sp1e) =~= seq!['['] + s.subrange(nb + 1, sp1e));
                crate::text::lemma_pos_after_app(pnb, seq!['['], s.subrange(nb + 1, sp1e));
                assert(s.subrange(c0, sp1e) =~= s.subrange(c0, nb) + s.subrange(nb, sp1e));
                crate::text::lemma_pos_after_app(p0, s.subrange(c0, nb), s.subrange(nb, sp1e));
                assert(s.subrange(c0, sp1e + 1) =~= s.subrange(c0, sp1e).push(']'));
                lemma_pos_after_push(p0, s.subrange(c0, sp1e), ']');
            }
            Ok(CookiePath { name, attribute: Some(attribute) })
        },
    }
}

} // verus!
