//! Parsers for double-quoted strings and double-quoted templates: literal
//! runs with escape sequences, interleaved with `{{ ... }}` variable
//! expressions. Both the decoded value and the verbatim encoded form of
//! every literal are retained so formatters can round-trip the input.

use vstd::prelude::*;

use crate::ast::{
    elem_encoded, elem_spans_ok, elem_wf, elems_encoded, elems_merged, elems_spans_ok, elems_wf,
    is_quoted_template_at, lemma_elems_encoded_push, lemma_elems_spans_push, Expr, SourceInfo,
    Template, TemplateElement, Variable,
};
use crate::primitives::{
    class_pred, read_while, try_literal, zero_or_more_spaces, CharClass, Error, ParseError,
    ParseResult,
};
use crate::reader::Reader;
use crate::strutil::{char_from_u32, push_char};
use crate::text::{
    decodes_to, esc_char, escape_len, expr_len, hex4_ok, hex4_val, hex_val, is_hex_digit,
    is_ident_char, is_scalar4, is_space, lemma_decodes_app, lemma_pos_after_app,
    lemma_pos_after_push, lemma_pos_after_two, lemma_run_end, next_pos, pos_after, qt_end,
    run_end, starts_with_at,
};
use vstd::string::StringExecFns;

verus! {

/// The character a single-character escape denotes, mirroring `esc_char`.
fn esc_char_exec(c: char) -> (r: Option<char>)
    ensures
        r == esc_char(c),
{
    match c {
        '"' => Some('"'),
        '\\' => Some('\\'),
        '/' => Some('/'),
        'b' => Some('\u{08}'),
        'f' => Some('\u{0C}'),
        'n' => Some('\n'),
        'r' => Some('\r'),
        't' => Some('\t'),
        _ => None,
    }
}

/// The value of one hexadecimal digit, mirroring `hex_val`.
fn hex_digit(c: char) -> (r: Option<u8>)
    ensures
        match r {
            Some(v) => is_hex_digit(c) && v as int == hex_val(c) && v < 16,
            None => !is_hex_digit(c),
        },
{
    if '0' <= c && c <= '9' {
        Some(((c as u32) - ('0' as u32)) as u8)
    } else if 'a' <= c && c <= 'f' {
        Some((10 + (c as u32) - ('a' as u32)) as u8)
    } else if 'A' <= c && c <= 'F' {
        Some((10 + (c as u32) - ('A' as u32)) as u8)
    } else {
        None
    }
}

/// A double-quoted string without escape processing: everything between
/// the opening quote and the next quote, taken verbatim. On success the
/// cursor stands right after the closing quote. Fails recoverably when
/// the next character is no quote, and unrecoverably (at the opening
/// quote's position) when the quote is never closed.
#[verifier::loop_isolation(false)]
pub fn quoted_string(reader: &mut Reader) -> (r: ParseResult<String>)
    requires
        old(reader).wf(),
    ensures
        final(reader).wf(),
        final(reader).buffer@ == old(reader).buffer@,
        ({
            let s = old(reader).buffer@;
            let c0 = old(reader).state.cursor as int;
            let e = run_end(s, c0 + 1, |ch: char| ch != '"');
            match r {
                Ok(v) => {
                    &&& c0 < s.len() && s[c0] == '"'
                    &&& e < s.len() && s[e] == '"'
                    &&& v@ == s.subrange(c0 + 1, e)
                    &&& final(reader).state.cursor == e + 1
                    &&& final(reader).state.pos@ == pos_after(
                        old(reader).state.pos@,
                        s.subrange(c0, e + 1),
                    )
                },
                Err(err) => {
                    &&& final(reader).state == old(reader).state
                    &&& !(c0 < s.len() && s[c0] == '"' && e < s.len())
                    &&& err.recoverable == !(c0 < s.len() && s[c0] == '"')
                    &&& err.pos == old(reader).state.pos
                },
            }
        }),
{
    let ghost s = reader.buffer@;
    let ghost c0 = reader.state.cursor as int;
    let ghost p0 = reader.state.pos@;
    let saved = reader.state;
    proof {
        reveal_strlit("\"");
    }
    match try_literal("\"", reader) {
        Err(e) => {
            proof {
                if c0 < s.len() && s[c0] == '"' {
                    assert(s.subrange(c0, c0 + 1) =~= "\""@);
                    assert(false);
                }
            }
            return Err(e);
        },
        Ok(_) => {},
    }
    proof {
        assert(s[c0] == '"');
        assert(class_pred(CharClass::StringContent) =~= (|ch: char| ch != '"'));
    }
    let value = read_while(CharClass::StringContent, reader);
    proof {
        lemma_run_end(s, c0 + 1, class_pred(CharClass::StringContent));
    }
    if reader.is_eof() {
        reader.state = saved;
        return Err(Error { pos: saved.pos, recoverable: false, inner: ParseError::Eof {} });
    }
    let ghost e = reader.state.cursor as int;
    let _ = reader.read();
    proof {
        assert(s.subrange(c0, e + 1) =~= seq!['"'] + value@ + seq![s[e]]);
        assert(s.subrange(c0, e) =~= seq!['"'] + value@);
        assert(s.subrange(c0, e).push(s[e]) =~= s.subrange(c0, e + 1));
        lemma_pos_after_push(p0, s.subrange(c0, e), s[e]);
        assert(s.subrange(c0, c0 + 1) =~= "\""@);
        assert(seq!['"'] =~= "\""@);
        assert((seq!['"'] + value@).drop_first() =~= value@);
        reveal_strlit("\"");
        assert("\""@.drop_first() =~= Seq::<char>::empty());
        assert(pos_after(p0, "\""@) == pos_after(
            crate::text::next_pos(p0, "\""@[0]),
            "\""@.drop_first(),
        ));
        assert(pos_after(p0, "\""@) == crate::text::next_pos(p0, '"'));
        assert(pos_after(p0, s.subrange(c0, e)) == pos_after(
            crate::text::next_pos(p0, '"'),
            value@,
        ));
    }
    Ok(value)
}

/// A `{{ ... }}` expression element: double braces around an optionally
/// space-padded variable name. Commits once the braces are seen: every
/// failure past them is unrecoverable. On failure the reader is restored.
fn template_expr(reader: &mut Reader) -> (r: ParseResult<TemplateElement>)
    requires
        old(reader).wf(),
        starts_with_at(old(reader).buffer@, old(reader).state.cursor as int, seq!['{', '{']),
    ensures
        final(reader).wf(),
        final(reader).buffer@ == old(reader).buffer@,
        ({
            let s = old(reader).buffer@;
            let c0 = old(reader).state.cursor as int;
            let p0 = old(reader).state.pos@;
            match r {
                Ok(e) => {
                    &&& c0 < final(reader).state.cursor as int <= s.len()
                    &&& expr_len(s, c0) == Some(final(reader).state.cursor as int - c0)
                    &&& e is Expression
                    &&& elem_encoded(e) == s.subrange(c0, final(reader).state.cursor as int)
                    &&& elem_wf(e)
                    &&& elem_spans_ok(e, p0)
                    &&& final(reader).state.pos@ == pos_after(
                        p0,
                        s.subrange(c0, final(reader).state.cursor as int),
                    )
                },
                Err(err) => {
                    &&& final(reader).state == old(reader).state
                    &&& expr_len(s, c0) is None
                    &&& !err.recoverable
                },
            }
        }),
{
    let ghost s = reader.buffer@;
    let ghost c0 = reader.state.cursor as int;
    let ghost p0 = reader.state.pos@;
    let saved = reader.state;
    proof {
        reveal_strlit("{{");
        assert("{{"@ =~= seq!['{', '{']);
    }
    match try_literal("{{", reader) {
        Err(err) => {
            proof {
                assert(false);
            }
            return Err(err);
        },
        Ok(_) => {},
    }
    proof {
        lemma_pos_after_two(p0, '{', '{');
        assert(class_pred(CharClass::Space) =~= (|ch: char| is_space(ch)));
        assert(class_pred(CharClass::Ident) =~= (|ch: char| is_ident_char(ch)));
    }
    let space0 = zero_or_more_spaces(reader);
    let ghost a = reader.state.cursor as int;
    let vstart = reader.state.pos;
    let name = read_while(CharClass::Ident, reader);
    let ghost b = reader.state.cursor as int;
    proof {
        lemma_run_end(s, a, class_pred(CharClass::Ident));
    }
    if name.as_str().is_empty() {
        reader.state = saved;
        return Err(
            Error { pos: vstart, recoverable: false, inner: ParseError::VariableName {} },
        );
    }
    let vend = reader.state.pos;
    let space1 = zero_or_more_spaces(reader);
    let ghost d = reader.state.cursor as int;
    proof {
        reveal_strlit("}}");
        assert("}}"@ =~= seq!['}', '}']);
    }
    match try_literal("}}", reader) {
        Err(_) => {
            let epos = reader.state.pos;
            reader.state = saved;
            return Err(
                Error {
                    pos: epos,
                    recoverable: false,
                    inner: ParseError::Expecting { value: String::from_str("}}") },
                },
            );
        },
        Ok(_) => {},
    }
    let ghost c1 = reader.state.cursor as int;
    let x = Expr {
        space0,
        variable: Variable { name, source_info: SourceInfo { start: vstart, end: vend } },
        space1,
    };
    let e = TemplateElement::Expression(x);
    proof {
        assert(s.subrange(c0, c0 + 2) =~= seq!['{', '{']);
        assert(s.subrange(d, d + 2) =~= seq!['}', '}']);
        assert(elem_encoded(e) =~= s.subrange(c0, c1)) by {
            assert(x.space0.value@ == s.subrange(c0 + 2, a));
            assert(x.variable.name@ == s.subrange(a, b));
            assert(x.space1.value@ == s.subrange(b, d));
        }
        // the recognizer agrees
        assert(expr_len(s, c0) == Some(c1 - c0));
        // spans: chain the positions of the pieces
        let p2 = (p0.0, p0.1 + 2);
        assert(next_pos(next_pos(p0, '{'), '{') == p2);
        assert(x.space0.source_info.start@ == p2);
        let p3 = pos_after(p2, x.space0.value@);
        assert(x.variable.source_info.start@ == p3);
        let p4 = pos_after(p3, x.variable.name@);
        assert(x.variable.source_info.end@ == p4);
        let p5 = pos_after(p4, x.space1.value@);
        assert(x.space1.source_info.end@ == p5);
        assert(elem_spans_ok(e, p0));
        // final position: fold the pieces together
        lemma_pos_after_two(p5, '}', '}');
        assert(s.subrange(c0, c1) =~= seq!['{', '{'] + (x.space0.value@ + (x.variable.name@ + (
        x.space1.value@ + seq!['}', '}']))));
        lemma_pos_after_app(p0, seq!['{', '{'], x.space0.value@ + (x.variable.name@ + (
        x.space1.value@ + seq!['}', '}'])));
        lemma_pos_after_app(p2, x.space0.value@, x.variable.name@ + (x.space1.value@ + seq![
            '}',
            '}',
        ]));
        lemma_pos_after_app(p3, x.variable.name@, x.space1.value@ + seq!['}', '}']);
        lemma_pos_after_app(p4, x.space1.value@, seq!['}', '}']);
        assert(reader.state.pos@ == pos_after(p0, s.subrange(c0, c1)));
    }
    Ok(e)
}

/// A literal run inside a quoted template: plain characters and escape
/// sequences, consumed maximally up to the closing quote, the next
/// `{{`, or the end of input. Returns a literal element holding the
/// verbatim encoded text and its decoded value. Fails (restoring the
/// reader) on a malformed or unterminated escape.
#[verifier::loop_isolation(false)]
fn template_literal(reader: &mut Reader) -> (r: ParseResult<TemplateElement>)
    requires
        old(reader).wf(),
        old(reader).state.cursor < old(reader).buffer@.len(),
        old(reader).buffer@[old(reader).state.cursor as int] != '"',
        !starts_with_at(old(reader).buffer@, old(reader).state.cursor as int, seq!['{', '{']),
    ensures
        final(reader).wf(),
        final(reader).buffer@ == old(reader).buffer@,
        ({
            let s = old(reader).buffer@;
            let c0 = old(reader).state.cursor as int;
            let c1 = final(reader).state.cursor as int;
            let p0 = old(reader).state.pos@;
            match r {
                Ok(e) => {
                    &&& c0 < c1 <= s.len()
                    &&& (e matches TemplateElement::Literal { value, encoded } && encoded@
                        == s.subrange(c0, c1) && decodes_to(encoded@, value@))
                    &&& qt_end(s, c0) == qt_end(s, c1)
                    &&& (c1 == s.len() || s[c1] == '"' || starts_with_at(s, c1, seq!['{', '{']))
                    &&& final(reader).state.pos@ == pos_after(p0, s.subrange(c0, c1))
                },
                Err(err) => {
                    &&& final(reader).state == old(reader).state
                    &&& qt_end(s, c0) is None
                    &&& !err.recoverable
                },
            }
        }),
{
    let ghost s = reader.buffer@;
    let ghost c0 = reader.state.cursor as int;
    let ghost p0 = reader.state.pos@;
    let saved = reader.state;
    let mut value = String::new();
    let mut encoded = String::new();
    while reader.state.cursor < reader.buffer.len() && reader.buffer[reader.state.cursor] != '"'
        && !(reader.buffer[reader.state.cursor] == '{' && reader.state.cursor + 1
        < reader.buffer.len() && reader.buffer[reader.state.cursor + 1] == '{')
        invariant
            reader.wf(),
            reader.buffer@ == s,
            c0 <= reader.state.cursor as int <= s.len(),
            encoded@ == s.subrange(c0, reader.state.cursor as int),
            decodes_to(encoded@, value@),
            qt_end(s, c0) == qt_end(s, reader.state.cursor as int),
            reader.state.pos@ == pos_after(p0, encoded@),
        decreases s.len() - reader.state.cursor,
    {
        let ghost cur = reader.state.cursor as int;
        let ghost ee = encoded@;
        let ghost ev = value@;
        proof {
            if starts_with_at(s, cur, seq!['{', '{']) {
                assert(s.subrange(cur, cur + 2)[0] == s[cur]);
                assert(s.subrange(cur, cur + 2)[1] == s[cur + 1]);
                assert(false);
            }
        }
        let c = reader.buffer[reader.state.cursor];
        if c == '\\' {
            let bpos = reader.state.pos;
            let _ = reader.read();
            if reader.is_eof() {
                reader.state = saved;
                return Err(
                    Error { pos: bpos, recoverable: false, inner: ParseError::Escape {} },
                );
            }
            let ec = reader.read();
            match esc_char_exec(ec) {
                Some(d) => {
                    push_char(&mut value, d);
                    push_char(&mut encoded, '\\');
                    push_char(&mut encoded, ec);
                    proof {
                        assert(s[cur + 1] == ec);
                        assert(escape_len(s, cur) == Some(2int));
                        let ue = seq!['\\', ec];
                        let uv = seq![d];
                        assert(ue[0] == '\\' && ue[1] == ec);
                        assert(escape_len(ue, 0) == Some(2int));
                        assert(ue.skip(2) =~= Seq::<char>::empty());
                        assert(uv.drop_first() =~= Seq::<char>::empty());
                        assert(decodes_to(Seq::<char>::empty(), Seq::<char>::empty()));
                        assert(decodes_to(ue, uv));
                        lemma_decodes_app(ee, ev, ue, uv);
                        assert(encoded@ =~= ee + ue);
                        assert(value@ =~= ev + uv);
                        assert(s.subrange(cur, cur + 2) =~= ue);
                        assert(s.subrange(c0, cur + 2) =~= s.subrange(c0, cur) + s.subrange(
                            cur,
                            cur + 2,
                        ));
                        assert(s.subrange(c0, cur + 1) =~= s.subrange(c0, cur).push(s[cur]));
                        lemma_pos_after_push(p0, s.subrange(c0, cur), s[cur]);
                        assert(s.subrange(c0, cur + 2) =~= s.subrange(c0, cur + 1).push(
                            s[cur + 1],
                        ));
                        lemma_pos_after_push(p0, s.subrange(c0, cur + 1), s[cur + 1]);
                    }
                },
                None => {
                    if ec == 'u' {
                        if reader.buffer.len() - reader.state.cursor < 4 {
                            reader.state = saved;
                            return Err(
                                Error {
                                    pos: bpos,
                                    recoverable: false,
                                    inner: ParseError::Escape {},
                                },
                            );
                        }
                        let h0 = reader.read();
                        let h1 = reader.read();
                        let h2 = reader.read();
                        let h3 = reader.read();
                        if let (Some(v0), Some(v1), Some(v2), Some(v3)) = (
                            hex_digit(h0),
                            hex_digit(h1),
                            hex_digit(h2),
                            hex_digit(h3),
                        ) {
                            let v: u32 = ((v0 as u32 * 16 + v1 as u32) * 16 + v2 as u32) * 16
                                + v3 as u32;
                            if v < 0xD800 || v >= 0xE000 {
                                if let Some(d) = char_from_u32(v) {
                                    push_char(&mut value, d);
                                    push_char(&mut encoded, '\\');
                                    push_char(&mut encoded, 'u');
                                    push_char(&mut encoded, h0);
                                    push_char(&mut encoded, h1);
                                    push_char(&mut encoded, h2);
                                    push_char(&mut encoded, h3);
                                    proof {
                                        assert(s[cur + 1] == 'u');
                                        assert(s[cur + 2] == h0 && s[cur + 3] == h1 && s[cur + 4]
                                            == h2 && s[cur + 5] == h3);
                                        assert(hex4_ok(s, cur + 2));
                                        assert(hex4_val(s, cur + 2) == v as int);
                                        assert(is_scalar4(v as int));
                                        assert(escape_len(s, cur) == Some(6int));
                                        let ue = seq!['\\', 'u', h0, h1, h2, h3];
                                        let uv = seq![d];
                                        assert(ue[0] == '\\' && ue[1] == 'u');
                                        assert(ue[2] == h0 && ue[3] == h1 && ue[4] == h2 && ue[5]
                                            == h3);
                                        assert(hex4_ok(ue, 2));
                                        assert(hex4_val(ue, 2) == v as int);
                                        assert(escape_len(ue, 0) == Some(6int));
                                        assert(d as int == v as int);
                                        assert(ue.skip(6) =~= Seq::<char>::empty());
                                        assert(uv.drop_first() =~= Seq::<char>::empty());
                                        assert(decodes_to(
                                            Seq::<char>::empty(),
                                            Seq::<char>::empty(),
                                        ));
                                        assert(escape_len(ue, 0) == Some(6int));
                                        assert(decodes_to(ue, uv));
                                        lemma_decodes_app(ee, ev, ue, uv);
                                        assert(encoded@ =~= ee + ue);
                                        assert(value@ =~= ev + uv);
                                        assert(s.subrange(cur, cur + 6) =~= ue);
                                        assert(s.subrange(c0, cur + 6) =~= s.subrange(c0, cur)
                                            + s.subrange(cur, cur + 6));
                                        assert(s.subrange(c0, cur + 1) =~= s.subrange(
                                            c0,
                                            cur,
                                        ).push(s[cur]));
                                        lemma_pos_after_push(p0, s.subrange(c0, cur), s[cur]);
                                        assert(s.subrange(c0, cur + 2) =~= s.subrange(
                                            c0,
                                            cur + 1,
                                        ).push(s[cur + 1]));
                                        lemma_pos_after_push(
                                            p0,
                                            s.subrange(c0, cur + 1),
                                            s[cur + 1],
                                        );
                                        assert(s.subrange(c0, cur + 3) =~= s.subrange(
                                            c0,
                                            cur + 2,
                                        ).push(s[cur + 2]));
                                        lemma_pos_after_push(
                                            p0,
                                            s.subrange(c0, cur + 2),
                                            s[cur + 2],
                                        );
                                        assert(s.subrange(c0, cur + 4) =~= s.subrange(
                                            c0,
                                            cur + 3,
                                        ).push(s[cur + 3]));
                                        lemma_pos_after_push(
                                            p0,
                                            s.subrange(c0, cur + 3),
                                            s[cur + 3],
                                        );
                                        assert(s.subrange(c0, cur + 5) =~= s.subrange(
                                            c0,
                                            cur + 4,
                                        ).push(s[cur + 4]));
                                        lemma_pos_after_push(
                                            p0,
                                            s.subrange(c0, cur + 4),
                                            s[cur + 4],
                                        );
                                        assert(s.subrange(c0, cur + 6) =~= s.subrange(
                                            c0,
                                            cur + 5,
                                        ).push(s[cur + 5]));
                                        lemma_pos_after_push(
                                            p0,
                                            s.subrange(c0, cur + 5),
                                            s[cur + 5],
                                        );
                                    }
                                } else {
                                    proof {
                                        assert(false);
                                    }
                                    reader.state = saved;
                                    return Err(
                                        Error {
                                            pos: bpos,
                                            recoverable: false,
                                            inner: ParseError::Escape {},
                                        },
                                    );
                                }
                            } else {
                                reader.state = saved;
                                proof {
                                    assert(s[cur + 1] == 'u');
                                    assert(!is_scalar4(hex4_val(s, cur + 2)));
                                    assert(escape_len(s, cur) is None);
                                }
                                return Err(
                                    Error {
                                        pos: bpos,
                                        recoverable: false,
                                        inner: ParseError::Escape {},
                                    },
                                );
                            }
                        } else {
                            reader.state = saved;
                            proof {
                                assert(s[cur + 1] == 'u');
                                assert(!hex4_ok(s, cur + 2));
                                assert(escape_len(s, cur) is None);
                            }
                            return Err(
                                Error {
                                    pos: bpos,
                                    recoverable: false,
                                    inner: ParseError::Escape {},
                                },
                            );
                        }
                    } else {
                        reader.state = saved;
                        proof {
                            assert(s[cur + 1] == ec);
                            assert(escape_len(s, cur) is None);
                        }
                        return Err(
                            Error { pos: bpos, recoverable: false, inner: ParseError::Escape {} },
                        );
                    }
                },
            }
        } else {
            let c2 = reader.read();
            push_char(&mut value, c2);
            push_char(&mut encoded, c2);
            proof {
                assert(c2 == s[cur]);
                let ue = seq![c2];
                let uv = seq![c2];
                assert(ue.drop_first() =~= Seq::<char>::empty());
                assert(uv.drop_first() =~= Seq::<char>::empty());
                assert(decodes_to(Seq::<char>::empty(), Seq::<char>::empty()));
                assert(ue[0] == c2 && c2 != '\\');
                assert(decodes_to(ue, uv));
                lemma_decodes_app(ee, ev, ue, uv);
                assert(encoded@ =~= ee + ue);
                assert(value@ =~= ev + uv);
                assert(s.subrange(c0, cur + 1) =~= s.subrange(c0, cur) + ue);
                assert(s.subrange(c0, cur + 1) =~= s.subrange(c0, cur).push(c2));
                lemma_pos_after_push(p0, s.subrange(c0, cur), c2);
                assert(qt_end(s, cur) == qt_end(s, cur + 1));
            }
        }
    }
    proof {
        let cur = reader.state.cursor as int;
        if cur < s.len() && s[cur] != '"' {
            assert(s[cur] == '{' && cur + 1 < s.len() && s[cur + 1] == '{');
            assert(s.subrange(cur, cur + 2) =~= seq!['{', '{']);
            assert(starts_with_at(s, cur, seq!['{', '{']));
        }
        assert(cur > c0) by {
            if cur == c0 {
                if c0 < s.len() && s[c0] != '"' {
                    assert(starts_with_at(s, c0, seq!['{', '{']));
                    assert(false);
                } else {
                    assert(false);
                }
            }
        }
    }
    Ok(TemplateElement::Literal { value, encoded })
}

/// A double-quoted template: `"` followed by literal runs and
/// `{{ ... }}` expressions up to a closing `"`. Succeeds exactly when
/// the text at the cursor is such a template; the returned node then
/// satisfies `is_quoted_template_at` — its elements spell out the
/// consumed text verbatim, literals decode to their values, and every
/// span is exact. A missing opening quote fails recoverably; anything
/// after the opening quote commits. Failure restores the reader.
#[verifier::loop_isolation(false)]
#[verifier::rlimit(60)]
pub fn quoted_template(reader: &mut Reader) -> (r: ParseResult<Template>)
    requires
        old(reader).wf(),
    ensures
        final(reader).wf(),
        final(reader).buffer@ == old(reader).buffer@,
        ({
            let s = old(reader).buffer@;
            let c0 = old(reader).state.cursor as int;
            let p0 = old(reader).state.pos@;
            match r {
                Ok(t) => {
                    &&& c0 < s.len() && s[c0] == '"'
                    &&& qt_end(s, c0 + 1) == Some(final(reader).state.cursor as int)
                    &&& is_quoted_template_at(t, s, c0, final(reader).state.cursor as int, p0)
                    &&& final(reader).state.pos@ == pos_after(
                        p0,
                        s.subrange(c0, final(reader).state.cursor as int),
                    )
                },
                Err(err) => {
                    &&& final(reader).state == old(reader).state
                    &&& !(c0 < s.len() && s[c0] == '"' && qt_end(s, c0 + 1) is Some)
                    &&& err.recoverable == !(c0 < s.len() && s[c0] == '"')
                },
            }
        }),
{
    let ghost s = reader.buffer@;
    let ghost c0 = reader.state.cursor as int;
    let ghost p0 = reader.state.pos@;
    let ghost p1 = (p0.0, p0.1 + 1);
    let saved = reader.state;
    proof {
        reveal_strlit("\"");
    }
    match try_literal("\"", reader) {
        Err(err) => {
            proof {
                if c0 < s.len() && s[c0] == '"' {
                    assert(s.subrange(c0, c0 + 1) =~= "\""@);
                    assert(false);
                }
            }
            return Err(err);
        },
        Ok(_) => {},
    }
    proof {
        assert(s[c0] == '"');
        assert("\""@.drop_first() =~= Seq::<char>::empty());
        assert(pos_after(p0, "\""@) == pos_after(next_pos(p0, "\""@[0]), "\""@.drop_first()));
        assert(reader.state.pos@ == p1);
        assert(s.subrange(c0, c0 + 1) =~= seq!['"']);
        assert(seq!['"'].drop_first() =~= Seq::<char>::empty());
        assert(pos_after(p0, s.subrange(c0, c0 + 1)) == p1);
    }
    let mut elements: Vec<TemplateElement> = Vec::new();
    while reader.state.cursor < reader.buffer.len() && reader.buffer[reader.state.cursor] != '"'
        invariant
            reader.wf(),
            reader.buffer@ == s,
            c0 + 1 <= reader.state.cursor as int <= s.len(),
            qt_end(s, reader.state.cursor as int) == qt_end(s, c0 + 1),
            elems_encoded(elements@, 0) == s.subrange(c0 + 1, reader.state.cursor as int),
            elems_wf(elements@),
            elems_merged(elements@),
            elems_spans_ok(elements@, 0, p1),
            reader.state.pos@ == pos_after(p0, s.subrange(c0, reader.state.cursor as int)),
            (elements@.len() > 0 && elements@.last() is Literal) ==> (reader.state.cursor as int
                == s.len() || s[reader.state.cursor as int] == '"' || starts_with_at(
                s,
                reader.state.cursor as int,
                seq!['{', '{'],
            )),
        decreases s.len() - reader.state.cursor,
    {
        let ghost cur = reader.state.cursor as int;
        let ghost olde = elements@;
        let ghost pcur = reader.state.pos@;
        proof {
            // the position at the current element equals the fold over
            // what the earlier elements encoded
            assert(s.subrange(c0, cur) =~= seq!['"'] + s.subrange(c0 + 1, cur));
            lemma_pos_after_app(p0, seq!['"'], s.subrange(c0 + 1, cur));
            assert(seq!['"'].drop_first() =~= Seq::<char>::empty());
            assert(pos_after(p0, seq!['"']) == p1);
            assert(pcur == pos_after(p1, elems_encoded(olde, 0)));
        }
        let is_expr = reader.buffer[reader.state.cursor] == '{' && reader.state.cursor + 1
            < reader.buffer.len() && reader.buffer[reader.state.cursor + 1] == '{';
        let parsed = if is_expr {
            proof {
                assert(s.subrange(cur, cur + 2) =~= seq!['{', '{']);
            }
            template_expr(reader)
        } else {
            proof {
                if starts_with_at(s, cur, seq!['{', '{']) {
                    assert(s.subrange(cur, cur + 2)[0] == s[cur]);
                    assert(s.subrange(cur, cur + 2)[1] == s[cur + 1]);
                    assert(false);
                }
            }
            template_literal(reader)
        };
        match parsed {
            Ok(e) => {
                let ghost cur2 = reader.state.cursor as int;
                proof {
                    if is_expr {
                        // the recognizer crosses the expression in one step
                        let k = cur2 - cur;
                        assert(k >= 1);
                        assert(qt_end(s, cur) == qt_end(s, cur2));
                    }
                    assert(elem_encoded(e) == s.subrange(cur, cur2));
                    assert(elem_wf(e));
                    assert(elem_spans_ok(e, pcur));
                    if e is Literal {
                        // a literal is parsed only where no literal just
                        // ended, so literals never stand side by side
                        assert(olde.len() > 0 ==> !(olde.last() is Literal));
                    }
                }
                elements.push(e);
                proof {
                    lemma_elems_encoded_push(olde, e, 0);
                    assert(elems_encoded(elements@, 0) =~= s.subrange(c0 + 1, cur2)) by {
                        assert(elems_encoded(elements@, 0) == elems_encoded(olde, 0)
                            + elem_encoded(e));
                        assert(s.subrange(c0 + 1, cur2) =~= s.subrange(c0 + 1, cur) + s.subrange(
                            cur,
                            cur2,
                        ));
                    }
                    assert forall|i: int| 0 <= i < elements@.len() implies elem_wf(
                        #[trigger] elements@[i],
                    ) by {
                        if i < olde.len() {
                            assert(elements@[i] == olde[i]);
                        } else {
                            assert(elements@[i] == e);
                        }
                    }
                    assert forall|i: int| 0 <= i && i + 1 < elements@.len() implies !((
                    elements@[i] is Literal) && (#[trigger] elements@[i + 1]) is Literal) by {
                        if i + 1 < olde.len() {
                            assert(elements@[i] == olde[i]);
                            assert(elements@[i + 1] == olde[i + 1]);
                        } else {
                            assert(elements@[i] == olde[i]);
                            assert(elements@[i + 1] == e);
                        }
                    }
                    lemma_elems_spans_push(olde, e, 0, p1);
                    assert(elems_spans_ok(elements@, 0, p1));
                    // position bookkeeping across the element
                    assert(s.subrange(c0, cur2) =~= s.subrange(c0, cur) + s.subrange(cur, cur2));
                    lemma_pos_after_app(p0, s.subrange(c0, cur), s.subrange(cur, cur2));
                    assert(reader.state.pos@ == pos_after(p0, s.subrange(c0, cur2)));
                }
            },
            Err(err) => {
                reader.state = saved;
                return Err(err);
            },
        }
    }
    if reader.is_eof() {
        reader.state = saved;
        return Err(Error { pos: saved.pos, recoverable: false, inner: ParseError::Eof {} });
    }
    let ghost b0 = reader.state.cursor as int;
    let _ = reader.read();
    let t = Template {
        quotes: true,
        elements,
        source_info: SourceInfo { start: saved.pos, end: reader.state.pos },
    };
    proof {
        assert(qt_end(s, b0) == Some(b0 + 1));
        assert(s.subrange(c0, b0 + 1) =~= s.subrange(c0, b0).push(s[b0]));
        lemma_pos_after_push(p0, s.subrange(c0, b0), s[b0]);
        assert(t.source_info.end@ == pos_after(p0, s.subrange(c0, b0 + 1)));
        assert(is_quoted_template_at(t, s, c0, b0 + 1, p0));
    }
    Ok(t)
}

} // verus!
