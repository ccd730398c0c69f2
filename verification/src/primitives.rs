//! Parsing primitives: the parse error type, literal matching, and
//! whitespace / character-run readers. Every primitive restores the
//! reader to its pre-call state when it fails.

use vstd::prelude::*;
use vstd::string::StrSliceExecFns;

use crate::ast::{Pos, SourceInfo, Whitespace};
use crate::ast::is_whitespace_at;
use crate::reader::Reader;
use crate::strutil::push_char;
use crate::text::{
    is_attr_char, is_ident_char, is_space, pos_after, run_end, starts_with_at, lemma_pos_after_push,
    lemma_run_end, lemma_run_end_step,
};

verus! {

/// What a parser expected and did not find.
#[derive(Clone, Debug, PartialEq, Eq)]
pub enum ParseError {
    Expecting { value: String },
    Space {},
    Eof {},
    Escape {},
    VariableName {},
    CookieAttribute {},
}

/// A parse failure: where it happened, whether an enclosing choice may
/// try another alternative (`recoverable`), and what was expected.
#[derive(Clone, Debug, PartialEq, Eq)]
pub struct Error {
    pub pos: Pos,
    pub recoverable: bool,
    pub inner: ParseError,
}

pub type ParseResult<T> = Result<T, Error>;

/// The classes of characters the run readers accept.
#[derive(Clone, Copy, Debug, PartialEq, Eq)]
pub enum CharClass {
    Space,
    Ident,
    Attr,
    CookieName,
    StringContent,
}

/// The predicate a character class stands for. `CookieName` accepts
/// everything up to the `[` that opens a cookie attribute;
/// `StringContent` everything up to a closing double quote.
pub open spec fn class_pred(k: CharClass) -> spec_fn(char) -> bool {
    match k {
        CharClass::Space => |c: char| is_space(c),
        CharClass::Ident => |c: char| is_ident_char(c),
        CharClass::Attr => |c: char| is_attr_char(c),
        CharClass::CookieName => |c: char| c != '[',
        CharClass::StringContent => |c: char| c != '"',
    }
}

fn class_match(k: CharClass, c: char) -> (b: bool)
    ensures
        b == class_pred(k)(c),
{
    match k {
        CharClass::Space => c == ' ' || c == '\t',
        CharClass::Ident => ('a' <= c && c <= 'z') || ('A' <= c && c <= 'Z') || ('0' <= c && c
            <= '9') || c == '_',
        CharClass::Attr => ('a' <= c && c <= 'z') || ('A' <= c && c <= 'Z') || c == '-',
        CharClass::CookieName => c != '[',
        CharClass::StringContent => c != '"',
    }
}

/// Consume the maximal run of characters of class `k` and return it.
/// Never fails; the run may be empty.
#[verifier::loop_isolation(false)]
pub fn read_while(k: CharClass, reader: &mut Reader) -> (out: String)
    requires
        old(reader).wf(),
    ensures
        final(reader).wf(),
        final(reader).buffer@ == old(reader).buffer@,
        ({
            let s = old(reader).buffer@;
            let c0 = old(reader).state.cursor as int;
            let j = run_end(s, c0, class_pred(k));
            &&& c0 <= j <= s.len()
            &&& out@ == s.subrange(c0, j)
            &&& final(reader).state.cursor == j
            &&& final(reader).state.pos@ == pos_after(old(reader).state.pos@, out@)
        }),
{
    let ghost s = reader.buffer@;
    let ghost c0 = reader.state.cursor as int;
    let ghost p0 = reader.state.pos@;
    let ghost pred = class_pred(k);
    let ghost j = run_end(s, c0, pred);
    proof {
        lemma_run_end(s, c0, pred);
    }
    let mut out = String::new();
    while reader.state.cursor < reader.buffer.len() && class_match(
        k,
        reader.buffer[reader.state.cursor],
    )
        invariant
            reader.wf(),
            reader.buffer@ == s,
            c0 <= reader.state.cursor as int <= j,
            j == run_end(s, reader.state.cursor as int, pred),
            j == run_end(s, c0, pred),
            pred == class_pred(k),
            out@ == s.subrange(c0, reader.state.cursor as int),
            reader.state.pos@ == pos_after(p0, out@),
        decreases s.len() - reader.state.cursor,
    {
        let ghost cur = reader.state.cursor as int;
        proof {
            lemma_run_end_step(s, cur, pred);
            lemma_run_end(s, cur + 1, pred);
        }
        let c = reader.read();
        push_char(&mut out, c);
        proof {
            assert(s.subrange(c0, cur + 1) =~= s.subrange(c0, cur).push(s[cur]));
            lemma_pos_after_push(p0, s.subrange(c0, cur), s[cur]);
        }
    }
    proof {
        let cur = reader.state.cursor as int;
        lemma_run_end(s, cur, pred);
        if cur < j {
            assert(pred(s[cur]));
            assert(false);
        }
    }
    out
}

/// Match the literal `lit` exactly at the cursor. On failure the reader
/// is unchanged and the (recoverable) error names the expected literal.
#[verifier::loop_isolation(false)]
pub fn try_literal(lit: &str, reader: &mut Reader) -> (r: ParseResult<()>)
    requires
        old(reader).wf(),
    ensures
        final(reader).wf(),
        final(reader).buffer@ == old(reader).buffer@,
        match r {
            Ok(_) => {
                &&& starts_with_at(old(reader).buffer@, old(reader).state.cursor as int, lit@)
                &&& final(reader).state.cursor == old(reader).state.cursor + lit@.len()
                &&& final(reader).state.pos@ == pos_after(old(reader).state.pos@, lit@)
            },
            Err(e) => {
                &&& final(reader).state == old(reader).state
                &&& !starts_with_at(old(reader).buffer@, old(reader).state.cursor as int, lit@)
                &&& e.recoverable
                &&& e.pos == old(reader).state.pos
                &&& e.inner matches ParseError::Expecting { value } && value@ == lit@
            },
        },
{
    let ghost s = reader.buffer@;
    let ghost c0 = reader.state.cursor as int;
    let ghost p0 = reader.state.pos@;
    let saved = reader.state;
    let n = lit.unicode_len();
    let mut i: usize = 0;
    while i < n
        invariant
            reader.wf(),
            reader.buffer@ == s,
            n == lit@.len(),
            i <= n,
            c0 == saved.cursor as int,
            p0 == saved.pos@,
            reader.state.cursor as int == c0 + i,
            forall|m: int| 0 <= m < i ==> s[c0 + m] == lit@[m],
            reader.state.pos@ == pos_after(p0, lit@.subrange(0, i as int)),
        decreases n - i,
    {
        if reader.is_eof() {
            reader.state = saved;
            proof {
                if starts_with_at(s, c0, lit@) {
                    assert(false);
                }
            }
            return Err(
                Error {
                    pos: saved.pos,
                    recoverable: true,
                    inner: ParseError::Expecting { value: lit.to_owned() },
                },
            );
        }
        let c = reader.read();
        let expected = lit.get_char(i);
        if c != expected {
            reader.state = saved;
            proof {
                if starts_with_at(s, c0, lit@) {
                    assert(s.subrange(c0, c0 + lit@.len() as int)[i as int] == lit@[i as int]);
                    assert(false);
                }
            }
            return Err(
                Error {
                    pos: saved.pos,
                    recoverable: true,
                    inner: ParseError::Expecting { value: lit.to_owned() },
                },
            );
        }
        proof {
            assert(lit@.subrange(0, i as int + 1) =~= lit@.subrange(0, i as int).push(lit@[i as int]));
            lemma_pos_after_push(p0, lit@.subrange(0, i as int), lit@[i as int]);
        }
        i = i + 1;
    }
    proof {
        assert(s.subrange(c0, c0 + lit@.len() as int) =~= lit@);
        assert(lit@.subrange(0, n as int) =~= lit@);
    }
    Ok(())
}

/// One or more spaces or tabs. On success the whitespace node holds the
/// run verbatim with its exact span; fails (leaving the reader where it
/// was) when the next character is not horizontal whitespace.
pub fn one_or_more_spaces(reader: &mut Reader) -> (r: ParseResult<Whitespace>)
    requires
        old(reader).wf(),
    ensures
        final(reader).wf(),
        final(reader).buffer@ == old(reader).buffer@,
        ({
            let s = old(reader).buffer@;
            let c0 = old(reader).state.cursor as int;
            let j = run_end(s, c0, |c: char| is_space(c));
            match r {
                Ok(w) => {
                    &&& j > c0
                    &&& is_whitespace_at(w, s, c0, j, old(reader).state.pos@)
                    &&& final(reader).state.cursor == j
                    &&& final(reader).state.pos@ == pos_after(old(reader).state.pos@, w.value@)
                },
                Err(e) => {
                    &&& final(reader).state == old(reader).state
                    &&& j == c0
                    &&& !e.recoverable
                    &&& e.pos == old(reader).state.pos
                    &&& e.inner matches ParseError::Space { .. }
                },
            }
        }),
{
    let saved = reader.state;
    proof {
        assert(class_pred(CharClass::Space) =~= (|c: char| is_space(c)));
    }
    let value = read_while(CharClass::Space, reader);
    proof {
        lemma_run_end(old(reader).buffer@, old(reader).state.cursor as int, class_pred(CharClass::Space));
    }
    if value.as_str().is_empty() {
        proof {
            assert(reader.state.pos@ == saved.pos@);
            assert(reader.state.cursor == saved.cursor);
        }
        reader.state = saved;
        Err(Error { pos: saved.pos, recoverable: false, inner: ParseError::Space {} })
    } else {
        let source_info = SourceInfo { start: saved.pos, end: reader.state.pos };
        Ok(Whitespace { value, source_info })
    }
}

/// Zero or more spaces or tabs: like `one_or_more_spaces`, but an empty
/// run succeeds with an empty whitespace node.
pub fn zero_or_more_spaces(reader: &mut Reader) -> (w: Whitespace)
    requires
        old(reader).wf(),
    ensures
        final(reader).wf(),
        final(reader).buffer@ == old(reader).buffer@,
        ({
            let s = old(reader).buffer@;
            let c0 = old(reader).state.cursor as int;
            let j = run_end(s, c0, |c: char| is_space(c));
            &&& is_whitespace_at(w, s, c0, j, old(reader).state.pos@)
            &&& final(reader).state.cursor == j
            &&& final(reader).state.pos@ == pos_after(old(reader).state.pos@, w.value@)
        }),
{
    let saved = reader.state;
    proof {
        assert(class_pred(CharClass::Space) =~= (|c: char| is_space(c)));
    }
    let value = read_while(CharClass::Space, reader);
    proof {
        lemma_run_end(old(reader).buffer@, old(reader).state.cursor as int, class_pred(CharClass::Space));
    }
    let source_info = SourceInfo { start: saved.pos, end: reader.state.pos };
    Whitespace { value, source_info }
}

} // verus!
