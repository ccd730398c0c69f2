//! Parser for response queries. A query commits on its leading keyword
//! (`status`, `header`, `cookie`, `body`, `xpath`, `jsonpath`, `regex`,
//! `variable`); the alternatives are tried in order and a recoverable
//! failure moves on to the next. Every failing parse restores the reader
//! to its pre-call state.

use vstd::prelude::*;

use crate::ast::{
    is_whitespace_at, is_quoted_template_at, Pos, Query, QueryValue, SourceInfo, Subquery,
    SubqueryValue, Template, Whitespace,
};
use crate::ast::CookiePath;
use crate::cookiepath::{cookiepath, cookiepath_end, cookiepath_fails, is_cookiepath_at};
use crate::primitives::{
    class_pred, one_or_more_spaces, try_literal, CharClass, Error, ParseResult,
};
use crate::reader::Reader;
use crate::stringparse::{quoted_string, quoted_template};
use crate::text::{
    is_space, lemma_pos_after_app, lemma_run_end, lemma_starts_with_first, pos_after, qt_end,
    run_end, starts_with_at,
};

verus! {

/// The text at `n` is `kw`, then at least one space or tab, then a
/// well-formed quoted template.
pub open spec fn kw_template_ok(s: Seq<char>, n: int, kw: Seq<char>) -> bool {
    let k = n + kw.len();
    let j = run_end(s, k, |ch: char| is_space(ch));
    &&& starts_with_at(s, n, kw)
    &&& j > k
    &&& j < s.len() && s[j] == '"' && qt_end(s, j + 1) is Some
}

/// `space0` and `t` are the whitespace and the quoted template standing
/// after the keyword `kw` at `s[n ..]`, the parse ending at `c1`, the
/// keyword's span starting at position `p`.
pub open spec fn is_kw_template_at(
    space0: Whitespace,
    t: Template,
    s: Seq<char>,
    n: int,
    kw: Seq<char>,
    c1: int,
    p: (int, int),
) -> bool {
    let k = n + kw.len();
    let j = run_end(s, k, |ch: char| is_space(ch));
    &&& is_whitespace_at(space0, s, k, j, pos_after(p, kw))
    &&& qt_end(s, j + 1) == Some(c1)
    &&& is_quoted_template_at(t, s, j, c1, pos_after(p, s.subrange(n, j)))
}

/// The text at `n` is a well-formed cookie query: the keyword, spaces,
/// and a closed quoted string whose interior is a well-formed cookie
/// path.
pub open spec fn cookie_query_ok(s: Seq<char>, n: int) -> bool {
    let k = n + 6;
    let j = run_end(s, k, |ch: char| is_space(ch));
    let e = run_end(s, j + 1, |ch: char| ch != '"');
    &&& starts_with_at(s, n, "cookie"@)
    &&& j > k
    &&& j < s.len() && s[j] == '"'
    &&& e < s.len()
    &&& !cookiepath_fails(s.subrange(j + 1, e), 0)
}

/// `space0` and `cp` are the whitespace and the cookie path of a cookie
/// query at `s[n ..]` ending at `c1`. The cookie path is parsed from
/// the quoted string's interior, at a position one column right of the
/// opening quote, so its spans project back into the outer source.
pub open spec fn is_cookie_query_at(
    space0: Whitespace,
    cp: CookiePath,
    s: Seq<char>,
    n: int,
    c1: int,
    p: (int, int),
) -> bool {
    let k = n + 6;
    let j = run_end(s, k, |ch: char| is_space(ch));
    let e = run_end(s, j + 1, |ch: char| ch != '"');
    let inner = s.subrange(j + 1, e);
    let pq = pos_after(p, s.subrange(n, j));
    &&& starts_with_at(s, n, "cookie"@)
    &&& is_whitespace_at(space0, s, k, j, pos_after(p, "cookie"@))
    &&& j > k
    &&& j < s.len() && s[j] == '"'
    &&& e < s.len() && s[e] == '"'
    &&& is_cookiepath_at(cp, inner, 0, cookiepath_end(inner, 0), (pq.0, pq.1 + 1))
    &&& c1 == e + 1
}

/// What a parsed query value says about the source it came from.
pub open spec fn is_query_value_at(qv: QueryValue, s: Seq<char>, n: int, c1: int, p: (int, int)) -> bool {
    match qv {
        QueryValue::Status {  } => starts_with_at(s, n, "status"@) && c1 == n + 6,
        QueryValue::Body {  } => starts_with_at(s, n, "body"@) && c1 == n + 4,
        QueryValue::Header { space0, name } => is_kw_template_at(
            space0,
            name,
            s,
            n,
            "header"@,
            c1,
            p,
        ),
        QueryValue::Cookie { space0, expr } => is_cookie_query_at(space0, expr, s, n, c1, p),
        QueryValue::Xpath { space0, expr } => is_kw_template_at(space0, expr, s, n, "xpath"@, c1, p),
        QueryValue::Jsonpath { space0, expr } => is_kw_template_at(
            space0,
            expr,
            s,
            n,
            "jsonpath"@,
            c1,
            p,
        ),
        QueryValue::Regex { space0, expr } => is_kw_template_at(space0, expr, s, n, "regex"@, c1, p),
        QueryValue::Variable { space0, name } => is_kw_template_at(
            space0,
            name,
            s,
            n,
            "variable"@,
            c1,
            p,
        ),
    }
}

/// The text at `n` begins a parseable query value.
pub open spec fn query_value_ok(s: Seq<char>, n: int) -> bool {
    ||| starts_with_at(s, n, "status"@)
    ||| kw_template_ok(s, n, "header"@)
    ||| cookie_query_ok(s, n)
    ||| starts_with_at(s, n, "body"@)
    ||| kw_template_ok(s, n, "xpath"@)
    ||| kw_template_ok(s, n, "jsonpath"@)
    ||| kw_template_ok(s, n, "regex"@)
    ||| kw_template_ok(s, n, "variable"@)
}

/// The text at `n` begins a parseable subquery value (only `regex`).
pub open spec fn subquery_value_ok(s: Seq<char>, n: int) -> bool {
    kw_template_ok(s, n, "regex"@)
}

/// The query keywords start with eight distinct letters, so the first
/// character of the input decides which alternative can succeed.
proof fn lemma_qv_ok_shape(s: Seq<char>, n: int)
    requires
        query_value_ok(s, n),
        0 <= n < s.len(),
    ensures
        s[n] == 's' ==> starts_with_at(s, n, "status"@),
        s[n] == 'h' ==> kw_template_ok(s, n, "header"@),
        s[n] == 'c' ==> cookie_query_ok(s, n),
        s[n] == 'b' ==> starts_with_at(s, n, "body"@),
        s[n] == 'x' ==> kw_template_ok(s, n, "xpath"@),
        s[n] == 'j' ==> kw_template_ok(s, n, "jsonpath"@),
        s[n] == 'r' ==> kw_template_ok(s, n, "regex"@),
        s[n] == 'v' ==> kw_template_ok(s, n, "variable"@),
    {
    reveal_strlit("status");
    reveal_strlit("header");
    reveal_strlit("cookie");
    reveal_strlit("body");
    reveal_strlit("xpath");
    reveal_strlit("jsonpath");
    reveal_strlit("regex");
    reveal_strlit("variable");
    if starts_with_at(s, n, "status"@) {
        lemma_starts_with_first(s, n, "status"@);
    }
    if starts_with_at(s, n, "header"@) {
        lemma_starts_with_first(s, n, "header"@);
    }
    if starts_with_at(s, n, "cookie"@) {
        lemma_starts_with_first(s, n, "cookie"@);
    }
    if starts_with_at(s, n, "body"@) {
        lemma_starts_with_first(s, n, "body"@);
    }
    if starts_with_at(s, n, "xpath"@) {
        lemma_starts_with_first(s, n, "xpath"@);
    }
    if starts_with_at(s, n, "jsonpath"@) {
        lemma_starts_with_first(s, n, "jsonpath"@);
    }
    if starts_with_at(s, n, "regex"@) {
        lemma_starts_with_first(s, n, "regex"@);
    }
    if starts_with_at(s, n, "variable"@) {
        lemma_starts_with_first(s, n, "variable"@);
    }
}

/// Keyword, one or more spaces, quoted template: the common shape of
/// the `header`, `xpath`, `jsonpath`, `regex` and `variable` queries.
fn kw_template(kw: &str, reader: &mut Reader) -> (r: ParseResult<(Whitespace, Template)>)
    requires
        old(reader).wf(),
    ensures
        final(reader).wf(),
        final(reader).buffer@ == old(reader).buffer@,
        ({
            let s = old(reader).buffer@;
            let c0 = old(reader).state.cursor as int;
            let p0 = old(reader).state.pos@;
            match r {
                Ok((space0, t)) => {
                    &&& kw_template_ok(s, c0, kw@)
                    &&& is_kw_template_at(
                        space0,
                        t,
                        s,
                        c0,
                        kw@,
                        final(reader).state.cursor as int,
                        p0,
                    )
                    &&& final(reader).state.pos@ == pos_after(
                        p0,
                        s.subrange(c0, final(reader).state.cursor as int),
                    )
                },
                Err(err) => {
                    &&& final(reader).state == old(reader).state
                    &&& !kw_template_ok(s, c0, kw@)
                    &&& err.recoverable == !starts_with_at(s, c0, kw@)
                },
            }
        }),
{
    let ghost s = reader.buffer@;
    let ghost c0 = reader.state.cursor as int;
    let ghost p0 = reader.state.pos@;
    let saved = reader.state;
    proof {
        assert(class_pred(CharClass::Space) =~= (|ch: char| is_space(ch)));
    }
    match try_literal(kw, reader) {
        Err(err) => {
            return Err(err);
        },
        Ok(_) => {},
    }
    let space0 = match one_or_more_spaces(reader) {
        Err(err) => {
            reader.state = saved;
            return Err(err);
        },
        Ok(w) => w,
    };
    let ghost j = reader.state.cursor as int;
    let t = match quoted_template(reader) {
        Err(err) => {
            let inner = err.inner;
            let epos = err.pos;
            reader.state = saved;
            return Err(Error { pos: epos, recoverable: false, inner });
        },
        Ok(t) => t,
    };
    let ghost c1 = reader.state.cursor as int;
    proof {
        assert(s.subrange(c0, j) =~= kw@ + space0.value@);
        lemma_pos_after_app(p0, kw@, space0.value@);
        assert(s.subrange(c0, c1) =~= s.subrange(c0, j) + s.subrange(j, c1));
        lemma_pos_after_app(p0, s.subrange(c0, j), s.subrange(j, c1));
    }
    Ok((space0, t))
}

/// The `status` query: the bare keyword.
pub fn status_query(reader: &mut Reader) -> (r: ParseResult<QueryValue>)
    requires
        old(reader).wf(),
    ensures
        final(reader).wf(),
        final(reader).buffer@ == old(reader).buffer@,
        ({
            let s = old(reader).buffer@;
            let c0 = old(reader).state.cursor as int;
            match r {
                Ok(qv) => {
                    &&& qv == (QueryValue::Status {  })
                    &&& is_query_value_at(
                        qv,
                        s,
                        c0,
                        final(reader).state.cursor as int,
                        old(reader).state.pos@,
                    )
                    &&& final(reader).state.pos@ == pos_after(old(reader).state.pos@, "status"@)
                },
                Err(err) => {
                    &&& final(reader).state == old(reader).state
                    &&& !starts_with_at(s, c0, "status"@)
                    &&& err.recoverable
                },
            }
        }),
{
    proof {
        reveal_strlit("status");
    }
    match try_literal("status", reader) {
        Err(err) => Err(err),
        Ok(_) => Ok(QueryValue::Status {  }),
    }
}

/// The `body` query: the bare keyword.
pub fn body_query(reader: &mut Reader) -> (r: ParseResult<QueryValue>)
    requires
        old(reader).wf(),
    ensures
        final(reader).wf(),
        final(reader).buffer@ == old(reader).buffer@,
        ({
            let s = old(reader).buffer@;
            let c0 = old(reader).state.cursor as int;
            match r {
                Ok(qv) => {
                    &&& qv == (QueryValue::Body {  })
                    &&& is_query_value_at(
                        qv,
                        s,
                        c0,
                        final(reader).state.cursor as int,
                        old(reader).state.pos@,
                    )
                    &&& final(reader).state.pos@ == pos_after(old(reader).state.pos@, "body"@)
                },
                Err(err) => {
                    &&& final(reader).state == old(reader).state
                    &&& !starts_with_at(s, c0, "body"@)
                    &&& err.recoverable
                },
            }
        }),
{
    proof {
        reveal_strlit("body");
    }
    match try_literal("body", reader) {
        Err(err) => Err(err),
        Ok(_) => Ok(QueryValue::Body {  }),
    }
}

/// The `header` query: keyword, spaces, quoted header-name template.
pub fn header_query(reader: &mut Reader) -> (r: ParseResult<QueryValue>)
    requires
        old(reader).wf(),
    ensures
        final(reader).wf(),
        final(reader).buffer@ == old(reader).buffer@,
        ({
            let s = old(reader).buffer@;
            let c0 = old(reader).state.cursor as int;
            match r {
                Ok(qv) => {
                    &&& qv is Header
                    &&& kw_template_ok(s, c0, "header"@)
                    &&& is_query_value_at(
                        qv,
                        s,
                        c0,
                        final(reader).state.cursor as int,
                        old(reader).state.pos@,
                    )
                    &&& final(reader).state.pos@ == pos_after(
                        old(reader).state.pos@,
                        s.subrange(c0, final(reader).state.cursor as int),
                    )
                },
                Err(err) => {
                    &&& final(reader).state == old(reader).state
                    &&& !kw_template_ok(s, c0, "header"@)
                    &&& err.recoverable == !starts_with_at(s, c0, "header"@)
                },
            }
        }),
{
    match kw_template("header", reader) {
        Err(err) => Err(err),
        Ok((space0, name)) => Ok(QueryValue::Header { space0, name }),
    }
}

/// The `xpath` query: keyword, spaces, quoted expression template.
pub fn xpath_query(reader: &mut Reader) -> (r: ParseResult<QueryValue>)
    requires
        old(reader).wf(),
    ensures
        final(reader).wf(),
        final(reader).buffer@ == old(reader).buffer@,
        ({
            let s = old(reader).buffer@;
            let c0 = old(reader).state.cursor as int;
            match r {
                Ok(qv) => {
                    &&& qv is Xpath
                    &&& kw_template_ok(s, c0, "xpath"@)
                    &&& is_query_value_at(
                        qv,
                        s,
                        c0,
                        final(reader).state.cursor as int,
                        old(reader).state.pos@,
                    )
                    &&& final(reader).state.pos@ == pos_after(
                        old(reader).state.pos@,
                        s.subrange(c0, final(reader).state.cursor as int),
                    )
                },
                Err(err) => {
                    &&& final(reader).state == old(reader).state
                    &&& !kw_template_ok(s, c0, "xpath"@)
                    &&& err.recoverable == !starts_with_at(s, c0, "xpath"@)
                },
            }
        }),
{
    match kw_template("xpath", reader) {
        Err(err) => Err(err),
        Ok((space0, expr)) => Ok(QueryValue::Xpath { space0, expr }),
    }
}

/// The `jsonpath` query: keyword, spaces, quoted expression template.
pub fn jsonpath_query(reader: &mut Reader) -> (r: ParseResult<QueryValue>)
    requires
        old(reader).wf(),
    ensures
        final(reader).wf(),
        final(reader).buffer@ == old(reader).buffer@,
        ({
            let s = old(reader).buffer@;
            let c0 = old(reader).state.cursor as int;
            match r {
                Ok(qv) => {
                    &&& qv is Jsonpath
                    &&& kw_template_ok(s, c0, "jsonpath"@)
                    &&& is_query_value_at(
                        qv,
                        s,
                        c0,
                        final(reader).state.cursor as int,
                        old(reader).state.pos@,
                    )
                    &&& final(reader).state.pos@ == pos_after(
                        old(reader).state.pos@,
                        s.subrange(c0, final(reader).state.cursor as int),
                    )
                },
                Err(err) => {
                    &&& final(reader).state == old(reader).state
                    &&& !kw_template_ok(s, c0, "jsonpath"@)
                    &&& err.recoverable == !starts_with_at(s, c0, "jsonpath"@)
                },
            }
        }),
{
    match kw_template("jsonpath", reader) {
        Err(err) => Err(err),
        Ok((space0, expr)) => Ok(QueryValue::Jsonpath { space0, expr }),
    }
}

/// The `regex` query: keyword, spaces, quoted expression template.
pub fn regex_query(reader: &mut Reader) -> (r: ParseResult<QueryValue>)
    requires
        old(reader).wf(),
    ensures
        final(reader).wf(),
        final(reader).buffer@ == old(reader).buffer@,
        ({
            let s = old(reader).buffer@;
            let c0 = old(reader).state.cursor as int;
            match r {
                Ok(qv) => {
                    &&& qv is Regex
                    &&& kw_template_ok(s, c0, "regex"@)
                    &&& is_query_value_at(
                        qv,
                        s,
                        c0,
                        final(reader).state.cursor as int,
                        old(reader).state.pos@,
                    )
                    &&& final(reader).state.pos@ == pos_after(
                        old(reader).state.pos@,
                        s.subrange(c0, final(reader).state.cursor as int),
                    )
                },
                Err(err) => {
                    &&& final(reader).state == old(reader).state
                    &&& !kw_template_ok(s, c0, "regex"@)
                    &&& err.recoverable == !starts_with_at(s, c0, "regex"@)
                },
            }
        }),
{
    match kw_template("regex", reader) {
        Err(err) => Err(err),
        Ok((space0, expr)) => Ok(QueryValue::Regex { space0, expr }),
    }
}

/// The `variable` query: keyword, spaces, quoted name template.
pub fn variable_query(reader: &mut Reader) -> (r: ParseResult<QueryValue>)
    requires
        old(reader).wf(),
    ensures
        final(reader).wf(),
        final(reader).buffer@ == old(reader).buffer@,
        ({
            let s = old(reader).buffer@;
            let c0 = old(reader).state.cursor as int;
            match r {
                Ok(qv) => {
                    &&& qv is Variable
                    &&& kw_template_ok(s, c0, "variable"@)
                    &&& is_query_value_at(
                        qv,
                        s,
                        c0,
                        final(reader).state.cursor as int,
                        old(reader).state.pos@,
                    )
                    &&& final(reader).state.pos@ == pos_after(
                        old(reader).state.pos@,
                        s.subrange(c0, final(reader).state.cursor as int),
                    )
                },
                Err(err) => {
                    &&& final(reader).state == old(reader).state
                    &&& !kw_template_ok(s, c0, "variable"@)
                    &&& err.recoverable == !starts_with_at(s, c0, "variable"@)
                },
            }
        }),
{
    match kw_template("variable", reader) {
        Err(err) => Err(err),
        Ok((space0, name)) => Ok(QueryValue::Variable { space0, name }),
    }
}

/// The `cookie` query: keyword, spaces, then a quoted string whose
/// interior is re-parsed as a cookie path. The inner reader's position
/// is offset one column past the opening quote, so diagnostics inside
/// the cookie path point at the right column of the outer source.
pub fn cookie_query(reader: &mut Reader) -> (r: ParseResult<QueryValue>)
    requires
        old(reader).wf(),
    ensures
        final(reader).wf(),
        final(reader).buffer@ == old(reader).buffer@,
        ({
            let s = old(reader).buffer@;
            let c0 = old(reader).state.cursor as int;
            match r {
                Ok(qv) => {
                    &&& qv is Cookie
                    &&& cookie_query_ok(s, c0)
                    &&& is_query_value_at(
                        qv,
                        s,
                        c0,
                        final(reader).state.cursor as int,
                        old(reader).state.pos@,
                    )
                    &&& final(reader).state.pos@ == pos_after(
                        old(reader).state.pos@,
                        s.subrange(c0, final(reader).state.cursor as int),
                    )
                },
                Err(err) => {
                    &&& final(reader).state == old(reader).state
                    &&& !cookie_query_ok(s, c0)
                    &&& err.recoverable == !starts_with_at(s, c0, "cookie"@)
                },
            }
        }),
{
    let ghost s = reader.buffer@;
    let ghost c0 = reader.state.cursor as int;
    let ghost p0 = reader.state.pos@;
    let saved = reader.state;
    proof {
        reveal_strlit("cookie");
        assert(class_pred(CharClass::Space) =~= (|ch: char| is_space(ch)));
    }
    match try_literal("cookie", reader) {
        Err(err) => {
            return Err(err);
        },
        Ok(_) => {},
    }
    let space0 = match one_or_more_spaces(reader) {
        Err(err) => {
            reader.state = saved;
            return Err(err);
        },
        Ok(w) => w,
    };
    let ghost j = reader.state.cursor as int;
    let start = reader.state.pos;
    let ghost headroom = reader.buffer@.len() - reader.state.cursor;
    let inner_str = match quoted_string(reader) {
        Err(err) => {
            let inner = err.inner;
            let epos = err.pos;
            reader.state = saved;
            return Err(Error { pos: epos, recoverable: false, inner });
        },
        Ok(v) => v,
    };
    let ghost e = reader.state.cursor as int - 1;
    proof {
        assert(class_pred(CharClass::StringContent) =~= (|ch: char| ch != '"'));
        lemma_run_end(s, j + 1, class_pred(CharClass::StringContent));
        assert(inner_str@.len() == e - (j + 1));
    }
    let mut inner_reader = Reader::init(inner_str.as_str());
    inner_reader.state.pos = Pos { line: start.line, column: start.column + 1 };
    proof {
        assert(inner_reader.buffer@.len() == e - (j + 1));
        assert(inner_reader.wf());
    }
    let expr = match cookiepath(&mut inner_reader) {
        Err(err) => {
            proof {
                assert(inner_reader.buffer@ == s.subrange(j + 1, e));
                assert(cookiepath_fails(s.subrange(j + 1, e), 0));
            }
            let inner = err.inner;
            let epos = err.pos;
            reader.state = saved;
            return Err(Error { pos: epos, recoverable: false, inner });
        },
        Ok(cp) => cp,
    };
    proof {
        assert(s.subrange(c0, j) =~= "cookie"@ + space0.value@);
        lemma_pos_after_app(p0, "cookie"@, space0.value@);
        assert(s.subrange(c0, e + 1) =~= s.subrange(c0, j) + s.subrange(j, e + 1));
        lemma_pos_after_app(p0, s.subrange(c0, j), s.subrange(j, e + 1));
    }
    Ok(QueryValue::Cookie { space0, expr })
}

/// Try the query alternatives in order, moving past one only when it
/// fails recoverably (that is, before its keyword committed).
pub fn query_value(reader: &mut Reader) -> (r: ParseResult<QueryValue>)
    requires
        old(reader).wf(),
    ensures
        final(reader).wf(),
        final(reader).buffer@ == old(reader).buffer@,
        ({
            let s = old(reader).buffer@;
            let c0 = old(reader).state.cursor as int;
            match r {
                Ok(qv) => {
                    &&& query_value_ok(s, c0)
                    &&& is_query_value_at(
                        qv,
                        s,
                        c0,
                        final(reader).state.cursor as int,
                        old(reader).state.pos@,
                    )
                    &&& final(reader).state.pos@ == pos_after(
                        old(reader).state.pos@,
                        s.subrange(c0, final(reader).state.cursor as int),
                    )
                },
                Err(err) => {
                    &&& final(reader).state == old(reader).state
                    &&& !query_value_ok(s, c0)
                },
            }
        }),
{
    let ghost s = reader.buffer@;
    let ghost c0 = reader.state.cursor as int;
    proof {
        reveal_strlit("status");
    }
    match status_query(reader) {
        Ok(qv) => {
            proof {
                lemma_pos_after_status(old(reader).state.pos@, s, c0);
            }
            return Ok(qv);
        },
        Err(err) => {
            if !err.recoverable {
                proof {
                    assert(false);
                }
                return Err(err);
            }
        },
    }
    match header_query(reader) {
        Ok(qv) => {
            return Ok(qv);
        },
        Err(err) => {
            if !err.recoverable {
                proof {
                    reveal_strlit("header");
                    lemma_starts_with_first(s, c0, "header"@);
                    qv_commit_excludes(s, c0, 'h');
                }
                return Err(err);
            }
        },
    }
    match cookie_query(reader) {
        Ok(qv) => {
            return Ok(qv);
        },
        Err(err) => {
            if !err.recoverable {
                proof {
                    reveal_strlit("cookie");
                    lemma_starts_with_first(s, c0, "cookie"@);
                    qv_commit_excludes(s, c0, 'c');
                }
                return Err(err);
            }
        },
    }
    match body_query(reader) {
        Ok(qv) => {
            proof {
                lemma_pos_after_body(old(reader).state.pos@, s, c0);
            }
            return Ok(qv);
        },
        Err(err) => {
            if !err.recoverable {
                proof {
                    assert(false);
                }
                return Err(err);
            }
        },
    }
    match xpath_query(reader) {
        Ok(qv) => {
            return Ok(qv);
        },
        Err(err) => {
            if !err.recoverable {
                proof {
                    reveal_strlit("xpath");
                    lemma_starts_with_first(s, c0, "xpath"@);
                    qv_commit_excludes(s, c0, 'x');
                }
                return Err(err);
            }
        },
    }
    match jsonpath_query(reader) {
        Ok(qv) => {
            return Ok(qv);
        },
        Err(err) => {
            if !err.recoverable {
                proof {
                    reveal_strlit("jsonpath");
                    lemma_starts_with_first(s, c0, "jsonpath"@);
                    qv_commit_excludes(s, c0, 'j');
                }
                return Err(err);
            }
        },
    }
    match regex_query(reader) {
        Ok(qv) => {
            return Ok(qv);
        },
        Err(err) => {
            if !err.recoverable {
                proof {
                    reveal_strlit("regex");
                    lemma_starts_with_first(s, c0, "regex"@);
                    qv_commit_excludes(s, c0, 'r');
                }
                return Err(err);
            }
        },
    }
    match variable_query(reader) {
        Ok(qv) => {
            return Ok(qv);
        },
        Err(err) => {
            proof {
                if err.recoverable {
                } else {
                    reveal_strlit("variable");
                    lemma_starts_with_first(s, c0, "variable"@);
                    qv_commit_excludes(s, c0, 'v');
                }
            }
            return Err(err);
        },
    }
}

/// After committing on a keyword whose first letter is `first` and then
/// failing, no query alternative could have succeeded.
proof fn qv_commit_excludes(s: Seq<char>, n: int, first: char)
    requires
        0 <= n < s.len(),
        s[n] == first,
        first == 'h' ==> !kw_template_ok(s, n, "header"@),
        first == 'c' ==> !cookie_query_ok(s, n),
        first == 'x' ==> !kw_template_ok(s, n, "xpath"@),
        first == 'j' ==> !kw_template_ok(s, n, "jsonpath"@),
        first == 'r' ==> !kw_template_ok(s, n, "regex"@),
        first == 'v' ==> !kw_template_ok(s, n, "variable"@),
        first == 'h' || first == 'c' || first == 'x' || first == 'j' || first == 'r' || first
            == 'v',
    ensures
        !query_value_ok(s, n),
{
    if query_value_ok(s, n) {
        lemma_qv_ok_shape(s, n);
    }
}

/// The position after the fixed keyword `status` written as a subrange.
proof fn lemma_pos_after_status(p: (int, int), s: Seq<char>, n: int)
    requires
        starts_with_at(s, n, "status"@),
    ensures
        pos_after(p, "status"@) == pos_after(p, s.subrange(n, n + 6)),
{
    reveal_strlit("status");
    assert(s.subrange(n, n + 6) =~= "status"@);
}

/// The position after the fixed keyword `body` written as a subrange.
proof fn lemma_pos_after_body(p: (int, int), s: Seq<char>, n: int)
    requires
        starts_with_at(s, n, "body"@),
    ensures
        pos_after(p, "body"@) == pos_after(p, s.subrange(n, n + 4)),
{
    reveal_strlit("body");
    assert(s.subrange(n, n + 4) =~= "body"@);
}

/// Parse a query: a query value wrapped with the span of the text it
/// consumed.
pub fn query(reader: &mut Reader) -> (r: ParseResult<Query>)
    requires
        old(reader).wf(),
    ensures
        final(reader).wf(),
        final(reader).buffer@ == old(reader).buffer@,
        ({
            let s = old(reader).buffer@;
            let c0 = old(reader).state.cursor as int;
            let p0 = old(reader).state.pos@;
            match r {
                Ok(q) => {
                    &&& query_value_ok(s, c0)
                    &&& is_query_value_at(q.value, s, c0, final(reader).state.cursor as int, p0)
                    &&& q.source_info.start@ == p0
                    &&& q.source_info.end@ == pos_after(
                        p0,
                        s.subrange(c0, final(reader).state.cursor as int),
                    )
                    &&& final(reader).state.pos@ == q.source_info.end@
                },
                Err(err) => {
                    &&& final(reader).state == old(reader).state
                    &&& !query_value_ok(s, c0)
                },
            }
        }),
{
    let start = reader.state.pos;
    let value = match query_value(reader) {
        Err(err) => {
            return Err(err);
        },
        Ok(qv) => qv,
    };
    let end = reader.state.pos;
    Ok(Query { source_info: SourceInfo { start, end }, value })
}

/// The `regex` subquery: keyword, spaces, quoted expression template.
pub fn regex_subquery(reader: &mut Reader) -> (r: ParseResult<SubqueryValue>)
    requires
        old(reader).wf(),
    ensures
        final(reader).wf(),
        final(reader).buffer@ == old(reader).buffer@,
        ({
            let s = old(reader).buffer@;
            let c0 = old(reader).state.cursor as int;
            match r {
                Ok(sv) => {
                    &&& kw_template_ok(s, c0, "regex"@)
                    &&& (sv matches SubqueryValue::Regex { space0, expr } && is_kw_template_at(
                        space0,
                        expr,
                        s,
                        c0,
                        "regex"@,
                        final(reader).state.cursor as int,
                        old(reader).state.pos@,
                    ))
                    &&& final(reader).state.pos@ == pos_after(
                        old(reader).state.pos@,
                        s.subrange(c0, final(reader).state.cursor as int),
                    )
                },
                Err(err) => {
                    &&& final(reader).state == old(reader).state
                    &&& !kw_template_ok(s, c0, "regex"@)
                    &&& err.recoverable == !starts_with_at(s, c0, "regex"@)
                },
            }
        }),
{
    match kw_template("regex", reader) {
        Err(err) => Err(err),
        Ok((space0, expr)) => Ok(SubqueryValue::Regex { space0, expr }),
    }
}

/// Try the subquery alternatives; only `regex` exists.
pub fn subquery_value(reader: &mut Reader) -> (r: ParseResult<SubqueryValue>)
    requires
        old(reader).wf(),
    ensures
        final(reader).wf(),
        final(reader).buffer@ == old(reader).buffer@,
        ({
            let s = old(reader).buffer@;
            let c0 = old(reader).state.cursor as int;
            match r {
                Ok(sv) => {
                    &&& subquery_value_ok(s, c0)
                    &&& (sv matches SubqueryValue::Regex { space0, expr } && is_kw_template_at(
                        space0,
                        expr,
                        s,
                        c0,
                        "regex"@,
                        final(reader).state.cursor as int,
                        old(reader).state.pos@,
                    ))
                    &&& final(reader).state.pos@ == pos_after(
                        old(reader).state.pos@,
                        s.subrange(c0, final(reader).state.cursor as int),
                    )
                },
                Err(err) => {
                    &&& final(reader).state == old(reader).state
                    &&& !subquery_value_ok(s, c0)
                },
            }
        }),
{
    regex_subquery(reader)
}

/// Parse a subquery: a subquery value wrapped with the span of the text
/// it consumed.
pub fn subquery(reader: &mut Reader) -> (r: ParseResult<Subquery>)
    requires
        old(reader).wf(),
    ensures
        final(reader).wf(),
        final(reader).buffer@ == old(reader).buffer@,
        ({
            let s = old(reader).buffer@;
            let c0 = old(reader).state.cursor as int;
            let p0 = old(reader).state.pos@;
            match r {
                Ok(q) => {
                    &&& subquery_value_ok(s, c0)
                    &&& (q.value matches SubqueryValue::Regex { space0, expr }
                        && is_kw_template_at(
                        space0,
                        expr,
                        s,
                        c0,
                        "regex"@,
                        final(reader).state.cursor as int,
                        p0,
                    ))
                    &&& q.source_info.start@ == p0
                    &&& q.source_info.end@ == pos_after(
                        p0,
                        s.subrange(c0, final(reader).state.cursor as int),
                    )
                    &&& final(reader).state.pos@ == q.source_info.end@
                },
                Err(err) => {
                    &&& final(reader).state == old(reader).state
                    &&& !subquery_value_ok(s, c0)
                },
            }
        }),
{
    let start = reader.state.pos;
    let value = match subquery_value(reader) {
        Err(err) => {
            return Err(err);
        },
        Ok(sv) => sv,
    };
    let end = reader.state.pos;
    Ok(Subquery { source_info: SourceInfo { start, end }, value })
}

} // verus!
