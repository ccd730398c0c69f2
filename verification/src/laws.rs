//! The library's cross-cutting guarantees, stated once and proved from
//! the public contracts: the formatter round trip for templates, the
//! span discipline of sibling nodes, and the behaviour of pure-literal
//! templates under evaluation.

use vstd::prelude::*;

use crate::ast::{elems_encoded, is_quoted_template_at, Template, TemplateElement, Whitespace};
use crate::query::is_kw_template_at;
use crate::template::{all_ok, elem_ok, eval_texts, is_eval_error, RunnerError};
use crate::text::{lemma_pos_after_app, lemma_pos_after_le, pos_after, pos_le, run_end, is_space,
    starts_with_at};
use crate::value::Value;

verus! {

/// What a formatter writes back for a quoted template: the opening
/// quote, each element's encoded text, the closing quote.
pub open spec fn template_unparse(t: Template) -> Seq<char> {
    seq!['"'] + elems_encoded(t.elements@, 0) + seq!['"']
}

/// Round trip: a parsed quoted template writes back to exactly the text
/// it consumed, escape sequences and expression spellings included.
pub proof fn theorem_template_round_trip(
    t: Template,
    s: Seq<char>,
    a: int,
    b: int,
    p: (int, int),
)
    requires
        is_quoted_template_at(t, s, a, b, p),
    ensures
        template_unparse(t) == s.subrange(a, b),
{
    assert(template_unparse(t) =~= s.subrange(a, b)) by {
        assert(elems_encoded(t.elements@, 0) == s.subrange(a + 1, b - 1));
        assert(s.subrange(a, b) =~= seq![s[a]] + s.subrange(a + 1, b - 1) + seq![s[b - 1]]);
    }
}

/// Span discipline: in a keyword query, the whitespace node begins
/// where the keyword ends and ends exactly where the template begins —
/// sibling spans stand side by side without overlap — and every span
/// lies between the query's start and its end, in source order.
pub proof fn theorem_kw_query_spans(
    space0: Whitespace,
    t: Template,
    s: Seq<char>,
    n: int,
    kw: Seq<char>,
    c1: int,
    p: (int, int),
)
    requires
        is_kw_template_at(space0, t, s, n, kw, c1, p),
        starts_with_at(s, n, kw),
        p.1 >= 1,
    ensures
        space0.source_info.start@ == pos_after(p, kw),
        space0.source_info.end@ == t.source_info.start@,
        pos_le(p, space0.source_info.start@),
        pos_le(space0.source_info.start@, space0.source_info.end@),
        pos_le(t.source_info.start@, t.source_info.end@),
        t.source_info.end@ == pos_after(p, s.subrange(n, c1)),
{
    let k = n + kw.len() as int;
    let j = run_end(s, k, |ch: char| is_space(ch));
    assert(s.subrange(n, j) =~= kw + space0.value@) by {
        assert(kw =~= s.subrange(n, k));
        assert(space0.value@ == s.subrange(k, j));
    }
    lemma_pos_after_app(p, kw, space0.value@);
    lemma_pos_after_le(p, kw);
    lemma_pos_after_le(pos_after(p, kw), space0.value@);
    lemma_pos_after_le(pos_after(p, s.subrange(n, j)), s.subrange(j, c1));
    assert(s.subrange(n, c1) =~= s.subrange(n, j) + s.subrange(j, c1));
    lemma_pos_after_app(p, s.subrange(n, j), s.subrange(j, c1));
}

/// Span discipline inside an expression element: the inner whitespace,
/// variable and whitespace spans stand side by side in source order,
/// each beginning exactly where the previous one ends.
pub proof fn theorem_expression_spans(e: TemplateElement, p: (int, int))
    requires
        crate::ast::elem_spans_ok(e, p),
        p.1 >= 1,
    ensures
        e matches TemplateElement::Expression(x) ==> {
            &&& x.space0.source_info.start@ == (p.0, p.1 + 2)
            &&& x.space0.source_info.end@ == x.variable.source_info.start@
            &&& x.variable.source_info.end@ == x.space1.source_info.start@
            &&& pos_le(x.space0.source_info.start@, x.space0.source_info.end@)
            &&& pos_le(x.variable.source_info.start@, x.variable.source_info.end@)
            &&& pos_le(x.space1.source_info.start@, x.space1.source_info.end@)
        },
{
    match e {
        TemplateElement::Expression(x) => {
            lemma_pos_after_le((p.0, p.1 + 2), x.space0.value@);
            lemma_pos_after_le(pos_after((p.0, p.1 + 2), x.space0.value@), x.variable.name@);
            lemma_pos_after_le(
                pos_after(pos_after((p.0, p.1 + 2), x.space0.value@), x.variable.name@),
                x.space1.value@,
            );
        },
        TemplateElement::Literal { .. } => {},
    }
}

/// Idempotence of formatting: writing back a template parsed from a
/// written-back template changes nothing.
pub proof fn theorem_template_format_idempotent(
    t1: Template,
    s: Seq<char>,
    a: int,
    b: int,
    p: (int, int),
    t2: Template,
    p2: (int, int),
)
    requires
        is_quoted_template_at(t1, s, a, b, p),
        is_quoted_template_at(t2, template_unparse(t1), 0, template_unparse(t1).len() as int, p2),
    ensures
        template_unparse(t2) == template_unparse(t1),
{
    theorem_template_round_trip(t1, s, a, b, p);
    theorem_template_round_trip(
        t2,
        template_unparse(t1),
        0,
        template_unparse(t1).len() as int,
        p2,
    );
    assert(template_unparse(t1).subrange(0, template_unparse(t1).len() as int) =~= template_unparse(
        t1,
    ));
}

/// The concatenated values of the literal elements from index `i` on.
pub open spec fn literal_concat(es: Seq<TemplateElement>, i: int) -> Seq<char>
    decreases es.len() - i,
{
    if i < 0 || i >= es.len() {
        Seq::<char>::empty()
    } else {
        (match es[i] {
            TemplateElement::Literal { value, .. } => value@,
            TemplateElement::Expression(_) => Seq::<char>::empty(),
        }) + literal_concat(es, i + 1)
    }
}

proof fn lemma_pure_literal_from(
    es: Seq<TemplateElement>,
    i: int,
    vars: Map<Seq<char>, Value>,
)
    requires
        forall|m: int| 0 <= m < es.len() ==> (#[trigger] es[m]) is Literal,
        0 <= i <= es.len(),
    ensures
        eval_texts(es, i, vars) == literal_concat(es, i),
    decreases es.len() - i,
{
    if i < es.len() {
        lemma_pure_literal_from(es, i + 1, vars);
    }
}

/// Pure-literal templates: a template whose elements are all literals
/// evaluates, under any variable set, to the concatenation of its
/// literal values.
pub proof fn theorem_pure_literal_eval(es: Seq<TemplateElement>, vars: Map<Seq<char>, Value>)
    requires
        forall|m: int| 0 <= m < es.len() ==> (#[trigger] es[m]) is Literal,
    ensures
        all_ok(es, vars),
        eval_texts(es, 0, vars) == literal_concat(es, 0),
{
    assert forall|m: int| 0 <= m < es.len() implies elem_ok(#[trigger] es[m], vars) by {
        assert(es[m] is Literal);
    }
    lemma_pure_literal_from(es, 0, vars);
}

/// Pure-literal evaluation does not depend on the variables at all.
pub proof fn theorem_pure_literal_eval_stable(
    es: Seq<TemplateElement>,
    vars1: Map<Seq<char>, Value>,
    vars2: Map<Seq<char>, Value>,
)
    requires
        forall|m: int| 0 <= m < es.len() ==> (#[trigger] es[m]) is Literal,
    ensures
        eval_texts(es, 0, vars1) == eval_texts(es, 0, vars2),
{
    theorem_pure_literal_eval(es, vars1);
    theorem_pure_literal_eval(es, vars2);
}

/// A missing variable's error is located exactly at the variable's
/// source span and carries the variable's name.
pub proof fn theorem_missing_variable_span(
    e: TemplateElement,
    vars: Map<Seq<char>, Value>,
    err: crate::template::Error,
)
    requires
        is_eval_error(e, vars, err),
        e matches TemplateElement::Expression(x) ==> !vars.contains_key(x.variable.name@),
    ensures
        e matches TemplateElement::Expression(x) ==> err.source_info == x.variable.source_info
            && (err.inner matches RunnerError::TemplateVariableNotDefined { name } && name@
            == x.variable.name@),
{
}

} // verus!
