//! Abstract syntax tree for response queries and templates. Every node
//! carries a `SourceInfo` span; the predicates at the end of this module
//! say exactly how a parsed node relates to the source text it came from.

use vstd::prelude::*;

use crate::text::{decodes_to, is_ident_char, is_space, pos_after};

verus! {

/// A 1-based line/column position in the source text.
#[derive(Clone, Copy, Debug, PartialEq, Eq, Structural)]
pub struct Pos {
    pub line: usize,
    pub column: usize,
}

impl View for Pos {
    type V = (int, int);

    open spec fn view(&self) -> (int, int) {
        (self.line as int, self.column as int)
    }
}

/// The source extent of a node: where it starts and the position just
/// after its last character. Whitespace nodes may be empty
/// (`start == end`).
#[derive(Clone, Copy, Debug, PartialEq, Eq, Structural)]
pub struct SourceInfo {
    pub start: Pos,
    pub end: Pos,
}

impl SourceInfo {
    /// The span from line `l0`, column `c0` to line `l1`, column `c1`.
    pub fn init(l0: usize, c0: usize, l1: usize, c1: usize) -> (r: SourceInfo)
        ensures
            r == (SourceInfo {
                start: Pos { line: l0, column: c0 },
                end: Pos { line: l1, column: c1 },
            }),
    {
        SourceInfo { start: Pos { line: l0, column: c0 }, end: Pos { line: l1, column: c1 } }
    }
}

/// A run of horizontal whitespace, kept verbatim for round-tripping.
#[derive(Clone, Debug, PartialEq, Eq)]
pub struct Whitespace {
    pub value: String,
    pub source_info: SourceInfo,
}

/// A variable occurrence inside a `{{ ... }}` expression.
#[derive(Clone, Debug, PartialEq, Eq)]
pub struct Variable {
    pub name: String,
    pub source_info: SourceInfo,
}

/// The interior of a `{{ ... }}` expression: optional spaces around a
/// variable name.
#[derive(Clone, Debug, PartialEq, Eq)]
pub struct Expr {
    pub space0: Whitespace,
    pub variable: Variable,
    pub space1: Whitespace,
}

/// One element of a template: a literal run (with both its decoded value
/// and its original encoded form, so formatters can round-trip the exact
/// input) or a `{{ ... }}` expression.
#[derive(Clone, Debug, PartialEq, Eq)]
pub enum TemplateElement {
    Literal { value: String, encoded: String },
    Expression(Expr),
}

/// A string with `{{var}}` interpolation holes.
#[derive(Clone, Debug, PartialEq, Eq)]
pub struct Template {
    pub quotes: bool,
    pub elements: Vec<TemplateElement>,
    pub source_info: SourceInfo,
}

/// The attribute selected by a cookie path, carrying the attribute name
/// exactly as written.
#[derive(Clone, Debug, PartialEq, Eq)]
pub enum CookieAttributeName {
    Value(String),
    Expires(String),
    MaxAge(String),
    Domain(String),
    Path(String),
    Secure(String),
    HttpOnly(String),
    SameSite(String),
}

/// The bracketed attribute part of a cookie path: `[` spaces name spaces `]`.
#[derive(Clone, Debug, PartialEq, Eq)]
pub struct CookieAttribute {
    pub space0: Whitespace,
    pub name: CookieAttributeName,
    pub space1: Whitespace,
}

/// A cookie path: a cookie name optionally followed by `[Attribute]`.
#[derive(Clone, Debug, PartialEq, Eq)]
pub struct CookiePath {
    pub name: Template,
    pub attribute: Option<CookieAttribute>,
}

/// The variants of a query against an HTTP response.
#[derive(Clone, Debug, PartialEq, Eq)]
pub enum QueryValue {
    Status {},
    Header { space0: Whitespace, name: Template },
    Cookie { space0: Whitespace, expr: CookiePath },
    Body {},
    Xpath { space0: Whitespace, expr: Template },
    Jsonpath { space0: Whitespace, expr: Template },
    Regex { space0: Whitespace, expr: Template },
    Variable { space0: Whitespace, name: Template },
}

/// A query with the span of its source text.
#[derive(Clone, Debug, PartialEq, Eq)]
pub struct Query {
    pub source_info: SourceInfo,
    pub value: QueryValue,
}

/// The variants of a subquery (a secondary extraction applied to a query
/// result); only `regex` exists.
#[derive(Clone, Debug, PartialEq, Eq)]
pub enum SubqueryValue {
    Regex { space0: Whitespace, expr: Template },
}

/// A subquery with the span of its source text.
#[derive(Clone, Debug, PartialEq, Eq)]
pub struct Subquery {
    pub source_info: SourceInfo,
    pub value: SubqueryValue,
}

// ---------------------------------------------------------------------------
// How parsed nodes relate to the source text.
// ---------------------------------------------------------------------------

/// Every character of `s` is horizontal whitespace.
pub open spec fn all_spaces(s: Seq<char>) -> bool {
    forall|i: int| 0 <= i < s.len() ==> is_space(s[i])
}

/// Every character of `s` is a variable-name character.
pub open spec fn all_ident(s: Seq<char>) -> bool {
    forall|i: int| 0 <= i < s.len() ==> is_ident_char(s[i])
}

/// `w` is the whitespace run covering `s[a .. b]`, whose span starts at
/// position `p`.
pub open spec fn is_whitespace_at(w: Whitespace, s: Seq<char>, a: int, b: int, p: (int, int)) -> bool {
    &&& 0 <= a <= b <= s.len()
    &&& w.value@ == s.subrange(a, b)
    &&& all_spaces(w.value@)
    &&& w.source_info.start@ == p
    &&& w.source_info.end@ == pos_after(p, w.value@)
}

/// The encoded source form of one template element: the literal's original
/// text, or the expression written back between double braces.
pub open spec fn elem_encoded(e: TemplateElement) -> Seq<char> {
    match e {
        TemplateElement::Literal { value, encoded } => encoded@,
        TemplateElement::Expression(x) => seq!['{', '{'] + x.space0.value@ + x.variable.name@
            + x.space1.value@ + seq!['}', '}'],
    }
}

/// The concatenated encoded form of the elements from index `i` on.
pub open spec fn elems_encoded(es: Seq<TemplateElement>, i: int) -> Seq<char>
    decreases es.len() - i,
{
    if i < 0 || i >= es.len() {
        Seq::<char>::empty()
    } else {
        elem_encoded(es[i]) + elems_encoded(es, i + 1)
    }
}

/// Appending an element appends its encoded form.
pub proof fn lemma_elems_encoded_push(es: Seq<TemplateElement>, e: TemplateElement, i: int)
    requires
        0 <= i <= es.len(),
    ensures
        elems_encoded(es.push(e), i) == elems_encoded(es, i) + elem_encoded(e),
    decreases es.len() - i,
{
    if i < es.len() {
        assert(es.push(e)[i] == es[i]);
        lemma_elems_encoded_push(es, e, i + 1);
        assert(elem_encoded(es[i]) + (elems_encoded(es, i + 1) + elem_encoded(e))
            =~= (elem_encoded(es[i]) + elems_encoded(es, i + 1)) + elem_encoded(e));
    } else {
        assert(elems_encoded(es.push(e), i + 1) =~= Seq::<char>::empty());
        assert(elems_encoded(es, i) =~= Seq::<char>::empty());
        assert(Seq::<char>::empty() + elem_encoded(e) =~= elem_encoded(e));
        assert(es.push(e)[i] == e);
    }
}

/// Internal well-formedness of one template element: a literal keeps a
/// non-empty encoded form that decodes to its value; an expression holds
/// a non-empty variable name of name characters between whitespace runs.
pub open spec fn elem_wf(e: TemplateElement) -> bool {
    match e {
        TemplateElement::Literal { value, encoded } => encoded@.len() > 0 && decodes_to(
            encoded@,
            value@,
        ),
        TemplateElement::Expression(x) => x.variable.name@.len() > 0 && all_ident(x.variable.name@)
            && all_spaces(x.space0.value@) && all_spaces(x.space1.value@),
    }
}

pub open spec fn elems_wf(es: Seq<TemplateElement>) -> bool {
    forall|i: int| 0 <= i < es.len() ==> elem_wf(#[trigger] es[i])
}

/// Adjacent literal elements are merged at parse time: no two literals
/// stand side by side.
pub open spec fn elems_merged(es: Seq<TemplateElement>) -> bool {
    forall|i: int|
        0 <= i && i + 1 < es.len() ==> !((es[i] is Literal) && (#[trigger] es[i + 1]) is Literal)
}

/// The spans inside one expression element, when the element's encoded
/// form starts at position `p`.
pub open spec fn elem_spans_ok(e: TemplateElement, p: (int, int)) -> bool {
    match e {
        TemplateElement::Literal { .. } => true,
        TemplateElement::Expression(x) => {
            let p0 = (p.0, p.1 + 2);
            let p1 = pos_after(p0, x.space0.value@);
            let p2 = pos_after(p1, x.variable.name@);
            let p3 = pos_after(p2, x.space1.value@);
            &&& x.space0.source_info.start@ == p0
            &&& x.space0.source_info.end@ == p1
            &&& x.variable.source_info.start@ == p1
            &&& x.variable.source_info.end@ == p2
            &&& x.space1.source_info.start@ == p2
            &&& x.space1.source_info.end@ == p3
        },
    }
}

/// The spans of the elements from index `i` on, when element `i` starts
/// at position `p`: each element's inner spans are exact, successive
/// elements standing side by side.
pub open spec fn elems_spans_ok(es: Seq<TemplateElement>, i: int, p: (int, int)) -> bool
    decreases es.len() - i,
{
    if i < 0 || i >= es.len() {
        true
    } else {
        elem_spans_ok(es[i], p) && elems_spans_ok(es, i + 1, pos_after(p, elem_encoded(es[i])))
    }
}

/// Appending an element whose spans are exact at the end position keeps
/// the span discipline.
pub proof fn lemma_elems_spans_push(
    es: Seq<TemplateElement>,
    e: TemplateElement,
    i: int,
    p: (int, int),
)
    requires
        0 <= i <= es.len(),
        elems_spans_ok(es, i, p),
        elem_spans_ok(e, pos_after(p, elems_encoded(es, i))),
    ensures
        elems_spans_ok(es.push(e), i, p),
    decreases es.len() - i,
{
    if i < es.len() {
        assert(es.push(e)[i] == es[i]);
        crate::text::lemma_pos_after_app(p, elem_encoded(es[i]), elems_encoded(es, i + 1));
        lemma_elems_spans_push(es, e, i + 1, pos_after(p, elem_encoded(es[i])));
    } else {
        assert(elems_encoded(es, i) =~= Seq::<char>::empty());
        assert(es.push(e)[i] == e);
        assert(elems_spans_ok(es.push(e), i + 1, pos_after(p, elem_encoded(e))));
    }
}

/// `t` is the quoted template covering `s[a .. b]` (both quotes included),
/// whose span starts at position `p`: its elements' encoded forms spell
/// out exactly the text between the quotes, each literal decodes to its
/// value, adjacent literals are merged, and every inner span is exact.
pub open spec fn is_quoted_template_at(
    t: Template,
    s: Seq<char>,
    a: int,
    b: int,
    p: (int, int),
) -> bool {
    &&& t.quotes == true
    &&& 0 <= a && a + 2 <= b && b <= s.len()
    &&& s[a] == '"' && s[b - 1] == '"'
    &&& elems_encoded(t.elements@, 0) == s.subrange(a + 1, b - 1)
    &&& elems_wf(t.elements@)
    &&& elems_merged(t.elements@)
    &&& elems_spans_ok(t.elements@, 0, (p.0, p.1 + 1))
    &&& t.source_info.start@ == p
    &&& t.source_info.end@ == pos_after(p, s.subrange(a, b))
}

/// `t` is an unquoted, single-literal template covering `s[a .. b]`,
/// whose span starts at position `p`. The cookie-path name is such a
/// template; an empty name gives a template with no elements.
pub open spec fn is_name_template_at(t: Template, s: Seq<char>, a: int, b: int, p: (int, int)) -> bool {
    &&& t.quotes == false
    &&& 0 <= a <= b <= s.len()
    &&& elems_encoded(t.elements@, 0) == s.subrange(a, b)
    &&& (if a == b {
        t.elements@.len() == 0
    } else {
        t.elements@.len() == 1 && (t.elements@[0] matches TemplateElement::Literal {
            value,
            encoded,
        } && value@ == s.subrange(a, b) && encoded@ == s.subrange(a, b))
    })
    &&& t.source_info.start@ == p
    &&& t.source_info.end@ == pos_after(p, s.subrange(a, b))
}

} // verus!
