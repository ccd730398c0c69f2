//! Template evaluation: substitute `{{var}}` expressions from a variable
//! set, or report a failure tied to the variable's exact source span.

use vstd::prelude::*;
use vstd::string::StringExecFns;

use crate::ast::{SourceInfo, Template, TemplateElement};
use crate::value::{render, renderable, Value, VariableSet};

verus! {

/// Why evaluation failed.
#[derive(Clone, Debug, PartialEq, Eq)]
pub enum RunnerError {
    TemplateVariableNotDefined { name: String },
    UnrenderableVariable { value: String },
}

/// An evaluation failure: the span of the offending source, what went
/// wrong, and whether it arose while checking an assertion.
#[derive(Clone, Debug, PartialEq, Eq)]
pub struct Error {
    pub source_info: SourceInfo,
    pub inner: RunnerError,
    pub assert: bool,
}

/// A template element evaluates: a literal always does; an expression
/// needs its variable bound to a renderable value.
pub open spec fn elem_ok(e: TemplateElement, vars: Map<Seq<char>, Value>) -> bool {
    match e {
        TemplateElement::Literal { .. } => true,
        TemplateElement::Expression(x) => vars.contains_key(x.variable.name@) && renderable(
            vars[x.variable.name@],
        ),
    }
}

/// What an element evaluates to: a literal's decoded value, or the
/// rendered text of the variable's value.
pub open spec fn elem_text(e: TemplateElement, vars: Map<Seq<char>, Value>) -> Seq<char> {
    match e {
        TemplateElement::Literal { value, .. } => value@,
        TemplateElement::Expression(x) => render(vars[x.variable.name@]),
    }
}

/// The concatenated evaluation of the elements from index `i` on.
pub open spec fn eval_texts(es: Seq<TemplateElement>, i: int, vars: Map<Seq<char>, Value>) -> Seq<
    char,
>
    decreases es.len() - i,
{
    if i < 0 || i >= es.len() {
        Seq::<char>::empty()
    } else {
        elem_text(es[i], vars) + eval_texts(es, i + 1, vars)
    }
}

/// Every element evaluates.
pub open spec fn all_ok(es: Seq<TemplateElement>, vars: Map<Seq<char>, Value>) -> bool {
    forall|i: int| 0 <= i < es.len() ==> elem_ok(#[trigger] es[i], vars)
}

/// The first element (at or after `i`) that does not evaluate.
pub open spec fn first_bad(es: Seq<TemplateElement>, i: int, vars: Map<Seq<char>, Value>) -> int
    decreases es.len() - i,
{
    if i < 0 || i >= es.len() {
        i
    } else if !elem_ok(es[i], vars) {
        i
    } else {
        first_bad(es, i + 1, vars)
    }
}

/// The error a failing element produces: a missing variable gives
/// `TemplateVariableNotDefined` with the variable's name, a bound but
/// unrenderable value gives `UnrenderableVariable` with its rendered
/// text — either way located exactly at the variable's span.
pub open spec fn is_eval_error(e: TemplateElement, vars: Map<Seq<char>, Value>, err: Error) -> bool {
    e matches TemplateElement::Expression(x) && {
        &&& err.source_info == x.variable.source_info
        &&& !err.assert
        &&& if !vars.contains_key(x.variable.name@) {
            err.inner matches RunnerError::TemplateVariableNotDefined { name } && name@
                == x.variable.name@
        } else {
            err.inner matches RunnerError::UnrenderableVariable { value } && value@ == render(
                vars[x.variable.name@],
            )
        }
    }
}

impl Value {
    /// A value can be spliced into a template only when it renders as
    /// scalar text: an integer, float, boolean or string.
    pub fn is_renderable(&self) -> (r: bool)
        ensures
            r == renderable(*self),
    {
        match self {
            Value::Integer(_) | Value::Bool(_) | Value::Float(_, _) | Value::String(_) => true,
            _ => false,
        }
    }
}

impl TemplateElement {
    /// Evaluate one element against the variables: a literal yields its
    /// decoded value; an expression yields the rendered value of its
    /// variable, or the exact error `is_eval_error` describes.
    pub fn eval(self, variables: &VariableSet) -> (r: Result<String, Error>)
        ensures
            match r {
                Ok(v) => elem_ok(self, variables@) && v@ == elem_text(self, variables@),
                Err(err) => !elem_ok(self, variables@) && is_eval_error(self, variables@, err),
            },
    {
        match self {
            TemplateElement::Literal { value, .. } => Ok(value),
            TemplateElement::Expression(x) => {
                match variables.get(&x.variable.name) {
                    Some(value) => {
                        if value.is_renderable() {
                            Ok(value.to_string())
                        } else {
                            Err(
                                Error {
                                    source_info: x.variable.source_info,
                                    inner: RunnerError::UnrenderableVariable {
                                        value: value.to_string(),
                                    },
                                    assert: false,
                                },
                            )
                        }
                    },
                    None => Err(
                        Error {
                            source_info: x.variable.source_info,
                            inner: RunnerError::TemplateVariableNotDefined {
                                name: x.variable.name,
                            },
                            assert: false,
                        },
                    ),
                }
            },
        }
    }
}

impl Template {
    /// Evaluate a template: the concatenation of its elements' texts,
    /// or the error of the first element that fails. Succeeds exactly
    /// when every element evaluates.
    #[verifier::loop_isolation(false)]
    pub fn eval(self, variables: &VariableSet) -> (r: Result<String, Error>)
        ensures
            match r {
                Ok(v) => all_ok(self.elements@, variables@) && v@ == eval_texts(
                    self.elements@,
                    0,
                    variables@,
                ),
                Err(err) => {
                    &&& !all_ok(self.elements@, variables@)
                    &&& ({
                        let k = first_bad(self.elements@, 0, variables@);
                        &&& 0 <= k < self.elements@.len()
                        &&& !elem_ok(self.elements@[k], variables@)
                        &&& is_eval_error(self.elements@[k], variables@, err)
                    })
                },
            },
    {
        let Template { elements, .. } = self;
        let ghost es = elements@;
        let ghost vars = variables@;
        let mut rest = elements;
        let mut value = String::new();
        let ghost mut i: int = 0;
        while rest.len() > 0
            invariant
                0 <= i <= es.len(),
                rest@ == es.skip(i),
                forall|m: int| 0 <= m < i ==> elem_ok(#[trigger] es[m], vars),
                value@ + eval_texts(es, i, vars) == eval_texts(es, 0, vars),
            decreases rest.len(),
        {
            let e = rest.remove(0);
            proof {
                assert(es.skip(i)[0] == es[i]);
                assert(es.skip(i).remove(0) =~= es.skip(i + 1));
            }
            let ghost vold = value@;
            match e.eval(variables) {
                Ok(v) => {
                    value.append(v.as_str());
                    proof {
                        assert(eval_texts(es, i, vars) == elem_text(es[i], vars) + eval_texts(
                            es,
                            i + 1,
                            vars,
                        ));
                        assert(value@ + eval_texts(es, i + 1, vars) =~= vold + eval_texts(
                            es,
                            i,
                            vars,
                        ));
                        i = i + 1;
                    }
                },
                Err(err) => {
                    proof {
                        lemma_first_bad_here(es, i, vars);
                    }
                    return Err(err);
                },
            }
        }
        proof {
            assert(es.skip(i) =~= Seq::<TemplateElement>::empty());
            assert(i == es.len());
            assert(value@ + Seq::<char>::empty() =~= value@);
        }
        Ok(value)
    }
}

/// When the elements before `i` evaluate and element `i` does not, `i`
/// is the first failing element.
proof fn lemma_first_bad_here(es: Seq<TemplateElement>, i: int, vars: Map<Seq<char>, Value>)
    requires
        0 <= i < es.len(),
        forall|m: int| 0 <= m < i ==> elem_ok(#[trigger] es[m], vars),
        !elem_ok(es[i], vars),
    ensures
        first_bad(es, 0, vars) == i,
{
    lemma_first_bad_from(es, 0, i, vars);
}

proof fn lemma_first_bad_from(es: Seq<TemplateElement>, j: int, i: int, vars: Map<Seq<char>, Value>)
    requires
        0 <= j <= i < es.len(),
        forall|m: int| j <= m < i ==> elem_ok(#[trigger] es[m], vars),
        !elem_ok(es[i], vars),
    ensures
        first_bad(es, j, vars) == i,
    decreases i - j,
{
    if j < i {
        lemma_first_bad_from(es, j + 1, i, vars);
    }
}

} // verus!
