use hurl::ast::{Expr, SourceInfo, Template, TemplateElement, Variable, Whitespace};
use hurl::template::RunnerError;
use hurl::value::{Value, VariableSet};

fn template_element_expression() -> TemplateElement {
    // {{name}}
    TemplateElement::Expression(Expr {
        space0: Whitespace {
            value: "".to_string(),
            source_info: SourceInfo::init(1, 3, 1, 3),
        },
        variable: Variable {
            name: "name".to_string(),
            source_info: SourceInfo::init(1, 3, 1, 7),
        },
        space1: Whitespace {
            value: "".to_string(),
            source_info: SourceInfo::init(1, 7, 1, 7),
        },
    })
}

#[test]
fn test_template_element() {
    let variables = VariableSet::new();
    assert_eq!(
        TemplateElement::Literal {
            value: "World".to_string(),
            encoded: "World".to_string(),
        }
        .eval(&variables)
        .unwrap(),
        "World".to_string()
    );

    let mut variables = VariableSet::new();
    variables.insert("name".to_string(), Value::String("World".to_string()));
    assert_eq!(
        template_element_expression().eval(&variables).unwrap(),
        "World".to_string()
    );
}

#[test]
fn test_template_element_error() {
    let mut variables = VariableSet::new();
    variables.insert(
        "name".to_string(),
        Value::List(vec![Value::Integer(1), Value::Integer(2)]),
    );
    let error = template_element_expression().eval(&variables).err().unwrap();
    assert_eq!(error.source_info, SourceInfo::init(1, 3, 1, 7));
    assert_eq!(
        error.inner,
        RunnerError::UnrenderableVariable {
            value: "[1,2]".to_string()
        }
    );
}

#[test]
fn test_template_missing_variable() {
    let variables = VariableSet::new();
    let error = template_element_expression().eval(&variables).err().unwrap();
    assert_eq!(error.source_info, SourceInfo::init(1, 3, 1, 7));
    assert_eq!(
        error.inner,
        RunnerError::TemplateVariableNotDefined {
            name: "name".to_string()
        }
    );
    assert!(!error.assert);
}

fn hello_template() -> Template {
    // "Hello {{name}}" written without the quotes
    Template {
        quotes: false,
        elements: vec![
            TemplateElement::Literal {
                value: "Hello ".to_string(),
                encoded: "Hello ".to_string(),
            },
            TemplateElement::Expression(Expr {
                space0: Whitespace {
                    value: "".to_string(),
                    source_info: SourceInfo::init(1, 9, 1, 9),
                },
                variable: Variable {
                    name: "name".to_string(),
                    source_info: SourceInfo::init(1, 9, 1, 13),
                },
                space1: Whitespace {
                    value: "".to_string(),
                    source_info: SourceInfo::init(1, 13, 1, 13),
                },
            }),
        ],
        source_info: SourceInfo::init(1, 1, 1, 15),
    }
}

#[test]
fn test_template_eval_hello() {
    let mut variables = VariableSet::new();
    variables.insert("name".to_string(), Value::String("World".to_string()));
    assert_eq!(hello_template().eval(&variables).unwrap(), "Hello World".to_string());
}

#[test]
fn test_template_eval_unrenderable_span() {
    let mut variables = VariableSet::new();
    variables.insert(
        "name".to_string(),
        Value::List(vec![Value::Integer(1), Value::Integer(2)]),
    );
    let error = hello_template().eval(&variables).err().unwrap();
    assert_eq!(error.source_info, SourceInfo::init(1, 9, 1, 13));
    assert_eq!(
        error.inner,
        RunnerError::UnrenderableVariable {
            value: "[1,2]".to_string()
        }
    );
}

#[test]
fn test_template_pure_literals_ignore_variables() {
    let template = Template {
        quotes: false,
        elements: vec![
            TemplateElement::Literal {
                value: "Hello ".to_string(),
                encoded: "Hello ".to_string(),
            },
            TemplateElement::Literal {
                value: "World".to_string(),
                encoded: "World".to_string(),
            },
        ],
        source_info: SourceInfo::init(1, 1, 1, 12),
    };
    let mut variables = VariableSet::new();
    variables.insert("unrelated".to_string(), Value::Null);
    assert_eq!(template.eval(&variables).unwrap(), "Hello World".to_string());
}

#[test]
fn test_value_rendering() {
    assert_eq!(Value::Integer(0).to_string(), "0".to_string());
    assert_eq!(Value::Integer(-42).to_string(), "-42".to_string());
    assert_eq!(Value::Integer(1234567890).to_string(), "1234567890".to_string());
    assert_eq!(Value::Bool(true).to_string(), "true".to_string());
    assert_eq!(Value::Bool(false).to_string(), "false".to_string());
    assert_eq!(Value::Float(3, "140".to_string()).to_string(), "3.140".to_string());
    assert_eq!(Value::String("plain".to_string()).to_string(), "plain".to_string());
    assert_eq!(Value::Null.to_string(), "null".to_string());
    assert_eq!(
        Value::List(vec![
            Value::Integer(1),
            Value::String("a".to_string()),
            Value::Bool(false)
        ])
        .to_string(),
        "[1,a,false]".to_string()
    );
}

#[test]
fn test_variable_set_last_binding_wins() {
    let mut variables = VariableSet::new();
    variables.insert("name".to_string(), Value::String("first".to_string()));
    variables.insert("name".to_string(), Value::String("second".to_string()));
    assert_eq!(
        template_element_expression().eval(&variables).unwrap(),
        "second".to_string()
    );
}
