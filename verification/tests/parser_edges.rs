use hurl::ast::{
    CookieAttribute, CookieAttributeName, CookiePath, Expr, QueryValue, SourceInfo, Subquery,
    SubqueryValue, Template, TemplateElement, Variable, Whitespace,
};
use hurl::primitives::ParseError;
use hurl::query::{body_query, cookie_query, header_query, query, subquery, variable_query};
use hurl::reader::Reader;

#[test]
fn test_body_query() {
    let mut reader = Reader::init("body");
    assert_eq!(query(&mut reader).unwrap().value, QueryValue::Body {});
    assert_eq!(reader.state.cursor, 4);
}

#[test]
fn test_variable_query() {
    let mut reader = Reader::init("variable \"x\"");
    assert_eq!(
        variable_query(&mut reader).unwrap(),
        QueryValue::Variable {
            space0: Whitespace {
                value: " ".to_string(),
                source_info: SourceInfo::init(1, 9, 1, 10),
            },
            name: Template {
                quotes: true,
                elements: vec![TemplateElement::Literal {
                    value: "x".to_string(),
                    encoded: "x".to_string(),
                }],
                source_info: SourceInfo::init(1, 10, 1, 13),
            },
        }
    );
}

#[test]
fn test_regex_subquery() {
    let mut reader = Reader::init("regex \"a(b)c\"");
    assert_eq!(
        subquery(&mut reader).unwrap(),
        Subquery {
            source_info: SourceInfo::init(1, 1, 1, 14),
            value: SubqueryValue::Regex {
                space0: Whitespace {
                    value: " ".to_string(),
                    source_info: SourceInfo::init(1, 6, 1, 7),
                },
                expr: Template {
                    quotes: true,
                    elements: vec![TemplateElement::Literal {
                        value: "a(b)c".to_string(),
                        encoded: "a(b)c".to_string(),
                    }],
                    source_info: SourceInfo::init(1, 7, 1, 14),
                },
            },
        }
    );
}

#[test]
fn test_unknown_keyword_restores_reader() {
    let mut reader = Reader::init("foo");
    let before = reader.state;
    let error = query(&mut reader).err().unwrap();
    assert!(error.recoverable);
    assert_eq!(reader.state, before);
}

#[test]
fn test_committed_keyword_restores_reader() {
    // the keyword commits, the missing space fails the parse, and the
    // reader still stands where it was
    let mut reader = Reader::init("headerx");
    let before = reader.state;
    let error = query(&mut reader).err().unwrap();
    assert_eq!(error.inner, ParseError::Space {});
    assert!(!error.recoverable);
    assert_eq!(reader.state, before);
}

#[test]
fn test_unterminated_template() {
    let mut reader = Reader::init("header \"abc");
    let before = reader.state;
    let error = query(&mut reader).err().unwrap();
    assert_eq!(error.inner, ParseError::Eof {});
    assert_eq!(reader.state, before);
}

#[test]
fn test_bad_escape() {
    let mut reader = Reader::init("header \"a\\qb\"");
    let error = header_query(&mut reader).err().unwrap();
    assert_eq!(error.inner, ParseError::Escape {});
    assert_eq!(reader.state.cursor, 0);
}

#[test]
fn test_empty_expression_name() {
    let mut reader = Reader::init("header \"{{}}\"");
    let error = header_query(&mut reader).err().unwrap();
    assert_eq!(error.inner, ParseError::VariableName {});
    assert_eq!(reader.state.cursor, 0);
}

#[test]
fn test_unclosed_expression() {
    let mut reader = Reader::init("header \"{{x\"");
    let error = header_query(&mut reader).err().unwrap();
    assert_eq!(
        error.inner,
        ParseError::Expecting {
            value: "}}".to_string()
        }
    );
    assert_eq!(reader.state.cursor, 0);
}

#[test]
fn test_unknown_cookie_attribute() {
    let mut reader = Reader::init("cookie \"Foo[Bogus]\"");
    let error = cookie_query(&mut reader).err().unwrap();
    assert_eq!(error.inner, ParseError::CookieAttribute {});
    assert_eq!(reader.state.cursor, 0);
}

#[test]
fn test_escape_sequences_decoded_and_kept() {
    let mut reader = Reader::init("header \"a\\nb\"");
    let parsed = header_query(&mut reader).unwrap();
    match parsed {
        QueryValue::Header { name, .. } => {
            assert_eq!(
                name.elements,
                vec![TemplateElement::Literal {
                    value: "a\nb".to_string(),
                    encoded: "a\\nb".to_string(),
                }]
            );
        }
        _ => panic!("expected a header query"),
    }
}

#[test]
fn test_unicode_escape() {
    let mut reader = Reader::init("header \"\\u0041\"");
    let parsed = header_query(&mut reader).unwrap();
    match parsed {
        QueryValue::Header { name, .. } => {
            assert_eq!(
                name.elements,
                vec![TemplateElement::Literal {
                    value: "A".to_string(),
                    encoded: "\\u0041".to_string(),
                }]
            );
        }
        _ => panic!("expected a header query"),
    }
}

#[test]
fn test_template_with_expression() {
    let mut reader = Reader::init("header \"X-{{ name }}\"");
    let parsed = header_query(&mut reader).unwrap();
    assert_eq!(
        parsed,
        QueryValue::Header {
            space0: Whitespace {
                value: " ".to_string(),
                source_info: SourceInfo::init(1, 7, 1, 8),
            },
            name: Template {
                quotes: true,
                elements: vec![
                    TemplateElement::Literal {
                        value: "X-".to_string(),
                        encoded: "X-".to_string(),
                    },
                    TemplateElement::Expression(Expr {
                        space0: Whitespace {
                            value: " ".to_string(),
                            source_info: SourceInfo::init(1, 13, 1, 14),
                        },
                        variable: Variable {
                            name: "name".to_string(),
                            source_info: SourceInfo::init(1, 14, 1, 18),
                        },
                        space1: Whitespace {
                            value: " ".to_string(),
                            source_info: SourceInfo::init(1, 18, 1, 19),
                        },
                    }),
                ],
                source_info: SourceInfo::init(1, 8, 1, 22),
            },
        }
    );
    assert_eq!(reader.state.cursor, 21);
}

#[test]
fn test_empty_template() {
    let mut reader = Reader::init("header \"\"");
    let parsed = header_query(&mut reader).unwrap();
    match parsed {
        QueryValue::Header { name, .. } => {
            assert_eq!(name.elements, vec![]);
            assert_eq!(name.source_info, SourceInfo::init(1, 8, 1, 10));
        }
        _ => panic!("expected a header query"),
    }
}

#[test]
fn test_cookie_attribute_case_insensitive() {
    let mut reader = Reader::init("cookie \"Foo[max-AGE]\"");
    let parsed = cookie_query(&mut reader).unwrap();
    match parsed {
        QueryValue::Cookie { expr, .. } => {
            assert_eq!(
                expr.attribute.unwrap().name,
                CookieAttributeName::MaxAge("max-AGE".to_string())
            );
        }
        _ => panic!("expected a cookie query"),
    }
}

#[test]
fn test_cookie_empty_name() {
    let mut reader = Reader::init("cookie \"[Path]\"");
    let parsed = cookie_query(&mut reader).unwrap();
    assert_eq!(
        parsed,
        QueryValue::Cookie {
            space0: Whitespace {
                value: " ".to_string(),
                source_info: SourceInfo::init(1, 7, 1, 8),
            },
            expr: CookiePath {
                name: Template {
                    quotes: false,
                    elements: vec![],
                    source_info: SourceInfo::init(1, 9, 1, 9),
                },
                attribute: Some(CookieAttribute {
                    space0: Whitespace {
                        value: "".to_string(),
                        source_info: SourceInfo::init(1, 10, 1, 10),
                    },
                    name: CookieAttributeName::Path("Path".to_string()),
                    space1: Whitespace {
                        value: "".to_string(),
                        source_info: SourceInfo::init(1, 14, 1, 14),
                    },
                }),
            },
        }
    );
}

#[test]
fn test_sibling_spans_are_adjacent() {
    // the whitespace ends exactly where the template starts, and both
    // lie inside the query's own span
    let mut reader = Reader::init("header \"Foo\"");
    let parsed = query(&mut reader).unwrap();
    match parsed.value {
        QueryValue::Header { space0, name } => {
            assert_eq!(space0.source_info.end, name.source_info.start);
            assert_eq!(parsed.source_info.start, SourceInfo::init(1, 1, 1, 13).start);
            assert_eq!(parsed.source_info.end, name.source_info.end);
        }
        _ => panic!("expected a header query"),
    }
}

#[test]
fn test_template_round_trip_concrete() {
    // writing the parsed template back (quotes, encoded literals,
    // expressions between braces) reproduces the input exactly
    let input = "header \"a\\nb{{ x }}c\"";
    let mut reader = Reader::init(input);
    let parsed = header_query(&mut reader).unwrap();
    let name = match parsed {
        QueryValue::Header { name, .. } => name,
        _ => panic!("expected a header query"),
    };
    let mut written = String::from("\"");
    for element in &name.elements {
        match element {
            TemplateElement::Literal { encoded, .. } => written.push_str(encoded),
            TemplateElement::Expression(expr) => {
                written.push_str("{{");
                written.push_str(&expr.space0.value);
                written.push_str(&expr.variable.name);
                written.push_str(&expr.space1.value);
                written.push_str("}}");
            }
        }
    }
    written.push('"');
    assert_eq!(written, input["header ".len()..]);
}
