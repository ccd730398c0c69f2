use hurl::ast::{
    CookieAttribute, CookieAttributeName, CookiePath, Query, QueryValue, SourceInfo, Template,
    TemplateElement, Whitespace,
};
use hurl::query::{cookie_query, header_query, jsonpath_query, query, xpath_query};
use hurl::reader::Reader;

#[test]
fn test_query() {
    let mut reader = Reader::init("status");
    assert_eq!(
        query(&mut reader).unwrap(),
        Query {
            source_info: SourceInfo::init(1, 1, 1, 7),
            value: QueryValue::Status {},
        }
    );
}

#[test]
fn test_status_query() {
    let mut reader = Reader::init("status");
    assert_eq!(
        query(&mut reader).unwrap(),
        Query {
            source_info: SourceInfo::init(1, 1, 1, 7),
            value: QueryValue::Status {},
        }
    );
}

#[test]
fn test_header_query() {
    let mut reader = Reader::init("header \"Foo\"");
    assert_eq!(
        header_query(&mut reader).unwrap(),
        QueryValue::Header {
            space0: Whitespace {
                value: String::from(" "),
                source_info: SourceInfo::init(1, 7, 1, 8),
            },
            name: Template {
                quotes: true,
                elements: vec![TemplateElement::Literal {
                    value: "Foo".to_string(),
                    encoded: "Foo".to_string(),
                }],
                source_info: SourceInfo::init(1, 8, 1, 13),
            },
        }
    );
}

#[test]
fn test_cookie_query() {
    let mut reader = Reader::init("cookie \"Foo[Domain]\"");
    assert_eq!(
        cookie_query(&mut reader).unwrap(),
        QueryValue::Cookie {
            space0: Whitespace {
                value: String::from(" "),
                source_info: SourceInfo::init(1, 7, 1, 8),
            },
            expr: CookiePath {
                name: Template {
                    quotes: false,
                    elements: vec![TemplateElement::Literal {
                        value: "Foo".to_string(),
                        encoded: "Foo".to_string(),
                    }],
                    source_info: SourceInfo::init(1, 9, 1, 12),
                },
                attribute: Some(CookieAttribute {
                    space0: Whitespace {
                        value: String::from(""),
                        source_info: SourceInfo::init(1, 13, 1, 13),
                    },
                    name: CookieAttributeName::Domain("Domain".to_string()),
                    space1: Whitespace {
                        value: String::from(""),
                        source_info: SourceInfo::init(1, 19, 1, 19),
                    },
                }),
            },
        }
    );
    assert_eq!(reader.state.cursor, 20);
}

#[test]
fn test_xpath_query() {
    let mut reader = Reader::init("xpath \"normalize-space(//head/title)\"");
    assert_eq!(
        xpath_query(&mut reader).unwrap(),
        QueryValue::Xpath {
            space0: Whitespace {
                value: String::from(" "),
                source_info: SourceInfo::init(1, 6, 1, 7),
            },
            expr: Template {
                quotes: true,
                elements: vec![TemplateElement::Literal {
                    value: String::from("normalize-space(//head/title)"),
                    encoded: String::from("normalize-space(//head/title)"),
                }],
                source_info: SourceInfo::init(1, 7, 1, 38),
            },
        },
    );

    let mut reader = Reader::init(
        "xpath \"normalize-space(//div[contains(concat(' ',normalize-space(@class),' '),' monthly-price ')])\"",
    );
    assert_eq!(
        xpath_query(&mut reader).unwrap(),
        QueryValue::Xpath {
            space0: Whitespace {
                value: String::from(" "),
                source_info: SourceInfo::init(1, 6, 1, 7),
            },
            expr: Template {
                quotes: true,
                elements: vec![TemplateElement::Literal {
                    value: String::from(
                        "normalize-space(//div[contains(concat(' ',normalize-space(@class),' '),' monthly-price ')])",
                    ),
                    encoded: String::from(
                        "normalize-space(//div[contains(concat(' ',normalize-space(@class),' '),' monthly-price ')])",
                    ),
                }],
                source_info: SourceInfo::init(1, 7, 1, 100),
            },
        },
    );
}

#[test]
fn test_jsonpath_query() {
    let mut reader = Reader::init("jsonpath \"$['statusCode']\"");
    assert_eq!(
        jsonpath_query(&mut reader).unwrap(),
        QueryValue::Jsonpath {
            space0: Whitespace {
                value: String::from(" "),
                source_info: SourceInfo::init(1, 9, 1, 10),
            },
            expr: Template {
                elements: vec![TemplateElement::Literal {
                    value: "$['statusCode']".to_string(),
                    encoded: "$['statusCode']".to_string(),
                }],
                quotes: true,
                source_info: SourceInfo::init(1, 10, 1, 27),
            },
        },
    );
    let mut reader = Reader::init("jsonpath \"$.success\"");
    assert_eq!(
        jsonpath_query(&mut reader).unwrap(),
        QueryValue::Jsonpath {
            space0: Whitespace {
                value: String::from(" "),
                source_info: SourceInfo::init(1, 9, 1, 10),
            },
            expr: Template {
                elements: vec![TemplateElement::Literal {
                    value: "$.success".to_string(),
                    encoded: "$.success".to_string(),
                }],
                quotes: true,
                source_info: SourceInfo::init(1, 10, 1, 21),
            },
        },
    );
}
