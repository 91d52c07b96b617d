use quyaml::{
    condition, condition_list, quoted_string, query, unescaped_path, value, CompareSign, Condition,
    ConditionListItem, Decimal, ParseError, PathEntry, Query, Relation, Statement,
};

fn as_f64(d: Decimal) -> f64 {
    d.mantissa as f64 / 10f64.powi(d.scale as i32)
}

fn double_of(r: Result<(&str, Statement), ParseError>) -> (String, f64) {
    match r {
        Ok((rest, Statement::Double(d))) => (rest.to_owned(), as_f64(d)),
        other => panic!("not a double: {:?}", other),
    }
}

#[test]
fn test_unescaped_path() {
    assert_eq!(unescaped_path("first"), Ok(("", vec!["first".to_owned()])));
    assert_eq!(unescaped_path("fir\\\\st"), Ok(("", vec!["fir\\st".to_owned()])));
    assert_eq!(unescaped_path("first.second"), Ok(("", vec!["first".to_owned(), "second".to_owned()])));
    assert_eq!(unescaped_path("first.sec\\.ond"), Ok(("", vec!["first".to_owned(), "sec.ond".to_owned()])));
    assert_eq!(unescaped_path(""), Err(ParseError));
}

#[test]
fn test_quoted_string() {
    assert_eq!(quoted_string("\"hello\""), Ok(("", "hello".to_owned())));
    assert_eq!(quoted_string("\"he\\\"llo\""), Ok(("", "he\\\"llo".to_owned())));
    assert_eq!(quoted_string("'hello'"), Ok(("", "hello".to_owned())));
    assert_eq!(quoted_string("'he\\'llo'"), Ok(("", "he\\'llo".to_owned())));
}

#[test]
fn test_value() {
    assert_eq!(value("true"), Ok(("", Statement::Boolean(true))));
    assert_eq!(value("false"), Ok(("", Statement::Boolean(false))));
    assert_eq!(value("null"), Ok(("", Statement::Null)));
    assert_eq!(value("\"hello\""), Ok(("", Statement::String("hello".to_owned()))));
    assert_eq!(value("first_underscored"), Ok(("", Statement::Path(vec!["first_underscored".to_owned()]))));
    assert_eq!(value("first.second"), Ok(("", Statement::Path(vec!["first".to_owned(), "second".to_owned()]))));
    assert_eq!(value("10"), Ok(("", Statement::Integer(10))));
    assert_eq!(value("-10"), Ok(("", Statement::Integer(-10))));
    assert_eq!(double_of(value("1.1")), ("".to_owned(), 1.1));
    assert_eq!(double_of(value("-1.1")), ("".to_owned(), -1.1));
}

#[test]
fn test_condition() {
    assert_eq!(condition("true == null"), Ok(("", Condition {
        left: Statement::Boolean(true),
        sign: CompareSign::Eq,
        right: Statement::Null,
    })));
    assert_eq!(condition("first.second==null"), Ok(("", Condition {
        left: Statement::Path(vec!["first".to_owned(), "second".to_owned()]),
        sign: CompareSign::Eq,
        right: Statement::Null,
    })));
    match condition("10==10.1") {
        Ok((rest, c)) => {
            assert_eq!(rest, "");
            assert_eq!(c.left, Statement::Integer(10));
            assert_eq!(c.sign, CompareSign::Eq);
            match c.right {
                Statement::Double(d) => assert_eq!(as_f64(d), 10.1),
                other => panic!("not a double: {:?}", other),
            }
        }
        Err(e) => panic!("{:?}", e),
    }
}

#[test]
fn test_condition_list() {
    assert_eq!(condition_list("false"), Ok(("",
        vec![
            ConditionListItem::Statement(Statement::Boolean(false)),
        ]
    )));
    assert_eq!(condition_list("false||true&&false"), Ok(("",
        vec![
            ConditionListItem::Statement(Statement::Boolean(false)),
            ConditionListItem::Relation(Relation::Or),
            ConditionListItem::Statement(Statement::Boolean(true)),
            ConditionListItem::Relation(Relation::And),
            ConditionListItem::Statement(Statement::Boolean(false)),
        ]
    )));
    assert_eq!(condition_list("(false||true)&&false"), Ok(("",
        vec![
            ConditionListItem::Group(
                vec![
                    ConditionListItem::Statement(Statement::Boolean(false)),
                    ConditionListItem::Relation(Relation::Or),
                    ConditionListItem::Statement(Statement::Boolean(true)),
                ]
            ),
            ConditionListItem::Relation(Relation::And),
            ConditionListItem::Statement(Statement::Boolean(false)),
        ]
    )));
    assert_eq!(condition_list("first&&(true==false)"), Ok(("",
        vec![
            ConditionListItem::Statement(Statement::Path(vec!["first".to_owned()])),
            ConditionListItem::Relation(Relation::And),
            ConditionListItem::Group(vec![
                ConditionListItem::Condition(Condition {
                    left: Statement::Boolean(true),
                    sign: CompareSign::Eq,
                    right: Statement::Boolean(false)
                })
            ])
        ]
    )));
    assert_eq!(condition_list("first.value && (false || true != false)"), Ok(("",
        vec![
            ConditionListItem::Statement(Statement::Path(vec![
                "first".to_owned(),
                "value".to_owned(),
            ])),
            ConditionListItem::Relation(Relation::And),
            ConditionListItem::Group(
                vec![
                    ConditionListItem::Statement(Statement::Boolean(false)),
                    ConditionListItem::Relation(Relation::Or),
                    ConditionListItem::Condition(Condition {
                        left: Statement::Boolean(true),
                        sign: CompareSign::Ne,
                        right: Statement::Boolean(false),
                    }),
                ]
            ),
        ]
    )));
}

#[test]
fn test_query() {
    assert_eq!(query("first.second"), Ok(("",
        Query {
            path: vec![
                PathEntry {
                    key: Some("first".to_owned()),
                    condition: None,
                },
                PathEntry {
                    key: Some("second".to_owned()),
                    condition: None,
                },
            ]
        }
    )));
    assert_eq!(query("first.*(aaa.bbb == 'some_value').third"), Ok(("",
        Query {
            path: vec![
                PathEntry {
                    key: Some("first".to_owned()),
                    condition: None,
                },
                PathEntry {
                    key: Some("*".to_owned()),
                    condition: Some(vec![
                        ConditionListItem::Condition(Condition {
                            left: Statement::Path(vec!["aaa".to_owned(), "bbb".to_owned()]),
                            sign: CompareSign::Eq,
                            right: Statement::String("some_value".to_owned()),
                        })
                    ]),
                },
                PathEntry {
                    key: Some("third".to_owned()),
                    condition: None,
                },
            ]
        }
    )));
}

#[test]
fn escaped_segment_reads_back() {
    // "a.b c(d)" escaped as a path segment
    assert_eq!(unescaped_path("a\\.b\\ c\\(d\\)"), Ok(("", vec!["a.b c(d)".to_owned()])));
    assert_eq!(unescaped_path("x\\\\y"), Ok(("", vec!["x\\y".to_owned()])));
    assert_eq!(unescaped_path("x\\qy"), Err(ParseError));
}

#[test]
fn condition_lists_alternate() {
    let (_, items) = condition_list("a == 1 || (b ^ c) && true").unwrap();
    assert_eq!(items.len() % 2, 1);
    for (i, item) in items.iter().enumerate() {
        assert_eq!(matches!(item, ConditionListItem::Relation(_)), i % 2 == 1);
    }
    assert_eq!(items.len(), 5);
}
