use quyaml::{
    condition, condition_list, evaluate_condition, evaluate_condition_list, find, parse_query,
    value, ConditionListItem, Decimal, EvalError, Found, Node, ParseError, PathKey, Relation,
    Statement,
};

fn map(entries: Vec<(&str, Node)>) -> Node {
    Node::Mapping(entries.into_iter().map(|(k, v)| (k.to_owned(), v)).collect())
}

fn services() -> Node {
    map(vec![(
        "services",
        map(vec![
            ("db", map(vec![("image", Node::String("postgres".to_owned())), ("scale", Node::Integer(1))])),
            ("front", map(vec![("image", Node::String("nginx".to_owned())), ("scale", Node::Integer(0))])),
        ]),
    )])
}

fn key(s: &str) -> PathKey {
    PathKey::Key(s.to_owned())
}

fn match_paths(doc: &Node, q: &str) -> Vec<Vec<PathKey>> {
    let query = parse_query(q).expect("query parses");
    find(doc, &query)
        .into_iter()
        .map(|f| match f {
            Found::Match(p, _) => p,
            Found::Failure(p, e) => panic!("failure at {:?}: {:?}", p, e),
        })
        .collect()
}

fn eval_on(doc: &Node, text: &str) -> Result<bool, EvalError> {
    let (rest, items) = condition_list(text).expect("condition list parses");
    assert_eq!(rest, "");
    evaluate_condition_list(&items, doc)
}

#[test]
fn filter_keeps_only_the_matching_child() {
    let doc = services();
    assert_eq!(match_paths(&doc, "services.*(scale==1)"), vec![vec![key("services"), key("db")]]);
}

#[test]
fn wildcard_without_filter_gives_every_child() {
    let doc = services();
    assert_eq!(
        match_paths(&doc, "services.*"),
        vec![vec![key("services"), key("db")], vec![key("services"), key("front")]]
    );
}

#[test]
fn match_hands_back_the_node_reached() {
    let doc = services();
    let query = parse_query("services.db.scale").unwrap();
    let found = find(&doc, &query);
    assert_eq!(found.len(), 1);
    match &found[0] {
        Found::Match(p, n) => {
            assert_eq!(p, &vec![key("services"), key("db"), key("scale")]);
            assert_eq!(**n, Node::Integer(1));
        }
        other => panic!("{:?}", other),
    }
}

#[test]
fn partial_wildcard_uses_the_pattern() {
    let doc = services();
    assert_eq!(match_paths(&doc, "services.d*"), vec![vec![key("services"), key("db")]]);
    assert_eq!(match_paths(&doc, "services.*o*"), vec![vec![key("services"), key("front")]]);
    assert_eq!(match_paths(&doc, "services.x*"), Vec::<Vec<PathKey>>::new());
}

#[test]
fn wildcard_treats_other_characters_literally() {
    let doc = map(vec![("a.c", Node::Integer(1)), ("abc", Node::Integer(2))]);
    assert_eq!(match_paths(&doc, "a\\.c*"), vec![vec![key("a.c")]]);
}

#[test]
fn missing_key_gives_no_match() {
    let doc = services();
    assert_eq!(match_paths(&doc, "services.cache"), Vec::<Vec<PathKey>>::new());
    assert_eq!(match_paths(&doc, "services.db.scale.deeper"), Vec::<Vec<PathKey>>::new());
}

#[test]
fn sequence_index_and_wildcard() {
    let doc = map(vec![(
        "items",
        Node::Sequence(vec![Node::Integer(5), map(vec![("ok", Node::Boolean(true))]), Node::Integer(7)]),
    )]);
    assert_eq!(match_paths(&doc, "items.1"), vec![vec![key("items"), PathKey::Index(1)]]);
    assert_eq!(match_paths(&doc, "items.3"), Vec::<Vec<PathKey>>::new());
    assert_eq!(match_paths(&doc, "items.x"), Vec::<Vec<PathKey>>::new());
    assert_eq!(
        match_paths(&doc, "items.*"),
        vec![
            vec![key("items"), PathKey::Index(0)],
            vec![key("items"), PathKey::Index(1)],
            vec![key("items"), PathKey::Index(2)],
        ]
    );
    assert_eq!(match_paths(&doc, "items.*(ok)"), vec![vec![key("items"), PathKey::Index(1)]]);
}

#[test]
fn entry_without_key_filters_in_place() {
    let doc = services();
    assert_eq!(match_paths(&doc, "services.db.(scale == 1)"), vec![vec![key("services"), key("db")]]);
    assert_eq!(match_paths(&doc, "services.db.(scale == 2)"), Vec::<Vec<PathKey>>::new());
}

#[test]
fn evaluation_failure_is_reported_per_candidate() {
    let doc = services();
    let query = parse_query("services.*(image > 'a')").unwrap();
    let found = find(&doc, &query);
    assert_eq!(found.len(), 2);
    for (f, name) in found.iter().zip(["db", "front"]) {
        match f {
            Found::Failure(p, e) => {
                assert_eq!(p, &vec![key("services"), key(name)]);
                assert_eq!(*e, EvalError::StringOrdering);
            }
            other => panic!("{:?}", other),
        }
    }
}

#[test]
fn absent_field_compares_unequal() {
    let doc = services();
    let (_, eq) = condition("missing.field == 1").unwrap();
    let (_, ne) = condition("missing.field != 1").unwrap();
    assert_eq!(evaluate_condition(&eq, &doc), Ok(false));
    assert_eq!(evaluate_condition(&ne, &doc), Ok(true));
    assert_eq!(evaluate_condition(&eq, &Node::Integer(3)), Ok(false));
    assert_eq!(evaluate_condition(&ne, &Node::Null), Ok(true));
}

#[test]
fn group_parses_and_evaluates_as_one_operand() {
    let (_, items) = condition_list("first&&(true==false)").unwrap();
    assert_eq!(items.len(), 3);
    assert_eq!(items[1], ConditionListItem::Relation(Relation::And));
    let doc = map(vec![("first", Node::Boolean(true))]);
    assert_eq!(evaluate_condition_list(&items, &doc), Ok(false));
    assert_eq!(eval_on(&doc, "first&&(true!=false)"), Ok(true));
}

#[test]
fn relations_fold_left_without_precedence() {
    let doc = Node::Null;
    // ((true || false) && false), not true || (false && false)
    assert_eq!(eval_on(&doc, "true||false&&false"), Ok(false));
    assert_eq!(eval_on(&doc, "true||(false&&false)"), Ok(true));
    assert_eq!(eval_on(&doc, "true^true"), Ok(false));
    assert_eq!(eval_on(&doc, "true^false"), Ok(true));
}

#[test]
fn numbers_compare_across_kinds() {
    let doc = map(vec![("a", Node::Integer(10)), ("r", Node::Real("1.50".to_owned()))]);
    assert_eq!(eval_on(&doc, "a == 10.0"), Ok(true));
    assert_eq!(eval_on(&doc, "a < 10.1"), Ok(true));
    assert_eq!(eval_on(&doc, "a >= 1e1"), Ok(true));
    assert_eq!(eval_on(&doc, "r == 1.5"), Ok(true));
    assert_eq!(eval_on(&doc, "r > a"), Ok(false));
    assert_eq!(eval_on(&doc, "-0.5 < r"), Ok(true));
}

#[test]
fn mismatched_kinds_are_unequal() {
    let doc = map(vec![("s", Node::String("1".to_owned()))]);
    assert_eq!(eval_on(&doc, "s == 1"), Ok(false));
    assert_eq!(eval_on(&doc, "s != 1"), Ok(true));
    assert_eq!(eval_on(&doc, "s == '1'"), Ok(true));
    assert_eq!(eval_on(&doc, "null == null"), Ok(true));
    assert_eq!(eval_on(&doc, "true != false"), Ok(true));
}

#[test]
fn evaluation_errors() {
    let doc = Node::Null;
    assert_eq!(eval_on(&doc, "'a' < 'b'"), Err(EvalError::StringOrdering));
    assert_eq!(eval_on(&doc, "10"), Err(EvalError::NonBooleanTerm));
    assert_eq!(eval_on(&doc, "'x' || true"), Err(EvalError::NonBooleanTerm));
    let dangling = vec![ConditionListItem::Statement(Statement::Boolean(true)), ConditionListItem::Relation(Relation::And)];
    assert_eq!(evaluate_condition_list(&dangling, &doc), Err(EvalError::MalformedList));
    assert_eq!(evaluate_condition_list(&vec![], &doc), Err(EvalError::MalformedList));
}

#[test]
fn not_negates_the_next_operand() {
    let items = vec![
        ConditionListItem::Not,
        ConditionListItem::Statement(Statement::Boolean(false)),
        ConditionListItem::Relation(Relation::And),
        ConditionListItem::Statement(Statement::Boolean(true)),
    ];
    assert_eq!(evaluate_condition_list(&items, &Node::Null), Ok(true));
    let trailing = vec![ConditionListItem::Statement(Statement::Boolean(true)), ConditionListItem::Not];
    assert_eq!(evaluate_condition_list(&trailing, &Node::Null), Err(EvalError::MalformedList));
}

#[test]
fn query_must_be_consumed_whole() {
    assert!(parse_query("  first.second  ").is_ok());
    assert_eq!(parse_query("first.second == 1"), Err(ParseError));
    assert_eq!(parse_query("first."), Err(ParseError));
    assert_eq!(parse_query(""), Err(ParseError));
    assert_eq!(parse_query("first second"), Err(ParseError));
    assert_eq!(parse_query("a.(b"), Err(ParseError));
}

#[test]
fn numeric_literals() {
    let d = |m: i64, s: u32| Statement::Double(Decimal { mantissa: m, scale: s });
    assert_eq!(value("1e3"), Ok(("", d(1000, 0))));
    assert_eq!(value("1.5e-3"), Ok(("", d(15, 4))));
    assert_eq!(value("+5"), Ok(("", d(5, 0))));
    assert_eq!(value(".5"), Ok(("", d(5, 1))));
    assert_eq!(value("1e"), Ok(("e", Statement::Integer(1))));
    assert_eq!(value("-9223372036854775808"), Ok(("", Statement::Integer(i64::MIN))));
    assert_eq!(
        value("9223372036854775808"),
        Ok(("", Statement::Path(vec!["9223372036854775808".to_owned()])))
    );
}

#[test]
fn keywords_come_before_paths() {
    assert_eq!(value("true"), Ok(("", Statement::Boolean(true))));
    assert_eq!(value("  null  "), Ok(("", Statement::Null)));
    assert_eq!(value("trueish"), Ok(("ish", Statement::Boolean(true))));
    assert_eq!(value("truth"), Ok(("", Statement::Path(vec!["truth".to_owned()]))));
}

#[test]
fn parse_error_message() {
    assert_eq!(ParseError.message(), "A parsing error occurred.");
}
