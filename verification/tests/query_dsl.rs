use winston_transport::json_query::parse_query;
use winston_transport::query_node::{
    FieldComparison, FieldLogic, FieldNode, FieldQueryNode, LogicalOperator, QueryLogicNode,
    QueryNode,
};
use winston_transport::{FieldPath, JsonValue, QueryValue};

fn s(v: &str) -> JsonValue {
    JsonValue::Str(v.to_string())
}

fn n(v: i64) -> JsonValue {
    JsonValue::Num(v)
}

fn obj(pairs: Vec<(&str, JsonValue)>) -> JsonValue {
    JsonValue::Obj(pairs.into_iter().map(|(k, v)| (k.to_string(), v)).collect())
}

fn arr(els: Vec<JsonValue>) -> JsonValue {
    JsonValue::Arr(els)
}

fn path(p: &str) -> FieldPath {
    FieldPath::from_str(p).unwrap()
}

fn fq(p: &str, node: FieldNode) -> QueryNode {
    QueryNode::FieldQuery(FieldQueryNode::new(path(p), node))
}

fn cmp(c: FieldComparison) -> FieldNode {
    FieldNode::Comparison(c)
}

#[test]
fn test_query_and_field_nodes_usage() {
    let age_node = fq("user.age", cmp(FieldComparison::gt(QueryValue::Number(25))));

    let status_logic = fq(
        "user.status",
        FieldNode::Logic(
            FieldLogic::new(LogicalOperator::Or)
                .with_node(cmp(FieldComparison::eq(QueryValue::String("active".to_string()))))
                .with_node(cmp(FieldComparison::eq(QueryValue::String("pending".to_string())))),
        ),
    );

    let full_query = QueryLogicNode::new(LogicalOperator::And)
        .with_node(age_node)
        .with_node(status_logic);

    let json1 = obj(vec![("user", obj(vec![("age", n(30)), ("status", s("active"))]))]);
    assert!(full_query.evaluate(&json1));

    let json2 = obj(vec![("user", obj(vec![("age", n(40)), ("status", s("pending"))]))]);
    assert!(full_query.evaluate(&json2));

    let json3 = obj(vec![("user", obj(vec![("age", n(22)), ("status", s("active"))]))]);
    assert!(!full_query.evaluate(&json3));

    let json4 = obj(vec![("user", obj(vec![("age", n(35)), ("status", s("inactive"))]))]);
    assert!(!full_query.evaluate(&json4));
}

fn op(key: &str, v: JsonValue) -> JsonValue {
    obj(vec![(key, v)])
}

#[test]
fn test_mongodb_style_dsl() {
    let raw = op(
        "$and",
        arr(vec![
            op("user.age", op("$gt", n(25))),
            op(
                "user.status",
                op("$or", arr(vec![op("$eq", s("active")), op("$eq", s("pending"))])),
            ),
        ]),
    );

    let query = parse_query(&raw).expect("Failed to parse RawQuery");

    let user1 = obj(vec![("user", obj(vec![("age", n(30)), ("status", s("active"))]))]);
    let user2 = obj(vec![("user", obj(vec![("age", n(40)), ("status", s("pending"))]))]);
    let user3 = obj(vec![("user", obj(vec![("age", n(22)), ("status", s("active"))]))]);
    let user4 = obj(vec![("user", obj(vec![("age", n(30)), ("status", s("inactive"))]))]);

    assert!(query.evaluate(&user1), "user1 should match");
    assert!(query.evaluate(&user2), "user2 should match");
    assert!(!query.evaluate(&user3), "user3 too young");
    assert!(!query.evaluate(&user4), "user4 status mismatch");
}

#[test]
fn test_nested_field_logic() {
    let raw = op(
        "user.age",
        op("$and", arr(vec![op("$gt", n(18)), op("$lt", n(65))])),
    );
    let query = parse_query(&raw).expect("Failed to parse RawQuery");
    let user1 = obj(vec![("user", obj(vec![("age", n(30))]))]);
    let user2 = obj(vec![("user", obj(vec![("age", n(15))]))]);
    assert!(query.evaluate(&user1));
    assert!(!query.evaluate(&user2));
}

#[test]
fn test_or_field_logic() {
    let raw = op(
        "$and",
        arr(vec![
            op(
                "user.status",
                op("$or", arr(vec![op("$eq", s("active")), op("$eq", s("pending"))])),
            ),
            op("user.age", op("$gt", n(25))),
        ]),
    );
    let query = parse_query(&raw).expect("Failed to parse RawQuery");
    let user1 = obj(vec![("user", obj(vec![("status", s("active")), ("age", n(26))]))]);
    let user2 = obj(vec![("user", obj(vec![("status", s("pending")), ("age", n(26))]))]);
    let user3 = obj(vec![("user", obj(vec![("status", s("inactive")), ("age", n(26))]))]);
    assert!(query.evaluate(&user1));
    assert!(query.evaluate(&user2));
    assert!(!query.evaluate(&user3));
}

#[test]
fn test_nested_logic_in_field() {
    let raw = op(
        "user.age",
        op(
            "$and",
            arr(vec![
                op("$gt", n(18)),
                op("$or", arr(vec![op("$lt", n(30)), op("$gt", n(50))])),
            ]),
        ),
    );
    let query = parse_query(&raw).expect("Failed to parse RawQuery");

    let user1 = obj(vec![("user", obj(vec![("age", n(25))]))]);
    let user2 = obj(vec![("user", obj(vec![("age", n(55))]))]);
    let user3 = obj(vec![("user", obj(vec![("age", n(35))]))]);
    let user4 = obj(vec![("user", obj(vec![("age", n(15))]))]);

    assert!(query.evaluate(&user1));
    assert!(query.evaluate(&user2));
    assert!(!query.evaluate(&user3));
    assert!(!query.evaluate(&user4));
}

#[test]
fn test_deeply_nested_field_logic() {
    let raw = op(
        "user.value",
        op(
            "$and",
            arr(vec![
                op("$gt", n(10)),
                op(
                    "$or",
                    arr(vec![
                        op("$lt", n(20)),
                        op("$and", arr(vec![op("$gt", n(30)), op("$lt", n(40))])),
                    ]),
                ),
            ]),
        ),
    );
    let query = parse_query(&raw).expect("Failed to parse RawQuery");

    let obj1 = obj(vec![("user", obj(vec![("value", n(15))]))]);
    let obj2 = obj(vec![("user", obj(vec![("value", n(35))]))]);
    let obj3 = obj(vec![("user", obj(vec![("value", n(25))]))]);
    let obj4 = obj(vec![("user", obj(vec![("value", n(5))]))]);

    assert!(query.evaluate(&obj1));
    assert!(query.evaluate(&obj2));
    assert!(!query.evaluate(&obj3));
    assert!(!query.evaluate(&obj4));
}

#[test]
fn test_absence_test_on_missing_path() {
    // A path that matches nothing satisfies exactly the absence test.
    let absent = fq(
        "user.phone",
        cmp(FieldComparison {
            comparator: winston_transport::Comparator::NotExists,
            value: QueryValue::Null,
        }),
    );
    let present_check = fq("user.age", cmp(FieldComparison::gt(QueryValue::Number(10))));
    let doc = obj(vec![("user", obj(vec![("age", n(30))]))]);
    assert!(absent.evaluate(&doc));
    assert!(present_check.evaluate(&doc));
    let absent_age = fq(
        "user.age",
        cmp(FieldComparison {
            comparator: winston_transport::Comparator::NotExists,
            value: QueryValue::Null,
        }),
    );
    assert!(!absent_age.evaluate(&doc));
}

#[test]
fn test_unknown_operator_is_rejected() {
    let raw = op("user.age", op("$near", n(10)));
    assert!(parse_query(&raw).is_err());
    let raw2 = op("$nor", arr(vec![op("user.age", op("$gt", n(1)))]));
    assert!(parse_query(&raw2).is_err());
}

#[test]
fn test_tree_round_trips_through_json() {
    // Serialize a predicate in the surface subset and parse it back; both
    // trees answer every probe the same way.
    let tree = QueryNode::Logic(
        QueryLogicNode::new(LogicalOperator::And)
            .with_node(fq("user.age", cmp(FieldComparison::gt(QueryValue::Number(25)))))
            .with_node(fq(
                "user.status",
                cmp(FieldComparison::eq(QueryValue::String("active".to_string()))),
            )),
    );
    let doc = tree.to_json();
    let back = parse_query(&doc).expect("round trip should parse");

    let probes = vec![
        obj(vec![("user", obj(vec![("age", n(30)), ("status", s("active"))]))]),
        obj(vec![("user", obj(vec![("age", n(20)), ("status", s("active"))]))]),
        obj(vec![("user", obj(vec![("age", n(30)), ("status", s("idle"))]))]),
    ];
    for p in &probes {
        assert_eq!(tree.evaluate(p), back.evaluate(p));
    }
    assert!(back.evaluate(&probes[0]));
    assert!(!back.evaluate(&probes[1]));
    assert!(!back.evaluate(&probes[2]));

    // Indexed paths round-trip through the document form too.
    let priced = fq("items[1].price", cmp(FieldComparison::gt(QueryValue::Number(15))));
    let doc2 = priced.to_json();
    let back2 = parse_query(&doc2).expect("indexed path should parse back");
    let store = obj(vec![(
        "items",
        arr(vec![obj(vec![("price", n(10))]), obj(vec![("price", n(20))])]),
    )]);
    let cheap = obj(vec![("items", arr(vec![obj(vec![("price", n(10))])]))]);
    assert!(priced.evaluate(&store));
    assert!(back2.evaluate(&store));
    assert!(!back2.evaluate(&cheap));
}
