use chrono::TimeZone;
use winston_transport::query_node::{
    FieldComparison, FieldLogic, FieldNode, FieldQueryNode, LogicalOperator, QueryLogicNode,
    QueryNode,
};
use winston_transport::{FieldPath, JsonValue, LogQuery, LogRecord, Order, QueryValue};

fn s(v: &str) -> JsonValue {
    JsonValue::Str(v.to_string())
}

fn n(v: i64) -> JsonValue {
    JsonValue::Num(v)
}

fn obj(pairs: Vec<(&str, JsonValue)>) -> JsonValue {
    JsonValue::Obj(pairs.into_iter().map(|(k, v)| (k.to_string(), v)).collect())
}

fn millis(y: i32, mo: u32, d: u32, h: u32, mi: u32, se: u32) -> i64 {
    chrono::Utc
        .with_ymd_and_hms(y, mo, d, h, mi, se)
        .unwrap()
        .timestamp_millis()
}

#[test]
fn test_log_query_projection() {
    let log = LogRecord::new("INFO", "User login")
        .with_meta("user", s("alice"))
        .with_meta("ip", s("127.0.0.1"))
        .with_meta("timestamp", s("2024-04-10T12:34:56Z"));

    let query = LogQuery::new().fields(vec![
        "message".to_string(),
        "user".to_string(),
        "ip".to_string(),
    ]);

    let projected = query.project(&log);

    let expected: Vec<(&str, JsonValue)> = vec![
        ("message", s("User login")),
        ("user", s("alice")),
        ("ip", s("127.0.0.1")),
    ];
    assert_eq!(projected.len(), expected.len());
    for ((got_k, got_v), (want_k, want_v)) in projected.iter().zip(expected.iter()) {
        assert_eq!(got_k, want_k);
        assert!(got_v.deep_eq(want_v));
    }
}

#[test]
fn test_log_query_from_and_until_with_string() {
    let query = LogQuery::new()
        .from("2024-01-01T00:00:00Z")
        .until("2024-01-02T00:00:00Z");

    assert!(query.from.is_some());
    assert!(query.until.is_some());
    assert_eq!(query.from.unwrap(), millis(2024, 1, 1, 0, 0, 0));
    assert_eq!(query.until.unwrap(), millis(2024, 1, 2, 0, 0, 0));
}

#[test]
fn test_log_query_from_and_until_with_datetime() {
    let from_dt = millis(2023, 1, 1, 0, 0, 0);
    let until_dt = millis(2023, 1, 2, 0, 0, 0);

    let query = LogQuery::new()
        .from_instant(Some(from_dt))
        .until_instant(Some(until_dt));

    assert!(query.from.is_some());
    assert!(query.until.is_some());
    assert_eq!(query.from.unwrap(), from_dt);
    assert_eq!(query.until.unwrap(), until_dt);
}

struct MyCustomTimeInput {
    year: i32,
    month: u32,
    day: u32,
    hour: u32,
    minute: u32,
    second: u32,
}

impl MyCustomTimeInput {
    fn to_millis(&self) -> i64 {
        millis(self.year, self.month, self.day, self.hour, self.minute, self.second)
    }
}

#[test]
fn test_from_and_until_handle_into_datetime_via_explicit_into() {
    let custom_from = MyCustomTimeInput {
        year: 2021,
        month: 1,
        day: 15,
        hour: 8,
        minute: 30,
        second: 0,
    };
    let custom_until = MyCustomTimeInput {
        year: 2021,
        month: 1,
        day: 16,
        hour: 9,
        minute: 0,
        second: 0,
    };

    let query = LogQuery::new()
        .from_instant(Some(custom_from.to_millis()))
        .until_instant(Some(custom_until.to_millis()));

    assert!(query.from.is_some());
    assert!(query.until.is_some());
    assert_eq!(query.from.unwrap(), millis(2021, 1, 15, 8, 30, 0));
    assert_eq!(query.until.unwrap(), millis(2021, 1, 16, 9, 0, 0));

    let query2 = LogQuery::new()
        .from_instant(Some(
            MyCustomTimeInput {
                year: 2020,
                month: 1,
                day: 1,
                hour: 0,
                minute: 0,
                second: 0,
            }
            .to_millis(),
        ))
        .until_instant(Some(
            MyCustomTimeInput {
                year: 2020,
                month: 1,
                day: 2,
                hour: 0,
                minute: 0,
                second: 0,
            }
            .to_millis(),
        ));

    assert!(query2.from.is_some());
    assert!(query2.until.is_some());
    assert_eq!(query2.from.unwrap(), millis(2020, 1, 1, 0, 0, 0));
    assert_eq!(query2.until.unwrap(), millis(2020, 1, 2, 0, 0, 0));
}

#[test]
fn test_filter_inclusion() {
    let filter_doc = obj(vec![(
        "$and",
        JsonValue::Arr(vec![
            obj(vec![(
                "meta.user.age",
                obj(vec![(
                    "$and",
                    JsonValue::Arr(vec![
                        obj(vec![("$gt", n(18))]),
                        obj(vec![("$lt", n(65))]),
                    ]),
                )]),
            )]),
            obj(vec![("meta.user.status", obj(vec![("$eq", s("active"))]))]),
        ]),
    )]);
    let filter = winston_transport::json_query::parse_query(&filter_doc).unwrap();

    let query = LogQuery::new()
        .levels(vec!["info".to_string(), "error".to_string()])
        .from("2024-04-01T00:00:00Z")
        .until("2024-04-02T00:00:00Z")
        .search_term("(?i)database")
        .unwrap()
        .filter(filter);

    let log_entry = LogRecord::new("info", "Database connection established")
        .with_meta("user", obj(vec![("age", n(30)), ("status", s("active"))]))
        .with_meta("timestamp", s("2024-04-01T12:30:00Z"));

    assert!(query.matches(&log_entry));
}

#[test]
fn test_filter_with_builder_tree() {
    // The same filter built from constructors instead of a document.
    let filter = QueryNode::Logic(
        QueryLogicNode::new(LogicalOperator::And)
            .with_node(QueryNode::FieldQuery(FieldQueryNode::new(
                FieldPath::from_str("meta.user.age").unwrap(),
                FieldNode::Logic(
                    FieldLogic::new(LogicalOperator::And)
                        .with_node(FieldNode::Comparison(FieldComparison::gt(
                            QueryValue::Number(18),
                        )))
                        .with_node(FieldNode::Comparison(FieldComparison::lt(
                            QueryValue::Number(65),
                        ))),
                ),
            )))
            .with_node(QueryNode::FieldQuery(FieldQueryNode::new(
                FieldPath::from_str("meta.user.status").unwrap(),
                FieldNode::Comparison(FieldComparison::eq(QueryValue::String(
                    "active".to_string(),
                ))),
            ))),
    );

    let query = LogQuery::new()
        .from_instant(None)
        .until_instant(None)
        .filter(filter);

    let matching = LogRecord::new("info", "ok")
        .with_meta("user", obj(vec![("age", n(30)), ("status", s("active"))]));
    let too_young = LogRecord::new("info", "ok")
        .with_meta("user", obj(vec![("age", n(10)), ("status", s("active"))]));

    assert!(query.matches(&matching));
    assert!(!query.matches(&too_young));
}

#[test]
fn test_time_window_rejects_missing_timestamp() {
    let query = LogQuery::new()
        .from("2024-04-01T00:00:00Z")
        .until("2024-04-02T00:00:00Z");
    let no_ts = LogRecord::new("info", "no timestamp at all");
    assert!(!query.matches(&no_ts));
}

#[test]
fn test_search_term_rejects_invalid_pattern() {
    assert!(LogQuery::new().search_term("([").is_err());
    let ok = LogQuery::new().search_term("ab+c").unwrap();
    assert_eq!(ok.search_term.as_deref(), Some("ab+c"));
}

#[test]
fn test_order_from_str() {
    assert!(matches!(Order::from_str("ASC"), Ok(Order::Ascending)));
    assert!(matches!(Order::from_str("ascending"), Ok(Order::Ascending)));
    assert!(matches!(Order::from_str("Desc"), Ok(Order::Descending)));
    assert!(matches!(Order::from_str("descending"), Ok(Order::Descending)));
    match Order::from_str("sideways") {
        Err(e) => assert_eq!(e, "Invalid order: sideways"),
        Ok(_) => panic!("expected an error"),
    }
}

#[test]
fn test_order_conversions() {
    assert!(matches!(Order::from(1i32), Order::Ascending));
    assert!(matches!(Order::from(0i32), Order::Descending));
    assert!(matches!(Order::from(1i64), Order::Ascending));
    assert!(matches!(Order::from(-7i64), Order::Descending));
    assert!(matches!(Order::from(1i8), Order::Ascending));
    assert!(matches!(Order::from(1i16), Order::Ascending));
    assert!(matches!(Order::from(1i128), Order::Ascending));
    assert!(matches!(Order::from(1isize), Order::Ascending));
    assert!(matches!(Order::from("asc"), Order::Ascending));
    assert!(matches!(Order::from("nonsense"), Order::Descending));
    assert!(matches!(Order::from("DESC".to_string()), Order::Descending));
}

#[test]
fn test_sort_by_timestamp() {
    let a = LogRecord::new("info", "a").with_meta("timestamp", s("2024-04-01T10:00:00Z"));
    let b = LogRecord::new("info", "b").with_meta("timestamp", s("2024-04-01T09:00:00Z"));
    let c = LogRecord::new("info", "c"); // no timestamp: sorts as minimal
    let mut entries = vec![a, b, c];

    let asc = LogQuery::new().order(Order::Ascending);
    asc.sort(&mut entries);
    let names: Vec<&str> = entries.iter().map(|e| e.message.as_str()).collect();
    assert_eq!(names, vec!["c", "b", "a"]);

    let desc = LogQuery::new().order(Order::Descending);
    desc.sort(&mut entries);
    let names: Vec<&str> = entries.iter().map(|e| e.message.as_str()).collect();
    assert_eq!(names, vec!["a", "b", "c"]);
}

#[test]
fn test_matches_is_repeatable() {
    // The same query and record give the same answer on every call: no
    // hidden clock is consulted after construction.
    let query = LogQuery::new()
        .from("2024-04-01T00:00:00Z")
        .until("2024-04-02T00:00:00Z");
    let entry = LogRecord::new("info", "steady")
        .with_meta("timestamp", s("2024-04-01T12:30:00Z"));
    let first = query.matches(&entry);
    for _ in 0..5 {
        assert_eq!(query.matches(&entry), first);
    }
    assert!(first);
}

#[test]
fn test_new_defaults() {
    let q = LogQuery::new();
    assert_eq!(q.limit, Some(50));
    assert_eq!(q.start, Some(0));
    assert!(matches!(q.order, Order::Descending));
    assert!(q.from.is_some());
    assert!(q.until.is_some());
    assert!(q.from.unwrap() <= q.until.unwrap());
    assert_eq!(q.until.unwrap() - q.from.unwrap(), 86_400_000);
    assert!(q.levels.is_empty());
    assert!(q.fields.is_empty());
    assert!(q.search_term.is_none());
    assert!(q.filter.is_none());
}
