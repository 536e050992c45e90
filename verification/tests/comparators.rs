use winston_transport::{Comparator, JsonValue, QueryValue, UtcInstant};

fn s(v: &str) -> JsonValue {
    JsonValue::Str(v.to_string())
}

fn n(v: i64) -> JsonValue {
    JsonValue::Num(v)
}

fn qn(v: i64) -> QueryValue {
    QueryValue::Number(v)
}

fn qs(v: &str) -> QueryValue {
    QueryValue::String(v.to_string())
}

#[test]
fn test_equals_and_numbers() {
    assert!(Comparator::Equals.compare(&s("active"), &Some(qs("active"))));
    assert!(!Comparator::Equals.compare(&s("active"), &Some(qs("idle"))));
    assert!(Comparator::GreaterThan.compare(&n(30), &Some(qn(25))));
    assert!(!Comparator::GreaterThan.compare(&n(20), &Some(qn(25))));
    assert!(!Comparator::GreaterThan.compare(&s("30"), &Some(qn(25))));
    assert!(Comparator::LessThanOrEqual.compare(&n(25), &Some(qn(25))));
}

#[test]
fn test_regex_comparators() {
    let pat = Some(QueryValue::Regex("^data.*e$".to_string()));
    assert!(Comparator::Matches.compare(&s("database"), &pat));
    assert!(!Comparator::Matches.compare(&s("databases"), &pat));
    assert!(Comparator::NotMatches.compare(&s("databases"), &pat));
    // String against a regex value under Equals matches by the engine too.
    assert!(Comparator::Equals.compare(&s("database"), &pat));
}

#[test]
fn test_string_comparators() {
    assert!(Comparator::StartsWith.compare(&s("database"), &Some(qs("data"))));
    assert!(Comparator::EndsWith.compare(&s("database"), &Some(qs("base"))));
    assert!(Comparator::Contains.compare(&s("database"), &Some(qs("tab"))));
    assert!(!Comparator::Contains.compare(&s("database"), &Some(qs("xyz"))));
    assert!(Comparator::NotContains.compare(&s("database"), &Some(qs("xyz"))));
    let arr = JsonValue::Arr(vec![s("alpha"), s("beta")]);
    assert!(Comparator::Contains.compare(&arr, &Some(qs("et"))));
}

#[test]
fn test_membership_and_array_comparators() {
    let expected = Some(QueryValue::Array(vec![qn(1), qn(2), qn(3)]));
    assert!(Comparator::In.compare(&n(2), &expected));
    assert!(!Comparator::In.compare(&n(5), &expected));
    assert!(Comparator::NotIn.compare(&n(5), &expected));

    let actual = JsonValue::Arr(vec![n(1), n(2), n(3), n(4)]);
    assert!(Comparator::HasAll.compare(&actual, &Some(QueryValue::Array(vec![qn(2), qn(4)]))));
    assert!(!Comparator::HasAll.compare(&actual, &Some(QueryValue::Array(vec![qn(2), qn(9)]))));
    assert!(Comparator::HasAny.compare(&actual, &Some(QueryValue::Array(vec![qn(9), qn(3)]))));
    assert!(Comparator::HasNone.compare(&actual, &Some(QueryValue::Array(vec![qn(9), qn(8)]))));
    assert!(Comparator::Length.compare(&actual, &Some(qn(4))));
    assert!(!Comparator::Length.compare(&actual, &Some(qn(3))));
    assert!(Comparator::Empty.compare(&JsonValue::Arr(vec![]), &None));
    assert!(Comparator::NotEmpty.compare(&actual, &None));
}

#[test]
fn test_between_and_divisibility() {
    let range = Some(QueryValue::Array(vec![qn(10), qn(20)]));
    assert!(Comparator::Between.compare(&n(15), &range));
    assert!(!Comparator::Between.compare(&n(25), &range));
    assert!(Comparator::NotBetween.compare(&n(25), &range));

    assert!(Comparator::IsMultipleOf.compare(&n(15), &Some(qn(5))));
    assert!(!Comparator::IsMultipleOf.compare(&n(16), &Some(qn(5))));
    // A zero divisor divides nothing; the comparison is simply false.
    assert!(!Comparator::IsDivisibleBy.compare(&n(15), &Some(qn(0))));
    assert!(Comparator::IsDivisibleBy.compare(&n(-15), &Some(qn(5))));
}

#[test]
fn test_instant_comparators() {
    let noon = UtcInstant { millis: 1712059200000, year: 2024, month: 4, day: 2 };
    let expected = Some(QueryValue::DateTime(noon));
    assert!(Comparator::Before.compare(&s("2024-04-02T10:00:00Z"), &expected));
    assert!(!Comparator::Before.compare(&s("2024-04-02T13:00:00Z"), &expected));
    assert!(Comparator::After.compare(&s("2024-04-02T13:00:00Z"), &expected));
    assert!(Comparator::SameDay.compare(&s("2024-04-02T23:59:59Z"), &expected));
    assert!(!Comparator::SameDay.compare(&s("2024-04-03T00:00:01Z"), &expected));
    // Equality of a string and an instant goes through RFC 3339 parsing.
    assert!(Comparator::Equals.compare(&s("2024-04-02T12:00:00Z"), &expected));
    // A string that is not a timestamp fails without an error.
    assert!(!Comparator::Before.compare(&s("not a date"), &expected));
}

#[test]
fn test_exists_and_function() {
    assert!(Comparator::Exists.compare(&n(1), &None));
    assert!(!Comparator::NotExists.compare(&n(1), &None));
    // The opaque-predicate slot holds no value in this library, so the
    // comparison never succeeds.
    assert!(!Comparator::Function.compare(&n(1), &None));
}

#[test]
fn test_absence_over_no_candidates() {
    // Over an empty candidate list only the absence test holds.
    let empty: Vec<&JsonValue> = Vec::new();
    assert!(Comparator::NotExists.evaluate(empty, &None));
    let empty2: Vec<&JsonValue> = Vec::new();
    assert!(!Comparator::Exists.evaluate(empty2, &None));
    let empty3: Vec<&JsonValue> = Vec::new();
    assert!(!Comparator::Equals.evaluate(empty3, &Some(qn(1))));
}

#[test]
fn test_any_candidate_satisfies() {
    // A later candidate may satisfy even when an earlier one compares false.
    let noon = UtcInstant { millis: 1712059200000, year: 2024, month: 4, day: 2 };
    let expected = Some(QueryValue::DateTime(noon));
    let late = s("2024-04-02T13:00:00Z");
    let early = s("2024-04-02T10:00:00Z");
    let candidates = vec![&late, &early];
    assert!(Comparator::Before.evaluate(candidates, &expected));
    let only_late = vec![&late];
    assert!(!Comparator::Before.evaluate(only_late, &expected));
}

#[test]
fn test_incompatible_candidates_satisfy_nothing() {
    // A non-numeric candidate satisfies neither side of an interval test.
    let range = Some(QueryValue::Array(vec![qn(1), qn(5)]));
    assert!(!Comparator::Between.compare(&s("x"), &range));
    assert!(!Comparator::NotBetween.compare(&s("x"), &range));
    assert!(Comparator::NotBetween.compare(&n(9), &range));
}
