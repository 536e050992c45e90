use winston_transport::{FieldPath, JsonValue};

fn s(v: &str) -> JsonValue {
    JsonValue::Str(v.to_string())
}

fn n(v: i64) -> JsonValue {
    JsonValue::Num(v)
}

fn obj(pairs: Vec<(&str, JsonValue)>) -> JsonValue {
    JsonValue::Obj(pairs.into_iter().map(|(k, v)| (k.to_string(), v)).collect())
}

fn arr(els: Vec<JsonValue>) -> JsonValue {
    JsonValue::Arr(els)
}

fn sample() -> JsonValue {
    obj(vec![
        (
            "user",
            obj(vec![
                ("name", s("Alice")),
                ("address", obj(vec![("city", s("NY")), ("zipcode", s("10001"))])),
                ("age", n(30)),
            ]),
        ),
        (
            "items",
            arr(vec![obj(vec![("price", n(10))]), obj(vec![("price", n(20))])]),
        ),
    ])
}

#[test]
fn test_field_path_extraction() {
    let json_data = sample();

    let cases: Vec<(&str, Option<JsonValue>)> = vec![
        ("user.name", Some(s("Alice"))),
        ("user.address.city", Some(s("NY"))),
        ("items[1].price", Some(n(20))),
        ("items[*].price", Some(arr(vec![n(10), n(20)]))),
        ("user.address.street", None),
    ];

    for (path, expected) in cases {
        let field_path = FieldPath::from_str(path).unwrap();
        let result = field_path.extract(&json_data);
        match (result, expected) {
            (Some(got), Some(want)) => {
                assert!(got.deep_eq(&want), "wrong value for path: {}", path)
            }
            (None, None) => {}
            _ => panic!("presence mismatch for path: {}", path),
        }
    }

    // `user.*` yields all three values of the user object; compare as an
    // unordered collection, since which order an object hands its values out
    // in is a representation detail.
    let field_path = FieldPath::from_str("user.*").unwrap();
    let result = field_path.extract(&json_data).unwrap();
    let expected = vec![
        s("Alice"),
        obj(vec![("city", s("NY")), ("zipcode", s("10001"))]),
        n(30),
    ];
    match result {
        JsonValue::Arr(els) => {
            assert_eq!(els.len(), 3);
            for want in &expected {
                assert!(els.iter().any(|e| e.deep_eq(want)));
            }
        }
        _ => panic!("expected an array for user.*"),
    }
}

#[test]
fn test_array_wildcard_with_wildcard() {
    let json_data = obj(vec![(
        "users",
        arr(vec![
            obj(vec![("name", s("Alice")), ("age", n(30))]),
            obj(vec![("name", s("Bob")), ("age", n(25))]),
        ]),
    )]);

    let field_path = FieldPath::from_str("users[*].*").unwrap();
    let result = field_path.extract(&json_data).unwrap();
    let expected = vec![s("Alice"), n(30), s("Bob"), n(25)];
    match result {
        JsonValue::Arr(els) => {
            assert_eq!(els.len(), 4);
            for want in &expected {
                assert!(els.iter().any(|e| e.deep_eq(want)));
            }
        }
        _ => panic!("expected an array for users[*].*"),
    }
}

#[test]
fn test_path_parsing_drops_malformed_brackets() {
    // A bracket part that is not digits and not `*]` is dropped, as is an
    // index too large for the machine.
    let p = FieldPath::from_str("a[x].b").unwrap();
    assert_eq!(p.segments.len(), 2);
    let q = FieldPath::from_str("a[99999999999999999999999999].b").unwrap();
    assert_eq!(q.segments.len(), 2);
}

#[test]
fn test_duplicate_keys_take_first() {
    // An object may hold a key twice; lookup takes the first binding.
    let doc = JsonValue::Obj(vec![
        ("k".to_string(), n(1)),
        ("k".to_string(), n(2)),
    ]);
    let p = FieldPath::from_str("k").unwrap();
    assert!(p.extract(&doc).unwrap().deep_eq(&n(1)));
}

#[test]
fn test_path_rendering_round_trip() {
    for path in ["user.age", "items[0].price", "items[*].price", "user.*", "a.b[2][*].c"] {
        let p = FieldPath::from_str(path).unwrap();
        let rendered = p.to_path_string();
        assert_eq!(rendered, path);
        let q = FieldPath::from_str(&rendered).unwrap();
        assert_eq!(q.segments.len(), p.segments.len());
        assert_eq!(q.to_path_string(), rendered);
    }
}
