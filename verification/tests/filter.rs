use incurs::filter::{apply, parse, parse_bounded, Segment};
use incurs::value::{Number, Value};

fn from_json(value: &serde_json::Value) -> Value {
    match value {
        serde_json::Value::Null => Value::Null,
        serde_json::Value::Bool(b) => Value::Bool(*b),
        serde_json::Value::Number(n) => {
            if let Some(u) = n.as_u64() {
                Value::Number(Number::PosInt(u))
            } else if let Some(i) = n.as_i64() {
                Value::Number(Number::NegInt(i))
            } else {
                Value::Number(Number::Float { bits: n.as_f64().unwrap().to_bits() })
            }
        }
        serde_json::Value::String(s) => Value::String(s.clone()),
        serde_json::Value::Array(items) => Value::Array(items.iter().map(from_json).collect()),
        serde_json::Value::Object(map) => {
            Value::Object(map.iter().map(|(k, v)| (k.clone(), from_json(v))).collect())
        }
    }
}

fn to_json(value: &Value) -> serde_json::Value {
    match value {
        Value::Null => serde_json::Value::Null,
        Value::Bool(b) => serde_json::Value::from(*b),
        Value::Number(Number::PosInt(u)) => serde_json::Value::from(*u),
        Value::Number(Number::NegInt(i)) => serde_json::Value::from(*i),
        Value::Number(Number::Float { bits }) => serde_json::Value::from(f64::from_bits(*bits)),
        Value::String(s) => serde_json::Value::from(s.as_str()),
        Value::Array(items) => serde_json::Value::Array(items.iter().map(to_json).collect()),
        Value::Object(entries) => serde_json::Value::Object(
            entries.iter().map(|(k, v)| (k.clone(), to_json(v))).collect(),
        ),
    }
}

fn json(text: &str) -> serde_json::Value {
    serde_json::from_str(text).unwrap()
}

fn value(text: &str) -> Value {
    from_json(&json(text))
}

fn filtered(data: &str, expression: &str) -> serde_json::Value {
    to_json(&apply(&value(data), &parse(expression)))
}

#[test]
fn test_parse_single_key() {
    let paths = parse("foo");
    assert_eq!(paths.len(), 1);
    assert_eq!(paths[0].len(), 1);
    assert!(matches!(&paths[0][0], Segment::Key(k) if k == "foo"));
}

#[test]
fn test_parse_multiple_keys() {
    let paths = parse("foo,bar,baz");
    assert_eq!(paths.len(), 3);
}

#[test]
fn test_parse_dotted_path() {
    let paths = parse("foo.bar.baz");
    assert_eq!(paths.len(), 1);
    assert_eq!(paths[0].len(), 3);
    assert!(matches!(&paths[0][0], Segment::Key(k) if k == "foo"));
    assert!(matches!(&paths[0][1], Segment::Key(k) if k == "bar"));
    assert!(matches!(&paths[0][2], Segment::Key(k) if k == "baz"));
}

#[test]
fn test_parse_with_slice() {
    let paths = parse("items[0,3]");
    assert_eq!(paths.len(), 1);
    assert_eq!(paths[0].len(), 2);
    assert!(matches!(&paths[0][0], Segment::Key(k) if k == "items"));
    assert!(matches!(&paths[0][1], Segment::Slice { start: 0, end: 3 }));
}

#[test]
fn test_parse_complex_expression() {
    let paths = parse("foo,bar.baz,a[0,3]");
    assert_eq!(paths.len(), 3);

    // foo
    assert_eq!(paths[0].len(), 1);
    assert!(matches!(&paths[0][0], Segment::Key(k) if k == "foo"));

    // bar.baz
    assert_eq!(paths[1].len(), 2);
    assert!(matches!(&paths[1][0], Segment::Key(k) if k == "bar"));
    assert!(matches!(&paths[1][1], Segment::Key(k) if k == "baz"));

    // a[0,3]
    assert_eq!(paths[2].len(), 2);
    assert!(matches!(&paths[2][0], Segment::Key(k) if k == "a"));
    assert!(matches!(&paths[2][1], Segment::Slice { start: 0, end: 3 }));
}

#[test]
fn test_parse_slice_then_key() {
    let paths = parse("items[0,2].name");
    assert_eq!(paths.len(), 1);
    assert_eq!(paths[0].len(), 3);
    assert!(matches!(&paths[0][0], Segment::Key(k) if k == "items"));
    assert!(matches!(&paths[0][1], Segment::Slice { start: 0, end: 2 }));
    assert!(matches!(&paths[0][2], Segment::Key(k) if k == "name"));
}

#[test]
fn test_apply_empty_paths() {
    let data = value(r#"{"a": 1, "b": 2}"#);
    let result = apply(&data, &vec![]);
    assert_eq!(result, data);
}

#[test]
fn test_apply_single_scalar_key() {
    let result = filtered(r#"{"name": "alice", "age": 30}"#, "name");
    assert_eq!(result, json(r#""alice""#));
}

#[test]
fn test_apply_single_object_key() {
    let result = filtered(r#"{"user": {"name": "alice"}, "count": 1}"#, "user");
    assert_eq!(result, json(r#"{"user": {"name": "alice"}}"#));
}

#[test]
fn test_apply_multiple_keys() {
    let result = filtered(r#"{"a": 1, "b": 2, "c": 3}"#, "a,c");
    assert_eq!(result, json(r#"{"a": 1, "c": 3}"#));
}

#[test]
fn test_apply_nested_key() {
    let result = filtered(r#"{"user": {"name": "alice", "age": 30}}"#, "user.name");
    assert_eq!(result, json(r#"{"user": {"name": "alice"}}"#));
}

#[test]
fn test_apply_array_slice() {
    let result = filtered(r#"{"items": [1, 2, 3, 4, 5]}"#, "items[0,3]");
    assert_eq!(result, json(r#"{"items": [1, 2, 3]}"#));
}

#[test]
fn test_apply_slice_then_key() {
    let data = r#"{
        "users": [
            {"name": "alice", "age": 30},
            {"name": "bob", "age": 25},
            {"name": "charlie", "age": 35}
        ]
    }"#;
    let result = filtered(data, "users[0,2].name");
    assert_eq!(result, json(r#"{"users": [{"name": "alice"}, {"name": "bob"}]}"#));
}

#[test]
fn test_apply_to_array_data() {
    let data = r#"[{"name": "alice", "age": 30}, {"name": "bob", "age": 25}]"#;
    let result = filtered(data, "name");
    assert_eq!(result, json(r#"["alice", "bob"]"#));
}

#[test]
fn test_apply_missing_key() {
    let data = value(r#"{"a": 1}"#);
    let paths = parse("b");
    let result = apply(&data, &paths);
    assert_eq!(result, Value::Null);
}

#[test]
fn test_apply_multiple_paths_with_nesting() {
    let data = r#"{
        "user": {"name": "alice", "email": "alice@example.com"},
        "count": 42
    }"#;
    let result = filtered(data, "user.name,count");
    assert_eq!(result, json(r#"{"user": {"name": "alice"}, "count": 42}"#));
}

#[test]
fn test_parse_empty_string() {
    let paths = parse("");
    assert!(paths.is_empty());
}

#[test]
fn test_apply_to_array_multiple_keys() {
    let data = r#"[
        {"name": "alice", "age": 30, "city": "NYC"},
        {"name": "bob", "age": 25, "city": "LA"}
    ]"#;
    let result = filtered(data, "name,age");
    assert_eq!(
        result,
        json(r#"[{"name": "alice", "age": 30}, {"name": "bob", "age": 25}]"#)
    );
}

#[test]
fn one_index_selects_one_item() {
    let result = filtered(r#"{"items": [1, 2, 3]}"#, "items[1]");
    assert_eq!(result, json(r#"{"items": [2]}"#));
}

#[test]
fn an_index_that_is_no_number_is_zero() {
    let paths = parse("items[x,2]");
    assert!(matches!(&paths[0][1], Segment::Slice { start: 0, end: 2 }));
}

#[test]
fn a_slice_behind_the_last_machine_number_is_refused() {
    assert!(parse_bounded("items[18446744073709551615]").is_none());
    assert!(parse_bounded("items[18446744073709551614]").is_some());
}

#[test]
fn an_array_is_filtered_item_by_item() {
    let result = filtered(r#"[{"a": 1}, 7, {"b": 2}]"#, "a");
    assert_eq!(result, json(r#"[1, null, null]"#));
}

#[test]
fn filtered_objects_have_their_keys_in_the_order_of_the_paths() {
    match apply(&value(r#"{"c": 1, "a": 2, "b": 3}"#), &parse("c,b,a,zz,c")) {
        Value::Object(entries) => {
            let keys: Vec<&str> = entries.iter().map(|(k, _)| k.as_str()).collect();
            assert_eq!(keys, vec!["c", "b", "a"]);
        }
        other => panic!("{:?}", other),
    }
}

#[test]
fn lists_of_expressions_are_read_in_turn() {
    let shape = |expression: &str| -> Vec<Vec<String>> {
        let step = |segment: &Segment| match segment {
            Segment::Key(key) => key.clone(),
            Segment::Slice { start, end } => format!("[{start},{end}]"),
        };
        parse(expression).iter().map(|path| path.iter().map(step).collect()).collect()
    };
    let mut both = shape("a[0,3].b");
    both.extend(shape("c.d,e"));
    assert_eq!(shape("a[0,3].b,c.d,e"), both);
    assert_eq!(both.len(), 3);
    assert!(shape("").is_empty());
}
