use praxis::assertion::evaluate_body_assertion;
use praxis::json::{to_text, Json, JsonNumber, NumKind};
use serde_json::Value;

fn json(v: &Value) -> Json {
    match v {
        Value::Null => Json::Null,
        Value::Bool(b) => Json::Bool(*b),
        Value::Number(n) => {
            let f = n.as_f64().unwrap();
            let kind = if let Some(u) = n.as_u64() {
                NumKind::PosInt(u)
            } else if let Some(i) = n.as_i64() {
                NumKind::NegInt(i)
            } else {
                NumKind::Float(n.to_string())
            };
            Json::Number(JsonNumber { kind, f64_bits: f.to_bits(), f64_text: format!("{}", f) })
        }
        Value::String(s) => Json::Str(s.clone()),
        Value::Array(xs) => Json::Array(xs.iter().map(json).collect()),
        Value::Object(m) => Json::Object(m.iter().map(|(k, v)| (k.clone(), json(v))).collect()),
    }
}

fn check(assertion: &str, actual: &str) -> Vec<String> {
    let a: Value = serde_json::from_str(assertion).unwrap();
    let b: Value = serde_json::from_str(actual).unwrap();
    evaluate_body_assertion(&json(&a), &json(&b), "body")
}

#[test]
fn eq_passes_and_fails_with_message() {
    assert!(check(r#"{"$eq": 5}"#, "5").is_empty());
    assert_eq!(check(r#"{"$eq": 5}"#, "6"), vec!["body: expected 5 got 6".to_string()]);
}

#[test]
fn integer_and_float_are_different_numbers() {
    assert_eq!(check(r#"{"$eq": 1}"#, "1.0"), vec!["body: expected 1 got 1.0".to_string()]);
    assert!(check(r#"{"$eq": 1.5}"#, "1.50").is_empty());
}

#[test]
fn not_eq_message() {
    assert_eq!(
        check(r#"{"$not_eq": "a"}"#, r#""a""#),
        vec![r#"body: expected value to not equal "a""#.to_string()]
    );
}

#[test]
fn type_check_names_kinds() {
    assert!(check(r#"{"$type": "array"}"#, "[1]").is_empty());
    assert_eq!(
        check(r#"{"$type": "string"}"#, "3"),
        vec!["body: expected type 'string' got 'number'".to_string()]
    );
}

#[test]
fn exists_fails_on_null_only() {
    assert_eq!(check(r#"{"$exists": true}"#, "null"), vec!["body: field must exist".to_string()]);
    assert!(check(r#"{"$exists": false}"#, "null").is_empty());
    assert!(check(r#"{"$exists": true}"#, "0").is_empty());
}

#[test]
fn ordering_operators() {
    assert!(check(r#"{"$gt": 1}"#, "2").is_empty());
    assert_eq!(check(r#"{"$gt": 2}"#, "2"), vec!["body: expected > 2 got 2".to_string()]);
    assert!(check(r#"{"$gte": 2}"#, "2").is_empty());
    assert_eq!(check(r#"{"$lt": 1.5}"#, "2"), vec!["body: expected < 1.5 got 2".to_string()]);
    assert!(check(r#"{"$lte": -1}"#, "-3").is_empty());
    assert_eq!(
        check(r#"{"$gt": 1}"#, r#""x""#),
        vec!["body: $gt requires numeric values".to_string()]
    );
}

#[test]
fn contains_string_message() {
    assert!(check(r#"{"$contains_string": "ell"}"#, r#""hello""#).is_empty());
    assert_eq!(
        check(r#"{"$contains_string": "z"}"#, r#""hello""#),
        vec!["body: expected string to contain 'z', got 'hello'".to_string()]
    );
}

#[test]
fn matches_uses_the_regex_crate() {
    assert!(check(r#"{"$matches": "^h.*o$"}"#, r#""hello""#).is_empty());
    assert_eq!(
        check(r#"{"$matches": "^x"}"#, r#""hello""#),
        vec!["body: 'hello' did not match regex /^x/".to_string()]
    );
    let bad = check(r#"{"$matches": "("}"#, r#""hello""#);
    assert_eq!(bad.len(), 1);
    assert!(bad[0].starts_with("body: invalid regex '(': "));
}

#[test]
fn matches_is_searched_anywhere() {
    assert!(check(r#"{"$matches": "[0-9]+"}"#, r#""ab12""#).is_empty());
    assert_eq!(
        check(r#"{"$matches": "^[0-9]+$"}"#, r#""12a""#),
        vec!["body: '12a' did not match regex /^[0-9]+$/".to_string()]
    );
}

#[test]
fn array_operators() {
    assert!(check(r#"{"$is_array": true}"#, "[]").is_empty());
    assert_eq!(check(r#"{"$is_array": true}"#, "{}"), vec!["body: expected array, got object".to_string()]);
    assert_eq!(check(r#"{"$length": 2}"#, "[1]"), vec!["body: expected length 2 got 1".to_string()]);
    assert_eq!(check(r#"{"$min_length": 2}"#, "[1]"), vec!["body: expected min length 2 got 1".to_string()]);
    assert_eq!(check(r#"{"$length": 1}"#, "3"), vec!["body: $length requires an array".to_string()]);
}

#[test]
fn contains_matches_objects_by_fields() {
    assert!(check(r#"{"$contains": {"id": 1}}"#, r#"[{"id": 2}, {"id": 1, "x": 3}]"#).is_empty());
    assert!(check(r#"{"$contains": {"id": {"$gt": 1}}}"#, r#"[{"id": 2}]"#).is_empty());
    assert_eq!(
        check(r#"{"$contains": {"id": 9}}"#, r#"[{"id": 2}]"#),
        vec![r#"body: array does not contain an element matching {"id":9}"#.to_string()]
    );
    assert_eq!(check(r#"{"$contains": 1}"#, "{}"), vec!["body: $contains requires an array".to_string()]);
}

#[test]
fn unknown_operator_reported() {
    assert_eq!(check(r#"{"$nope": 1}"#, "1"), vec!["body: unknown operator '$nope'".to_string()]);
}

#[test]
fn plain_object_recurses_with_field_paths() {
    let f = check(r#"{"user": {"name": "ann", "age": {"$gte": 18}}}"#, r#"{"user": {"name": "bob", "age": 17}}"#);
    assert_eq!(
        f,
        vec![
            "body.user.age: expected >= 18 got 17".to_string(),
            r#"body.user.name: expected "ann" got "bob""#.to_string(),
        ]
    );
}

#[test]
fn missing_field_is_null() {
    assert_eq!(check(r#"{"a": 1}"#, "{}"), vec!["body.a: expected 1 got null".to_string()]);
}

#[test]
fn scalar_assertion_compares_directly() {
    assert!(check("true", "true").is_empty());
    assert_eq!(check("true", "false"), vec!["body: expected true got false".to_string()]);
}

#[test]
fn json_text_is_compact() {
    let v: Value = serde_json::from_str(r#"{"a": [1, "x\n", null], "b": true}"#).unwrap();
    assert_eq!(to_text(&json(&v)), r#"{"a":[1,"x\n",null],"b":true}"#);
    assert_eq!(to_text(&json(&v)), v.to_string());
}

#[test]
fn field_shorthand_means_eq() {
    assert_eq!(check(r#"{"a": 1}"#, r#"{"a": 2}"#), check(r#"{"a": {"$eq": 1}}"#, r#"{"a": 2}"#));
    assert_eq!(check(r#"{"a": 1}"#, r#"{"a": 2}"#), vec!["body.a: expected 1 got 2".to_string()]);
}
