use praxis::db::{
    blob_text, evaluate_query, invalid_folder_message, json_to_sqlite, locate_database, open_failure_message,
    parameterize_sql, push_db_messages, QueryOutcome, SqlValue,
};
use praxis::json::{Json, JsonNumber, NumKind};
use praxis::path::{join_path, normalize_path, path_within};
use praxis::template::Vars;
use serde_json::Value;

fn json(v: &Value) -> Json {
    match v {
        Value::Null => Json::Null,
        Value::Bool(b) => Json::Bool(*b),
        Value::Number(n) => {
            let f = n.as_f64().unwrap();
            let kind = if let Some(u) = n.as_u64() {
                NumKind::PosInt(u)
            } else if let Some(i) = n.as_i64() {
                NumKind::NegInt(i)
            } else {
                NumKind::Float(n.to_string())
            };
            Json::Number(JsonNumber { kind, f64_bits: f.to_bits(), f64_text: format!("{}", f) })
        }
        Value::String(s) => Json::Str(s.clone()),
        Value::Array(xs) => Json::Array(xs.iter().map(json).collect()),
        Value::Object(m) => Json::Object(m.iter().map(|(k, v)| (k.clone(), json(v))).collect()),
    }
}

fn j(text: &str) -> Json {
    json(&serde_json::from_str::<Value>(text).unwrap())
}

fn is_text(v: &SqlValue, s: &str) -> bool {
    matches!(v, SqlValue::Text(t) if t == s)
}

#[test]
fn placeholders_become_bound_parameters() {
    let mut vars = Vars::new();
    vars.set("id".to_string(), j("5"));
    vars.set("name".to_string(), j(r#""o'brien""#));
    let (sql, params) = parameterize_sql("SELECT * FROM t WHERE id = {{id}} AND name = {{name}} OR x = {{missing}}", &vars);
    assert_eq!(sql, "SELECT * FROM t WHERE id = ? AND name = ? OR x = ?");
    assert_eq!(params.len(), 3);
    assert!(matches!(params[0], SqlValue::Integer(5)));
    assert!(is_text(&params[1], "o'brien"));
    assert!(matches!(params[2], SqlValue::Null));
}

#[test]
fn sql_without_placeholders_is_unchanged() {
    let vars = Vars::new();
    let (sql, params) = parameterize_sql("SELECT 1 -- {{ not a name }}", &vars);
    assert_eq!(sql, "SELECT 1 -- {{ not a name }}");
    assert!(params.is_empty());
}

#[test]
fn json_values_bind_by_kind() {
    assert!(matches!(json_to_sqlite(&j("null")), SqlValue::Null));
    assert!(matches!(json_to_sqlite(&j("true")), SqlValue::Integer(1)));
    assert!(matches!(json_to_sqlite(&j("false")), SqlValue::Integer(0)));
    assert!(matches!(json_to_sqlite(&j("-4")), SqlValue::Integer(-4)));
    assert!(matches!(json_to_sqlite(&j("18446744073709551615")), SqlValue::Real(b) if b == (18446744073709551615u64 as f64).to_bits()));
    assert!(matches!(json_to_sqlite(&j("2.5")), SqlValue::Real(b) if b == 2.5f64.to_bits()));
    assert!(is_text(&json_to_sqlite(&j(r#"[1,"a"]"#)), r#"[1,"a"]"#));
}

fn rows(cols: &[&str], data: &[&str]) -> QueryOutcome {
    QueryOutcome::Rows {
        columns: cols.iter().map(|c| c.to_string()).collect(),
        rows: data
            .iter()
            .map(|r| match j(r) {
                Json::Array(xs) => xs,
                _ => panic!("row must be an array"),
            })
            .collect(),
    }
}

#[test]
fn row_count_checks() {
    let out = rows(&["id"], &["[1]", "[2]"]);
    assert!(evaluate_query("q1", &out, &j(r#"{"$row_count": 2}"#)).is_empty());
    assert_eq!(
        evaluate_query("q1", &out, &j(r#"{"$row_count": 3}"#)),
        vec!["[q1] $row_count: expected 3 got 2".to_string()]
    );
    assert_eq!(
        evaluate_query("q1", &out, &j(r#"{"$row_count": {"$gte": 5}}"#)),
        vec!["[q1] $row_count: expected >= 5 got 2".to_string()]
    );
}

#[test]
fn column_name_checks() {
    let out = rows(&["id", "title"], &[]);
    assert!(evaluate_query("q", &out, &j(r#"{"$column_names": {"$contains_all": ["id", "title"]}}"#)).is_empty());
    assert_eq!(
        evaluate_query("q", &out, &j(r#"{"$column_names": {"$contains_all": ["id", "year", "rating"]}}"#)),
        vec!["[q] $column_names: missing column 'year'".to_string(), "[q] $column_names: missing column 'rating'".to_string()]
    );
    assert_eq!(
        evaluate_query("q", &out, &j(r#"{"$column_names": {"$contains_all": "id"}}"#)),
        vec!["[q] $column_names.$contains_all must be an array".to_string()]
    );
    assert_eq!(
        evaluate_query("q", &out, &j(r#"{"$column_names": {"$other": 1}}"#)),
        vec!["[q] $column_names: unknown operator".to_string()]
    );
    assert_eq!(
        evaluate_query("q", &out, &j(r#"{"$column_names": 1}"#)),
        vec!["[q] $column_names value must be an object".to_string()]
    );
}

#[test]
fn row_field_checks() {
    let out = rows(&["id", "title"], &[r#"[1, "Alien"]"#, r#"[2, "Heat"]"#]);
    assert!(evaluate_query("m", &out, &j(r#"{"$row": {"index": 1, "fields": {"title": "Heat"}}}"#)).is_empty());
    assert_eq!(
        evaluate_query("m", &out, &j(r#"{"$row": {"fields": {"id": {"$gt": 1}, "title": "Heat"}}}"#)),
        vec!["[m] row[0].id: expected > 1 got 1".to_string(), r#"[m] row[0].title: expected "Heat" got "Alien""#.to_string()]
    );
    assert_eq!(
        evaluate_query("m", &out, &j(r#"{"$row": {"index": 5}}"#)),
        vec!["[m] $row: no row at index 5 (got 2 rows)".to_string()]
    );
    assert_eq!(
        evaluate_query("m", &out, &j(r#"{"$row": {"index": 0, "fields": 3}}"#)),
        vec!["[m] $row.fields must be an object".to_string()]
    );
    assert_eq!(
        evaluate_query("m", &out, &j(r#"{"$row": {"fields": {"nope": null}}}"#)),
        Vec::<String>::new()
    );
}

#[test]
fn query_level_errors() {
    assert_eq!(
        evaluate_query("x", &QueryOutcome::PrepareFailed("no such table: t".to_string()), &j("{}")),
        vec!["[x] SQL error: no such table: t".to_string()]
    );
    assert_eq!(
        evaluate_query("x", &QueryOutcome::QueryFailed("busy".to_string()), &j("{}")),
        vec!["[x] query failed: busy".to_string()]
    );
    assert_eq!(
        evaluate_query("x", &rows(&["a"], &[]), &j("[]")),
        vec!["[x] assert must be an object".to_string()]
    );
    assert_eq!(
        evaluate_query("x", &rows(&["a"], &[]), &j(r#"{"$what": 1}"#)),
        vec!["[x] unknown db assert operator '$what'".to_string()]
    );
}

#[test]
fn messages_are_prefixed() {
    let mut out = vec!["DB: earlier".to_string()];
    push_db_messages(&mut out, vec!["[q] a".to_string(), "[q] b".to_string()]);
    assert_eq!(out, vec!["DB: earlier".to_string(), "DB: [q] a".to_string(), "DB: [q] b".to_string()]);
    assert_eq!(invalid_folder_message("gone"), "DB: invalid project folder: gone");
    assert_eq!(open_failure_message("app.db", "locked"), "DB: could not open 'app.db': locked");
    assert_eq!(blob_text(12), "<blob 12 bytes>");
}

#[test]
fn paths_normalize_and_compare_by_components() {
    assert_eq!(normalize_path("/home/u/proj/./data/../app.db"), "/home/u/proj/app.db");
    assert_eq!(normalize_path("/a/../../b"), "/b");
    assert_eq!(normalize_path("a//b/"), "a/b");
    assert_eq!(normalize_path("../x"), "x");
    assert_eq!(join_path("/p", "db/app.db"), "/p/db/app.db");
    assert_eq!(join_path("/p/", "/abs"), "/abs");
    assert!(path_within("/p/db/app.db", "/p"));
    assert!(path_within("/p", "/p/"));
    assert!(!path_within("/pp/app.db", "/p"));
    assert!(!path_within("p/app.db", "/p"));
}

#[test]
fn database_must_stay_inside_the_project() {
    assert_eq!(locate_database("/p", "app.db", None), Ok("/p/app.db".to_string()));
    assert_eq!(locate_database("/p", "data/../app.db", None), Ok("/p/app.db".to_string()));
    assert_eq!(
        locate_database("/p", "../secret.db", None),
        Err("DB: database path '../secret.db' escapes the project folder — aborting.".to_string())
    );
    assert_eq!(
        locate_database("/p", "/etc/passwd", None),
        Err("DB: database path '/etc/passwd' escapes the project folder — aborting.".to_string())
    );
    assert_eq!(
        locate_database("/p", "link.db", Some("/elsewhere/real.db".to_string())),
        Err("DB: database path 'link.db' escapes the project folder — aborting.".to_string())
    );
    assert_eq!(
        locate_database("/p", "link.db", Some("/p/sub/real.db".to_string())),
        Ok("/p/sub/real.db".to_string())
    );
}

#[test]
fn sql_text_does_not_depend_on_values() {
    let mut a = Vars::new();
    a.set("v".to_string(), j(r#""1; DROP TABLE users""#));
    let mut b = Vars::new();
    b.set("v".to_string(), j("2"));
    let (sa, pa) = parameterize_sql("SELECT * FROM users WHERE id = {{v}}", &a);
    let (sb, pb) = parameterize_sql("SELECT * FROM users WHERE id = {{v}}", &b);
    assert_eq!(sa, sb);
    assert_eq!(pa.len(), 1);
    assert_eq!(pb.len(), 1);
    assert!(is_text(&pa[0], "1; DROP TABLE users"));
}

#[test]
fn placeholders_in_non_ascii_sql() {
    let mut vars = Vars::new();
    vars.set("naïve".to_string(), j(r#""é""#));
    let (sql, params) = parameterize_sql("SELECT 'ü' FROM t WHERE a = {{naïve}} AND b = '{{ x }}' ✓", &vars);
    assert_eq!(sql, "SELECT 'ü' FROM t WHERE a = ? AND b = '{{ x }}' ✓");
    assert_eq!(params.len(), 1);
    assert!(is_text(&params[0], "é"));
}

#[test]
fn normalizing_twice_changes_nothing() {
    for p in ["/a/./b/../../c/", "x/../../y", "./a/.", "/..", "", "a//b"] {
        let once = normalize_path(p);
        assert_eq!(normalize_path(&once), once);
        assert!(!once.split('/').any(|c| c == "." || c == ".."));
    }
    assert_eq!(normalize_path("/proj/data/../../etc/passwd"), "/etc/passwd");
}
