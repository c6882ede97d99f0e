use praxis::json::{Json, JsonNumber, NumKind};
use praxis::runner::{
    evaluate_assertions, prepare_request, Action, AssertDef, Event, HttpMethod, RequestDef, Response, SetupStep,
    Test, TestFile, TestRun,
};
use praxis::template::{apply_captures, extract_path, interpolate, interpolate_value, replace_text, Vars};
use serde_json::Value;

fn json(v: &Value) -> Json {
    match v {
        Value::Null => Json::Null,
        Value::Bool(b) => Json::Bool(*b),
        Value::Number(n) => {
            let f = n.as_f64().unwrap();
            let kind = if let Some(u) = n.as_u64() {
                NumKind::PosInt(u)
            } else if let Some(i) = n.as_i64() {
                NumKind::NegInt(i)
            } else {
                NumKind::Float(n.to_string())
            };
            Json::Number(JsonNumber { kind, f64_bits: f.to_bits(), f64_text: format!("{}", f) })
        }
        Value::String(s) => Json::Str(s.clone()),
        Value::Array(xs) => Json::Array(xs.iter().map(json).collect()),
        Value::Object(m) => Json::Object(m.iter().map(|(k, v)| (k.clone(), json(v))).collect()),
    }
}

fn j(text: &str) -> Json {
    json(&serde_json::from_str::<Value>(text).unwrap())
}

fn request(method: &str, path: &str, body: Option<&str>) -> RequestDef {
    RequestDef { method: method.to_string(), path: path.to_string(), headers: vec![], body: body.map(j) }
}

#[test]
fn replace_text_replaces_every_occurrence() {
    assert_eq!(replace_text("a{{x}}b{{x}}", "{{x}}", "1"), "a1b1");
    assert_eq!(replace_text("abc", "zz", "1"), "abc");
}

#[test]
fn vars_set_then_get() {
    let mut vars = Vars::new();
    vars.set("token".to_string(), j(r#""abc""#));
    vars.set("id".to_string(), j("7"));
    vars.set("token".to_string(), j(r#""def""#));
    assert!(vars.get("token").unwrap().equals(&j(r#""def""#)));
    assert!(vars.get("id").unwrap().equals(&j("7")));
    assert!(vars.get("nope").is_none());
}

#[test]
fn interpolation_of_strings_and_values() {
    let mut vars = Vars::new();
    vars.set("name".to_string(), j(r#""ann""#));
    vars.set("id".to_string(), j("42"));
    assert_eq!(interpolate("/users/{{id}}/{{name}}/{{other}}", &vars), "/users/42/ann/{{other}}");
    let v = interpolate_value(&j(r#"{"who": "{{name}}", "n": 1, "xs": ["{{id}}"]}"#), &vars);
    assert!(v.equals(&j(r#"{"who": "ann", "n": 1, "xs": ["42"]}"#)));
}

#[test]
fn extract_path_walks_fields_and_indices() {
    let root = j(r#"{"body": {"data": [{"id": 5}, {"id": 6}]}}"#);
    assert!(extract_path(&root, "body.data.1.id").unwrap().equals(&j("6")));
    assert!(extract_path(&root, "body.data.9").is_none());
    assert!(extract_path(&root, "body.missing").is_none());
}

#[test]
fn captures_read_under_body() {
    let mut vars = Vars::new();
    let caps = vec![("token".to_string(), "body.auth.token".to_string()), ("gone".to_string(), "body.x".to_string())];
    apply_captures(&caps, &j(r#"{"auth": {"token": "t1"}}"#), &mut vars);
    assert!(vars.get("token").unwrap().equals(&j(r#""t1""#)));
    assert!(vars.get("gone").is_none());
}

#[test]
fn prepare_request_builds_url_headers_and_body() {
    let mut vars = Vars::new();
    vars.set("id".to_string(), j("3"));
    let mut req = request("post", "/movies/{{id}}", Some(r#"{"ref": "{{id}}"}"#));
    req.headers.push(("X-Id".to_string(), "{{id}}".to_string()));
    let p = prepare_request(&req, &vars, "http://127.0.0.1:8000").ok().unwrap();
    assert_eq!(p.method, HttpMethod::Post);
    assert_eq!(p.url, "http://127.0.0.1:8000/movies/3");
    assert_eq!(
        p.headers,
        vec![("X-Id".to_string(), "3".to_string()), ("Content-Type".to_string(), "application/json".to_string())]
    );
    assert!(p.body.unwrap().equals(&j(r#"{"ref": "3"}"#)));
}

#[test]
fn unsupported_method_is_an_error() {
    let vars = Vars::new();
    let e = prepare_request(&request("trace", "/", None), &vars, "http://h").err().unwrap();
    assert_eq!(e, "Unsupported HTTP method: TRACE");
    let p = prepare_request(&request("dElEtE", "/x", None), &vars, "http://h").ok().unwrap();
    assert_eq!(p.method, HttpMethod::Delete);
}

#[test]
fn status_then_body_failures() {
    let def = AssertDef { status: Some(201), body: j(r#"{"id": {"$exists": true}}"#) };
    let resp = Response { status: 200, body: j("{}") };
    assert_eq!(
        evaluate_assertions(&def, &resp),
        vec!["status: expected 201 got 200".to_string(), "body.id: field must exist".to_string()]
    );
    let none = AssertDef { status: None, body: Json::Null };
    assert!(evaluate_assertions(&none, &resp).is_empty());
}

fn test(id: &str, req: Option<RequestDef>, status: Option<u16>, db: Option<&str>) -> Test {
    Test {
        id: id.to_string(),
        name: format!("test {}", id),
        request: req,
        assert: AssertDef { status, body: Json::Null },
        capture: vec![],
        db_assert: db.map(j),
    }
}

#[test]
fn a_full_run_through_the_state_machine() {
    let setup = vec![SetupStep {
        id: "login".to_string(),
        request: request("POST", "/login", Some("{}")),
        expect_status: Some(200),
        capture: vec![("token".to_string(), "body.token".to_string())],
    }];
    let tests = vec![
        test("a", Some(request("GET", "/items/{{token}}", None)), Some(200), None),
        test("b", Some(request("GET", "/x", None)), Some(200), None),
        test("c", None, None, Some(r#"{"database": "app.db", "queries": []}"#)),
    ];
    let mut run = TestRun::new(TestFile { setup, tests }, "http://127.0.0.1:9".to_string());
    match run.step(Event::Begin) {
        Action::Send(p) => assert_eq!(p.url, "http://127.0.0.1:9/login"),
        _ => panic!("expected a request"),
    }
    assert!(matches!(run.step(Event::Reply(Response { status: 200, body: j(r#"{"token": "k"}"#) })), Action::CheckServer));
    match run.step(Event::ServerStatus(false)) {
        Action::Send(p) => assert_eq!(p.url, "http://127.0.0.1:9/items/k"),
        _ => panic!("expected a request"),
    }
    assert!(matches!(run.step(Event::Reply(Response { status: 500, body: Json::Null })), Action::CheckServer));
    assert!(matches!(run.step(Event::ServerStatus(false)), Action::Send(_)));
    assert!(matches!(run.step(Event::Failed("refused".to_string())), Action::CheckServer));
    assert!(matches!(run.step(Event::ServerStatus(false)), Action::CheckServer));
    assert!(matches!(run.step(Event::ServerStatus(false)), Action::RunDb(_)));
    assert!(matches!(run.step(Event::DbFailures(vec![])), Action::CheckServer));
    match run.step(Event::ServerStatus(false)) {
        Action::Finish(r) => {
            assert_eq!(r.total, 3);
            assert_eq!(r.passed, 1);
            assert_eq!(r.failed, 2);
            assert!(!r.server_crashed);
            assert!(r.setup_error.is_none());
            assert_eq!(r.results[0].failures, vec!["status: expected 200 got 500".to_string()]);
            assert!(r.results[1].error);
            assert_eq!(r.results[1].message, "Request failed: refused");
            assert!(r.results[2].passed);
        }
        _ => panic!("expected the end of the run"),
    }
}

#[test]
fn setup_status_mismatch_aborts() {
    let setup = vec![SetupStep {
        id: "seed".to_string(),
        request: request("GET", "/seed", None),
        expect_status: Some(201),
        capture: vec![],
    }];
    let tests = vec![test("a", None, None, None), test("b", None, None, None)];
    let mut run = TestRun::new(TestFile { setup, tests }, "http://h".to_string());
    assert!(matches!(run.step(Event::Begin), Action::Send(_)));
    assert!(matches!(run.step(Event::Reply(Response { status: 500, body: Json::Null })), Action::CheckServer));
    match run.step(Event::ServerStatus(true)) {
        Action::Finish(r) => {
            assert_eq!(r.setup_error, Some("Setup step 'seed': expected status 201 got 500".to_string()));
            assert_eq!(r.total, 2);
            assert_eq!(r.passed, 0);
            assert_eq!(r.failed, 0);
            assert!(r.server_crashed);
            assert!(r.results.is_empty());
        }
        _ => panic!("expected the end of the run"),
    }
}

#[test]
fn crashed_server_marks_tests_as_errors() {
    let tests = vec![test("a", Some(request("GET", "/", None)), None, None)];
    let mut run = TestRun::new(TestFile { setup: vec![], tests }, "http://h".to_string());
    assert!(matches!(run.step(Event::Begin), Action::CheckServer));
    assert!(matches!(run.step(Event::ServerStatus(true)), Action::CheckServer));
    match run.step(Event::ServerStatus(false)) {
        Action::Finish(r) => {
            assert!(r.server_crashed);
            assert_eq!(r.results[0].message, "Server crashed during test run. Check your code for errors.");
            assert!(r.results[0].error);
            assert_eq!(r.failed, 1);
        }
        _ => panic!("expected the end of the run"),
    }
}

#[test]
fn text_without_placeholders_is_unchanged() {
    let mut vars = Vars::new();
    vars.set("x".to_string(), j("1"));
    assert_eq!(interpolate("/plain/path?q={x}", &vars), "/plain/path?q={x}");
}
