use praxis::course::{
    accept_course, chapter_content_path, chapter_tests_path, course_id_of, course_json_missing_message,
    default_chapter_type, find_chapter, version_ok, Chapter, Course, CourseRuntime,
};
use praxis::environment::{
    command_result, dependency_base, detect_python, detect_venv, new_venv_path, parse_version, pick_version_output,
    python_candidates, trim, unchecked_dependencies, venv_binaries, venv_candidates, version_meets_min,
};
use praxis::error::PraxisError;
use praxis::http::{manual_request, request_body};
use praxis::json::{Json, JsonNumber, NumKind};
use praxis::server::{
    get_request, health_ok, health_timeout, health_url, next_port, output_line, port_step, response_status,
    search_path_with, server_command, url_parts, wait_step, PortStep, ServerState, ServerStatus, WaitStep,
};
use praxis::text::{i64_text, parse_unsigned_text, split_at_char, u64_text};

#[test]
fn python_versions_parse_and_compare() {
    assert_eq!(parse_version("Python 3.11.4"), (3, 11, 4));
    assert_eq!(parse_version("python 3.9"), (3, 9, 0));
    assert_eq!(parse_version("3.12.1rc1"), (3, 12, 0));
    assert!(version_meets_min("Python 3.11.4", "3.10"));
    assert!(!version_meets_min("Python 3.8.10", "3.10"));
    assert!(version_meets_min("3.10.0", "3.10.0"));
}

#[test]
fn python_detection_takes_the_first_that_names_python() {
    assert_eq!(python_candidates(), vec!["python3".to_string(), "python".to_string()]);
    let info = detect_python("3.10", &vec![None, Some("Python 3.12.0".to_string())]);
    assert!(info.found);
    assert_eq!(info.binary, "python");
    assert_eq!(info.version, "Python 3.12.0");
    assert!(info.meets_min);
    let info = detect_python("3.10", &vec![Some("pyenv: no such command".to_string()), Some("Python 3.8.1".to_string())]);
    assert_eq!(info.binary, "python");
    assert!(!info.meets_min);
    let upper = detect_python("3.10", &vec![Some("PYTHON 3.11.2".to_string())]);
    assert_eq!(upper.binary, "python3");
    assert!(upper.meets_min);
    let none = detect_python("3.10", &vec![None, Some("something else".to_string())]);
    assert!(!none.found);
    assert_eq!(none.binary, "");
}

#[test]
fn version_output_prefers_stdout() {
    assert_eq!(pick_version_output("  Python 3.12.0\n", "x"), Some("Python 3.12.0".to_string()));
    assert_eq!(pick_version_output(" \n", "Python 2.7\n"), Some("Python 2.7".to_string()));
    assert_eq!(pick_version_output("", "  "), None);
    assert_eq!(trim("\t a b \n"), "a b");
}

#[test]
fn venv_detection_in_order() {
    assert_eq!(venv_candidates("/p"), vec!["/p/venv".to_string(), "/p/.venv".to_string(), "/p/env".to_string()]);
    assert_eq!(venv_binaries("/p/venv"), ("/p/venv/bin/python".to_string(), "/p/venv/bin/pip".to_string()));
    let v = detect_venv("/p", &vec![false, true, true]);
    assert!(v.found);
    assert_eq!(v.path, "/p/.venv");
    assert_eq!(v.python_bin, "/p/.venv/bin/python");
    assert_eq!(v.pip_bin, "/p/.venv/bin/pip");
    assert!(!detect_venv("/p", &vec![false, false, false]).found);
    assert_eq!(new_venv_path("/p"), "/p/venv");
}

#[test]
fn dependency_helpers() {
    assert_eq!(dependency_base("passlib[bcrypt]"), "passlib");
    assert_eq!(dependency_base(" fastapi "), "fastapi");
    assert_eq!(command_result(true, "ok".to_string(), "out".to_string(), "err".to_string()), Ok("ok".to_string()));
    assert_eq!(command_result(false, "ok".to_string(), "out".to_string(), "err".to_string()), Err("err".to_string()));
    assert_eq!(command_result(false, "ok".to_string(), "out".to_string(), String::new()), Err("out".to_string()));
    let d = unchecked_dependencies(&vec!["a".to_string(), "b".to_string()]);
    assert_eq!(d.len(), 2);
    assert_eq!(d[1].name, "b");
    assert!(!d[0].installed);
}

#[test]
fn server_state_output_is_capped() {
    let mut s: ServerState<u32> = ServerState::new();
    assert_eq!(s.status, ServerStatus::Stopped);
    s.begin(7, 8000);
    assert_eq!(s.status, ServerStatus::Starting);
    for i in 0..600 {
        s.append_line(format!("[out] line {}", i));
    }
    assert_eq!(s.output.len(), 500);
    assert_eq!(s.output.front().unwrap(), "[out] line 100");
    assert_eq!(s.output.back().unwrap(), "[out] line 599");
    s.on_output_closed();
    assert!(s.is_crashed());
    assert_eq!(s.stop(), Some(7));
    assert_eq!(s.status, ServerStatus::Stopped);
    assert_eq!(s.port, 0);
    s.on_output_closed();
    assert_eq!(s.status, ServerStatus::Stopped);
    assert_eq!(ServerStatus::Running.name(), "running");
}

#[test]
fn server_command_substitutes_the_port() {
    let (bin, args) = server_command("uvicorn main:app --port {port}", 8123).ok().unwrap();
    assert_eq!(bin, "uvicorn");
    assert_eq!(args, vec!["main:app".to_string(), "--port".to_string(), "8123".to_string()]);
    match server_command("   ", 1) {
        Err(PraxisError::Other(m)) => assert_eq!(m, "Empty server command"),
        _ => panic!("expected an error"),
    }
}

#[test]
fn health_probe_pieces() {
    let url = health_url(8000, "/health");
    assert_eq!(url, "http://127.0.0.1:8000/health");
    assert_eq!(url_parts(&url), Ok(("127.0.0.1:8000".to_string(), "/health".to_string())));
    assert_eq!(url_parts("http://h:1"), Ok(("h:1".to_string(), "/".to_string())));
    assert_eq!(url_parts("https://h"), Err("bad url".to_string()));
    assert_eq!(
        get_request("/health", "127.0.0.1:8000"),
        "GET /health HTTP/1.0\r\nHost: 127.0.0.1:8000\r\nConnection: close\r\n\r\n"
    );
    assert_eq!(response_status("HTTP/1.1 200 OK\r\nx: y\r\n\r\n"), Ok(200));
    assert_eq!(response_status("HTTP/1.1 404 Not Found"), Ok(404));
    assert_eq!(response_status("garbage"), Err("Could not parse status".to_string()));
    assert_eq!(response_status(""), Err("Could not parse status".to_string()));
    assert!(health_ok(&Ok(200)));
    assert!(!health_ok(&Ok(500)));
    assert!(!health_ok(&Err("x".to_string())));
}

#[test]
fn waiting_and_port_search() {
    assert!(health_timeout(100, 15000).is_none());
    match health_timeout(15000, 15000) {
        Some(e) => assert_eq!(e.message(), "Server did not become healthy within 15000ms"),
        None => panic!("expected a timeout"),
    }
    assert_eq!(next_port(8000, 8000).ok(), Some(8001));
    assert!(next_port(8000, 8100).is_err());
    assert_eq!(PraxisError::PortInUse(8000).message(), "Port 8000 is already in use");
    assert_eq!(PraxisError::ServerCrashed.message(), "Server crashed");
}

fn course(version_min: &str, format: Option<&str>) -> Course {
    Course {
        id: "fastapi".to_string(),
        title: "FastAPI".to_string(),
        description: String::new(),
        version: "1.0.0".to_string(),
        app_version_min: version_min.to_string(),
        author: "me".to_string(),
        format_version: format.map(|s| s.to_string()),
        runtime: CourseRuntime {
            name: "python".to_string(),
            version_min: "3.10".to_string(),
            dependencies: vec![],
            server_command: "uvicorn main:app --port {port}".to_string(),
            health_endpoint: "/health".to_string(),
            default_port: 8000,
            clean_before_run: vec![],
        },
        chapters: vec![
            Chapter {
                id: "01".to_string(),
                title: "Health".to_string(),
                chapter_type: default_chapter_type(),
                content_file: "chapters/01.md".to_string(),
                test_file: Some("tests/01.json".to_string()),
                depends_on: None,
            },
            Chapter {
                id: "02".to_string(),
                title: "Read".to_string(),
                chapter_type: "reading".to_string(),
                content_file: "chapters/02.md".to_string(),
                test_file: None,
                depends_on: Some("01".to_string()),
            },
        ],
        base_path: String::new(),
    }
}

#[test]
fn course_versions_are_checked_on_load() {
    assert!(version_ok("0.2.0", "0.1.9"));
    assert!(!version_ok("0.1.0", "0.2"));
    let c = accept_course(course("0.1.0", Some("2.0")), "0.1.0", "/c").ok().unwrap();
    assert_eq!(c.base_path, "/c");
    match accept_course(course("9.0.0", None), "0.1.0", "/c") {
        Err(e) => assert_eq!(e.message(), "Course requires app version >= 9.0.0 but this is 0.1.0"),
        Ok(_) => panic!("expected a version mismatch"),
    }
    match accept_course(course("0.0.1", Some("3.1")), "0.1.0", "/c") {
        Err(e) => assert_eq!(
            e.message(),
            "Course requires format version 3.1 but this app only supports up to 2.x. Please update Praxis."
        ),
        Ok(_) => panic!("expected a format error"),
    }
    assert!(accept_course(course("0.0.1", Some("x")), "0.1.0", "/c").is_ok());
}

#[test]
fn chapters_are_found_by_id() {
    let mut c = course("0.1.0", None);
    c.base_path = "/c".to_string();
    assert_eq!(default_chapter_type(), "lesson");
    assert_eq!(find_chapter(&c, "02").ok().unwrap().title, "Read");
    assert_eq!(chapter_content_path(&c, "01").ok(), Some("/c/chapters/01.md".to_string()));
    assert_eq!(chapter_tests_path(&c, "01").ok(), Some("/c/tests/01.json".to_string()));
    match chapter_tests_path(&c, "02") {
        Err(e) => assert_eq!(e.message(), "Chapter '02' has no test file"),
        Ok(_) => panic!("expected an error"),
    }
    match chapter_content_path(&c, "09") {
        Err(e) => assert_eq!(e.message(), "Chapter '09' not found"),
        Ok(_) => panic!("expected an error"),
    }
}

#[test]
fn course_id_comes_from_the_manifest() {
    let m = Json::Object(vec![("id".to_string(), Json::Str("c1".to_string()))]);
    assert_eq!(course_id_of(&m).ok(), Some("c1".to_string()));
    let n = Json::Object(vec![("id".to_string(), Json::Number(JsonNumber { kind: NumKind::PosInt(1), f64_bits: 1f64.to_bits(), f64_text: "1".to_string() }))]);
    match course_id_of(&n) {
        Err(e) => assert_eq!(e.message(), "course.json missing 'id' field"),
        Ok(_) => panic!("expected an error"),
    }
}

#[test]
fn manual_request_body_skips_blank_text() {
    assert_eq!(request_body(Some("{\"a\":1}".to_string())), Some("{\"a\":1}".to_string()));
    assert_eq!(request_body(Some(" \n\t".to_string())), None);
    assert_eq!(request_body(None), None);
}

#[test]
fn text_helpers() {
    assert_eq!(split_at_char("a.b..c", '.'), vec!["a", "b", "", "c"]);
    assert_eq!(parse_unsigned_text("+42", 100), Some(42));
    assert_eq!(parse_unsigned_text("101", 100), None);
    assert_eq!(parse_unsigned_text("4x", 100), None);
    assert_eq!(u64_text(0), "0");
    assert_eq!(i64_text(-305), "-305");
}

#[test]
fn version_order_is_a_total_preorder() {
    assert!(version_ok("1.2.3", "1.2.3"));
    assert!(version_ok("1.10", "1.9") && version_ok("1.9", "1.2.5") && version_ok("1.10", "1.2.5"));
    assert!(version_ok("1.0", "2.0") || version_ok("2.0", "1.0"));
    assert!(version_ok("1.0", "1.0.0") && version_ok("1.0.0", "1.0"));
}

#[test]
fn outside_errors_show_their_own_text() {
    let e = PraxisError::Io(std::io::Error::new(std::io::ErrorKind::NotFound, "no such file"));
    assert_eq!(e.message(), "no such file");
    let j = PraxisError::Json(serde_json::from_str::<serde_json::Value>("{").unwrap_err());
    assert_eq!(j.message(), serde_json::from_str::<serde_json::Value>("{").unwrap_err().to_string());
    assert_eq!(PraxisError::NotFound("x".to_string()).message(), "x");
    assert_eq!(
        PraxisError::VersionMismatch { required: "2.0".to_string(), actual: "1.0".to_string() }.message(),
        "Course requires app version >= 2.0 but this is 1.0"
    );
}

#[test]
fn waiting_steps_in_order() {
    assert!(matches!(wait_step(true, None, 0, 100), WaitStep::Fail(PraxisError::ServerCrashed)));
    assert!(matches!(wait_step(false, None, 0, 100), WaitStep::Probe));
    assert!(matches!(wait_step(false, Some(true), 500, 100), WaitStep::Healthy));
    assert!(matches!(wait_step(false, Some(false), 50, 100), WaitStep::Sleep));
    match wait_step(false, Some(false), 100, 100) {
        WaitStep::Fail(e) => assert_eq!(e.message(), "Server did not become healthy within 100ms"),
        _ => panic!("expected a timeout"),
    }
}

#[test]
fn port_search_steps() {
    assert!(matches!(port_step(8000, 8005, true), Ok(PortStep::Use(8005))));
    assert!(matches!(port_step(8000, 8005, false), Ok(PortStep::Try(8006))));
    assert!(port_step(8000, 8100, false).is_err());
    assert!(port_step(65535, 65535, false).is_err());
}

#[test]
fn process_texts() {
    assert_eq!(output_line(false, "ready"), "[out] ready");
    assert_eq!(output_line(true, "oops"), "[err] oops");
    assert_eq!(search_path_with("/p/venv/bin", "/usr/bin"), "/p/venv/bin:/usr/bin");
    assert_eq!(course_json_missing_message("/c"), "No course.json found in /c");
}

#[test]
fn manual_request_method_and_body() {
    let (m, b) = manual_request("PATCH", Some("{}".to_string())).ok().unwrap();
    assert_eq!(m.as_str(), "PATCH");
    assert_eq!(b, Some("{}".to_string()));
    let (m, b) = manual_request("PURGE", Some("  ".to_string())).ok().unwrap();
    assert_eq!(m.as_str(), "PURGE");
    assert_eq!(b, None);
    assert_eq!(manual_request("", None).err(), Some("invalid HTTP method".to_string()));
    assert_eq!(manual_request("BAD METHOD", None).err(), Some("invalid HTTP method".to_string()));
}
