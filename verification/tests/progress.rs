use praxis::json::{to_text, Json, JsonNumber, NumKind};
use praxis::progress::{
    course_not_found_message, course_progress, courses_dir, delete_saved_request, installed_course_path,
    installed_courses, progress_file, remove_course, reset_course_progress, save_folder, save_progress_at,
    save_request, saved_folder, saved_requests,
};
use praxis::json::text_before;
use serde_json::Value;

fn json(v: &Value) -> Json {
    match v {
        Value::Null => Json::Null,
        Value::Bool(b) => Json::Bool(*b),
        Value::Number(n) => {
            let f = n.as_f64().unwrap();
            let kind = if let Some(u) = n.as_u64() {
                NumKind::PosInt(u)
            } else if let Some(i) = n.as_i64() {
                NumKind::NegInt(i)
            } else {
                NumKind::Float(n.to_string())
            };
            Json::Number(JsonNumber { kind, f64_bits: f.to_bits(), f64_text: format!("{}", f) })
        }
        Value::String(s) => Json::Str(s.clone()),
        Value::Array(xs) => Json::Array(xs.iter().map(json).collect()),
        Value::Object(m) => Json::Object(m.iter().map(|(k, v)| (k.clone(), json(v))).collect()),
    }
}

fn j(text: &str) -> Json {
    json(&serde_json::from_str::<Value>(text).unwrap())
}

fn text(v: &Json) -> String {
    to_text(v)
}

#[test]
fn folder_saved_is_read_back() {
    let p = j("{}");
    assert_eq!(saved_folder(&p, "c1"), None);
    let p = save_folder(&p, "c1", "/home/me/proj".to_string());
    assert_eq!(saved_folder(&p, "c1"), Some("/home/me/proj".to_string()));
    assert_eq!(text(&p), r#"{"courses":{"c1":{"project_folder":"/home/me/proj"}}}"#);
    let p = save_folder(&p, "a0", "/x".to_string());
    assert_eq!(text(&p), r#"{"courses":{"a0":{"project_folder":"/x"},"c1":{"project_folder":"/home/me/proj"}}}"#);
    assert_eq!(saved_folder(&p, "c1"), Some("/home/me/proj".to_string()));
}

#[test]
fn null_file_becomes_an_object() {
    let p = save_folder(&Json::Null, "c", "/f".to_string());
    assert_eq!(text(&p), r#"{"courses":{"c":{"project_folder":"/f"}}}"#);
}

#[test]
fn progress_saved_is_read_back() {
    let p = j(r#"{"courses": {"c": {"project_folder": "/f"}}}"#);
    assert_eq!(text(&course_progress(&p, "c")), "{}");
    let p = save_progress_at(&p, "c", j(r#"{"ch1": {"status": "complete"}}"#), "Course", "1.0", 5, "2024-01-01T00:00:00+00:00");
    assert_eq!(text(&course_progress(&p, "c")), r#"{"ch1":{"status":"complete"}}"#);
    assert_eq!(
        text(&p),
        r#"{"courses":{"c":{"chapters":{"ch1":{"status":"complete"}},"chapters_total":5,"installed_at":"2024-01-01T00:00:00+00:00","project_folder":"/f","title":"Course","version":"1.0"}}}"#
    );
    let p = save_progress_at(&p, "c", j("{}"), "", "", 0, "2030-01-01T00:00:00+00:00");
    assert_eq!(
        text(&p),
        r#"{"courses":{"c":{"chapters":{},"chapters_total":5,"installed_at":"2024-01-01T00:00:00+00:00","project_folder":"/f","title":"Course","version":""}}}"#
    );
}

#[test]
fn reset_and_remove() {
    let p = j(r#"{"courses": {"a": {"chapters": {"x": 1}, "project_folder": "/a"}, "b": {"title": "B"}}}"#);
    let r = reset_course_progress(&p, "a");
    assert_eq!(text(&course_progress(&r, "a")), "{}");
    assert_eq!(saved_folder(&r, "a"), Some("/a".to_string()));
    let r = remove_course(&r, "a");
    assert_eq!(text(&r), r#"{"courses":{"b":{"title":"B"}}}"#);
    let same = remove_course(&j("[1]"), "a");
    assert_eq!(text(&same), "[1]");
}

#[test]
fn saved_requests_replace_by_id_and_delete() {
    let p = j("{}");
    assert_eq!(text(&saved_requests(&p)), "[]");
    let p = save_request(&p, j(r#"{"id": "r1", "url": "/a"}"#));
    let p = save_request(&p, j(r#"{"id": "r2", "url": "/b"}"#));
    let p = save_request(&p, j(r#"{"id": "r1", "url": "/c"}"#));
    assert_eq!(text(&saved_requests(&p)), r#"[{"id":"r1","url":"/c"},{"id":"r2","url":"/b"}]"#);
    let p = delete_saved_request(&p, "r1");
    assert_eq!(text(&saved_requests(&p)), r#"[{"id":"r2","url":"/b"}]"#);
}

#[test]
fn installed_courses_newest_first() {
    let p = j(r#"{"courses": {
        "old": {"title": "Old", "installed_at": "2023-01-01", "chapters": {"a": {"status": "complete"}, "b": {}}},
        "new": {"installed_at": "2024-06-01", "chapters_total": 9, "project_folder": "/n"},
        "tie1": {"installed_at": "2023-01-01"}
    }}"#);
    let list = installed_courses(&p);
    let ids: Vec<&str> = list.iter().map(|c| c.id.as_str()).collect();
    assert_eq!(ids, vec!["new", "old", "tie1"]);
    assert_eq!(list[0].title, "new");
    assert_eq!(list[0].chapters_total, 9);
    assert_eq!(list[0].project_folder, Some("/n".to_string()));
    assert_eq!(list[1].title, "Old");
    assert_eq!(list[1].chapters_total, 2);
    assert_eq!(list[1].chapters_complete, 1);
    assert_eq!(list[2].version, "");
    assert!(installed_courses(&j("{}")).is_empty());
}

#[test]
fn text_order_is_by_code_point() {
    assert!(text_before("a", "b"));
    assert!(text_before("ab", "abc"));
    assert!(!text_before("b", "a"));
    assert!(!text_before("a", "a"));
    assert!(text_before("Z", "a"));
}

#[test]
fn data_files() {
    assert_eq!(progress_file("/data"), "/data/progress.json");
    assert_eq!(courses_dir("/data/"), "/data/courses");
    assert_eq!(installed_course_path("/data", "c1"), "/data/courses/c1");
    assert_eq!(course_not_found_message("c1", "/data/courses/c1"), "Course 'c1' not found at /data/courses/c1");
}

#[test]
fn save_progress_stamps_the_install_time_once() {
    let p = praxis::progress::save_progress(&j("{}"), "c", j(r#"{"a": {"status": "complete"}}"#), None);
    let first = to_text(&p);
    assert!(first.starts_with(r#"{"courses":{"c":{"chapters":{"a":{"status":"complete"}},"installed_at":""#));
    assert!(first.ends_with(r#"","version":""}}}"#));
    let stamp = match &p {
        Json::Object(es) => match &es[0].1 {
            Json::Object(cs) => match &cs[0].1 {
                Json::Object(fs) => match &fs[1].1 {
                    Json::Str(s) => s.clone(),
                    _ => panic!("install time must be text"),
                },
                _ => panic!("course record must be an object"),
            },
            _ => panic!("courses must be an object"),
        },
        _ => panic!("progress must be an object"),
    };
    assert!(stamp.contains('T'));
    let again = praxis::progress::save_progress(&p, "c", j("{}"), None);
    assert!(to_text(&again).contains(&format!(r#""installed_at":"{}""#, stamp)));
}
