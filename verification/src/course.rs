//! Course manifests (`course.json`): their schema, the version checks made
//! when a course is loaded, and finding a chapter's files.

use vstd::prelude::*;
use crate::json::{Json, JsonV, field_or_null};
use crate::error::PraxisError;
use crate::path::{joined, join_path};
use crate::text::{split_char, split_at_char, parse_unsigned, parse_unsigned_text, lemma_split_nonempty, str_equal};

verus! {

/// How a course's server is run.
pub struct CourseRuntime {
    pub name: String,
    pub version_min: String,
    pub dependencies: Vec<String>,
    pub server_command: String,
    pub health_endpoint: String,
    pub default_port: u16,
    pub clean_before_run: Vec<String>,
}

/// One chapter of a course.
pub struct Chapter {
    pub id: String,
    pub title: String,
    pub chapter_type: String,
    pub content_file: String,
    pub test_file: Option<String>,
    pub depends_on: Option<String>,
}

/// A course as described by its `course.json`, with the folder it was
/// loaded from.
pub struct Course {
    pub id: String,
    pub title: String,
    pub description: String,
    pub version: String,
    pub app_version_min: String,
    pub author: String,
    pub format_version: Option<String>,
    pub runtime: CourseRuntime,
    pub chapters: Vec<Chapter>,
    pub base_path: String,
}

/// The chapter type of a chapter whose manifest gives none.
pub fn default_chapter_type() -> (r: String)
    ensures
        r@ == "lesson"@,
{
    String::from_str("lesson")
}

// ── Versions ────────────────────────────────────────────────────────────────

/// The numbers among the pieces that read as `u32` values, in order (the
/// others are skipped).
pub open spec fn numeric_parts(pieces: Seq<Seq<char>>) -> Seq<nat>
    decreases pieces.len(),
{
    if pieces.len() == 0 {
        Seq::empty()
    } else {
        let prev = numeric_parts(pieces.drop_last());
        match parse_unsigned(pieces.last(), u32::MAX as nat) {
            Some(v) => prev.push(v),
            None => prev,
        }
    }
}

/// The `i`-th number, or 0 past the end.
pub open spec fn part_or_zero(ps: Seq<nat>, i: int) -> nat {
    if 0 <= i < ps.len() {
        ps[i]
    } else {
        0
    }
}

/// Major, minor and patch numbers of a version text such as `1.2.3`: the
/// first three dot-separated pieces that are numbers, missing ones 0.
pub open spec fn version_triple(v: Seq<char>) -> (nat, nat, nat) {
    let ps = numeric_parts(split_char(v, '.'));
    (part_or_zero(ps, 0), part_or_zero(ps, 1), part_or_zero(ps, 2))
}

/// Whether triple `a` is at least triple `b`, comparing major, then minor,
/// then patch.
pub open spec fn triple_at_least(a: (nat, nat, nat), b: (nat, nat, nat)) -> bool {
    a.0 > b.0 || (a.0 == b.0 && (a.1 > b.1 || (a.1 == b.1 && a.2 >= b.2)))
}

/// Whether an app of version `app_ver` meets the minimum version `required_min`.
pub open spec fn version_ok_spec(app_ver: Seq<char>, required_min: Seq<char>) -> bool {
    triple_at_least(version_triple(app_ver), version_triple(required_min))
}

/// Every version meets itself as a minimum.
pub proof fn law_version_ok_reflexive(v: Seq<char>)
    ensures
        version_ok_spec(v, v),
{
}

/// Meeting a minimum is transitive.
pub proof fn law_version_ok_transitive(a: Seq<char>, b: Seq<char>, c: Seq<char>)
    requires
        version_ok_spec(a, b),
        version_ok_spec(b, c),
    ensures
        version_ok_spec(a, c),
{
}

/// Of two versions, one always meets the other.
pub proof fn law_version_ok_total(a: Seq<char>, b: Seq<char>)
    ensures
        version_ok_spec(a, b) || version_ok_spec(b, a),
{
}

/// Versions compare by major number first, then minor, then patch: a
/// larger major always meets the minimum and a smaller one never does; with
/// equal majors the minor number decides the same way; with equal major and
/// minor numbers the minimum is met exactly when the patch number is at
/// least the required one.
pub proof fn law_version_order(a: Seq<char>, b: Seq<char>)
    ensures
        version_triple(a).0 > version_triple(b).0 ==> version_ok_spec(a, b),
        version_triple(a).0 < version_triple(b).0 ==> !version_ok_spec(a, b),
        version_triple(a).0 == version_triple(b).0 && version_triple(a).1 > version_triple(b).1 ==> version_ok_spec(a, b),
        version_triple(a).0 == version_triple(b).0 && version_triple(a).1 < version_triple(b).1 ==> !version_ok_spec(a, b),
        version_triple(a).0 == version_triple(b).0 && version_triple(a).1 == version_triple(b).1 ==> (version_ok_spec(a, b)
            <==> version_triple(a).2 >= version_triple(b).2),
{
}

/// The numbers of a version text (see `version_triple`).
pub fn version_parts(v: &str) -> (r: (u32, u32, u32))
    ensures
        (r.0 as nat, r.1 as nat, r.2 as nat) == version_triple(v@),
{
    let pieces = split_at_char(v, '.');
    let ghost pv = pieces.deep_view();
    let mut parts: Vec<u32> = Vec::new();
    let mut i: usize = 0;
    while i < pieces.len()
        invariant
            pv == pieces.deep_view(),
            pv == split_char(v@, '.'),
            i <= pieces.len(),
            parts@.len() == numeric_parts(pv.take(i as int)).len(),
            forall|k: int| 0 <= k < parts@.len() ==> parts@[k] as nat == #[trigger] numeric_parts(pv.take(i as int))[k],
        decreases pieces.len() - i,
    {
        proof {
            assert(pv.take(i + 1).drop_last() =~= pv.take(i as int));
            assert(pv.take(i + 1).last() == pieces@[i as int]@);
        }
        match parse_unsigned_text(pieces[i].as_str(), u32::MAX as u64) {
            Some(n) => {
                parts.push(n as u32);
            },
            None => {},
        }
        i = i + 1;
    }
    assert(pv.take(i as int) =~= pv);
    let a: u32 = if parts.len() > 0 { parts[0] } else { 0 };
    let b: u32 = if parts.len() > 1 { parts[1] } else { 0 };
    let c: u32 = if parts.len() > 2 { parts[2] } else { 0 };
    (a, b, c)
}

/// Whether triple `a` is at least triple `b`.
pub fn at_least(a: (u32, u32, u32), b: (u32, u32, u32)) -> (r: bool)
    ensures
        r == triple_at_least((a.0 as nat, a.1 as nat, a.2 as nat), (b.0 as nat, b.1 as nat, b.2 as nat)),
{
    a.0 > b.0 || (a.0 == b.0 && (a.1 > b.1 || (a.1 == b.1 && a.2 >= b.2)))
}

/// Whether an app of version `app_ver` meets the minimum `required_min`.
pub fn version_ok(app_ver: &str, required_min: &str) -> (r: bool)
    ensures
        r == version_ok_spec(app_ver@, required_min@),
{
    at_least(version_parts(app_ver), version_parts(required_min))
}

// ── Loading ─────────────────────────────────────────────────────────────────

/// The newest major format version this app reads.
pub open spec fn supported_format_major() -> nat {
    2
}

/// The major number of a format version: its first dot-separated piece as
/// a number, or 1 when that piece is not one.
pub open spec fn format_major(fv: Seq<char>) -> nat {
    match parse_unsigned(split_char(fv, '.')[0], u32::MAX as nat) {
        Some(m) => m,
        None => 1,
    }
}

pub open spec fn format_too_new_message(fv: Seq<char>) -> Seq<char> {
    "Course requires format version "@ + fv + " but this app only supports up to 2.x. Please update Praxis."@
}

/// The message for a folder without a `course.json`.
pub fn course_json_missing_message(folder: &str) -> (r: String)
    ensures
        r@ == "No course.json found in "@ + folder@,
{
    let mut m = String::from_str("No course.json found in ");
    m.append(folder);
    m
}

/// Checks a course parsed from the `course.json` of `base_path` against the
/// running app's version and records the folder it came from.
pub fn accept_course(course: Course, app_version: &str, base_path: &str) -> (r: Result<Course, PraxisError>)
    ensures
        !version_ok_spec(app_version@, course.app_version_min@) ==> (r matches Err(PraxisError::VersionMismatch { required, actual })
            && required == course.app_version_min && actual@ == app_version@),
        version_ok_spec(app_version@, course.app_version_min@) ==> match course.format_version {
            Some(fv) if format_major(fv@) > supported_format_major() => r matches Err(PraxisError::Other(m))
                && m@ == format_too_new_message(fv@),
            _ => r matches Ok(c) && c == (Course { base_path: c.base_path, ..course }) && c.base_path@ == base_path@,
        },
{
    if !version_ok(app_version, course.app_version_min.as_str()) {
        return Err(PraxisError::VersionMismatch { required: course.app_version_min, actual: String::from_str(app_version) });
    }
    let mut course = course;
    match &course.format_version {
        Some(fv) => {
            let pieces = split_at_char(fv.as_str(), '.');
            proof {
                lemma_split_nonempty(fv@, '.');
            }
            let major: u64 = match parse_unsigned_text(pieces[0].as_str(), u32::MAX as u64) {
                Some(m) => m,
                None => 1,
            };
            if major > 2 {
                let mut m = String::from_str("Course requires format version ");
                m.append(fv.as_str());
                m.append(" but this app only supports up to 2.x. Please update Praxis.");
                return Err(PraxisError::Other(m));
            }
        },
        None => {},
    }
    course.base_path = String::from_str(base_path);
    Ok(course)
}

/// The `id` of a course manifest when it is a string.
pub open spec fn manifest_id(manifest: JsonV) -> Option<Seq<char>> {
    match field_or_null(manifest, "id"@) {
        JsonV::Str(s) => Some(s),
        _ => None,
    }
}

/// The course id of a manifest, or the error for a manifest without one.
pub fn course_id_of(manifest: &Json) -> (r: Result<String, PraxisError>)
    ensures
        match manifest_id(manifest@) {
            Some(id) => r matches Ok(s) && s@ == id,
            None => r matches Err(PraxisError::NotFound(m)) && m@ == "course.json missing 'id' field"@,
        },
{
    match manifest.field("id") {
        Some(Json::Str(s)) => Ok(s.clone()),
        _ => Err(PraxisError::NotFound(String::from_str("course.json missing 'id' field"))),
    }
}

// ── Chapters ────────────────────────────────────────────────────────────────

pub open spec fn chapter_missing_message(id: Seq<char>) -> Seq<char> {
    "Chapter '"@ + id + "' not found"@
}

/// Finds the first chapter with this id.
pub fn find_chapter<'a>(course: &'a Course, chapter_id: &str) -> (r: Result<&'a Chapter, PraxisError>)
    ensures
        match r {
            Ok(c) => exists|i: int| 0 <= i < course.chapters@.len() && course.chapters@[i] == *c
                && c.id@ == chapter_id@ && forall|k: int| 0 <= k < i ==> (#[trigger] course.chapters@[k]).id@ != chapter_id@,
            Err(e) => {
                &&& forall|i: int| 0 <= i < course.chapters@.len() ==> (#[trigger] course.chapters@[i]).id@ != chapter_id@
                &&& e matches PraxisError::NotFound(m) && m@ == chapter_missing_message(chapter_id@)
            },
        },
{
    let mut i: usize = 0;
    while i < course.chapters.len()
        invariant
            i <= course.chapters.len(),
            forall|k: int| 0 <= k < i ==> (#[trigger] course.chapters@[k]).id@ != chapter_id@,
        decreases course.chapters.len() - i,
    {
        if str_equal(course.chapters[i].id.as_str(), chapter_id) {
            return Ok(&course.chapters[i]);
        }
        i = i + 1;
    }
    let mut m = String::from_str("Chapter '");
    m.append(chapter_id);
    m.append("' not found");
    Err(PraxisError::NotFound(m))
}

/// The path of a chapter's content file, inside the course folder.
pub fn chapter_content_path(course: &Course, chapter_id: &str) -> (r: Result<String, PraxisError>)
    ensures
        match r {
            Ok(p) => exists|i: int| 0 <= i < course.chapters@.len() && course.chapters@[i].id@ == chapter_id@
                && (forall|k: int| 0 <= k < i ==> (#[trigger] course.chapters@[k]).id@ != chapter_id@)
                && p@ == joined(course.base_path@, course.chapters@[i].content_file@),
            Err(e) => {
                &&& forall|i: int| 0 <= i < course.chapters@.len() ==> (#[trigger] course.chapters@[i]).id@ != chapter_id@
                &&& e matches PraxisError::NotFound(m) && m@ == chapter_missing_message(chapter_id@)
            },
        },
{
    let chapter = find_chapter(course, chapter_id)?;
    Ok(join_path(course.base_path.as_str(), chapter.content_file.as_str()))
}

/// The path of a chapter's test file, inside the course folder.
pub fn chapter_tests_path(course: &Course, chapter_id: &str) -> (r: Result<String, PraxisError>)
    ensures
        match r {
            Ok(p) => exists|i: int| {
                &&& 0 <= i < course.chapters@.len() && course.chapters@[i].id@ == chapter_id@
                &&& forall|k: int| 0 <= k < i ==> (#[trigger] course.chapters@[k]).id@ != chapter_id@
                &&& course.chapters@[i].test_file matches Some(tf) && p@ == joined(course.base_path@, tf@)
            },
            Err(e) => e matches PraxisError::NotFound(m) && {
                ||| (forall|i: int| 0 <= i < course.chapters@.len() ==> (#[trigger] course.chapters@[i]).id@ != chapter_id@)
                    && m@ == chapter_missing_message(chapter_id@)
                ||| exists|i: int| 0 <= i < course.chapters@.len() && course.chapters@[i].id@ == chapter_id@
                    && (forall|k: int| 0 <= k < i ==> (#[trigger] course.chapters@[k]).id@ != chapter_id@)
                    && course.chapters@[i].test_file is None
                    && m@ == "Chapter '"@ + chapter_id@ + "' has no test file"@
            },
        },
{
    let chapter = find_chapter(course, chapter_id)?;
    match &chapter.test_file {
        Some(tf) => Ok(join_path(course.base_path.as_str(), tf.as_str())),
        None => {
            let mut m = String::from_str("Chapter '");
            m.append(chapter_id);
            m.append("' has no test file");
            Err(PraxisError::NotFound(m))
        },
    }
}

} // verus!
