//! The progress file (`progress.json`): per course the project folder,
//! install details and chapter progress, plus the saved requests of the
//! request workbench. Each operation here takes the parsed file and returns
//! what it reads or the file's new contents.

use vstd::prelude::*;
use crate::json::{
    Json, JsonV, NumKindV, lookup, get_field, field_or_null, view_entries, view_items, count_number, text_less,
    text_before, keys_sorted, lemma_text_less_irreflexive, lemma_text_less_transitive, lemma_text_less_total,
};
use crate::db::count_view;
use crate::course::Course;
use crate::text::str_equal;
use crate::path::{joined, join_path};

verus! {

// ── Object entries ──────────────────────────────────────────────────────────

/// The entries without those under `key`.
pub open spec fn without_key(es: Seq<(Seq<char>, JsonV)>, key: Seq<char>) -> Seq<(Seq<char>, JsonV)>
    decreases es.len(),
{
    if es.len() == 0 {
        es
    } else if es.last().0 == key {
        without_key(es.drop_last(), key)
    } else {
        without_key(es.drop_last(), key).push(es.last())
    }
}

/// Where `key` goes among sorted entries: before the first entry whose key
/// sorts after it.
pub open spec fn insert_position(es: Seq<(Seq<char>, JsonV)>, key: Seq<char>) -> nat
    decreases es.len(),
{
    if es.len() == 0 {
        0
    } else if text_less(key, es[0].0) {
        0
    } else {
        1 + insert_position(es.drop_first(), key)
    }
}

/// The entries with `key` set to `value`: any entry under `key` removed and
/// the new one placed in key order, as a JSON object stores its members.
pub open spec fn put(es: Seq<(Seq<char>, JsonV)>, key: Seq<char>, value: JsonV) -> Seq<(Seq<char>, JsonV)> {
    let w = without_key(es, key);
    let p = insert_position(w, key) as int;
    w.take(p) + seq![(key, value)] + w.skip(p)
}

proof fn lemma_insert_position_bound(es: Seq<(Seq<char>, JsonV)>, key: Seq<char>)
    ensures
        insert_position(es, key) <= es.len(),
    decreases es.len(),
{
    if es.len() > 0 && !text_less(key, es[0].0) {
        lemma_insert_position_bound(es.drop_first(), key);
    }
}

/// A lookup in two runs of entries finds the later run's entry first.
pub proof fn lemma_lookup_concat(a: Seq<(Seq<char>, JsonV)>, b: Seq<(Seq<char>, JsonV)>, key: Seq<char>)
    ensures
        lookup(a + b, key) == (match lookup(b, key) {
            Some(v) => Some(v),
            None => lookup(a, key),
        }),
    decreases b.len(),
{
    if b.len() == 0 {
        assert(a + b =~= a);
    } else {
        assert((a + b).drop_last() =~= a + b.drop_last());
        assert((a + b).last() == b.last());
        lemma_lookup_concat(a, b.drop_last(), key);
    }
}

proof fn lemma_lookup_without(es: Seq<(Seq<char>, JsonV)>, key: Seq<char>, other: Seq<char>)
    ensures
        lookup(without_key(es, key), other) == (if other == key {
            None
        } else {
            lookup(es, other)
        }),
    decreases es.len(),
{
    if es.len() > 0 {
        lemma_lookup_without(es.drop_last(), key, other);
        if es.last().0 != key {
            let w = without_key(es.drop_last(), key);
            assert(w.push(es.last()).drop_last() =~= w);
        }
    }
}

/// After setting `key`, a lookup of `key` finds the new value and a lookup
/// of any other key finds what it found before.
pub proof fn law_put_then_lookup(es: Seq<(Seq<char>, JsonV)>, key: Seq<char>, value: JsonV, other: Seq<char>)
    ensures
        lookup(put(es, key, value), other) == (if other == key {
            Some(value)
        } else {
            lookup(es, other)
        }),
{
    let w = without_key(es, key);
    let p = insert_position(w, key) as int;
    lemma_insert_position_bound(w, key);
    lemma_lookup_without(es, key, other);
    lemma_lookup_without(es, key, key);
    let front = w.take(p);
    let back = w.skip(p);
    assert(w =~= front + back);
    lemma_lookup_concat(front, back, other);
    lemma_lookup_concat(front, back, key);
    lemma_lookup_concat(front + seq![(key, value)], back, other);
    lemma_lookup_concat(front, seq![(key, value)], other);
    let one = seq![(key, value)];
    assert(one.drop_last() =~= Seq::<(Seq<char>, JsonV)>::empty());
    assert(lookup(one.drop_last(), other) == None::<JsonV>);
    assert(lookup(one, other) == (if other == key { Some(value) } else { None }));
    assert(put(es, key, value) == front + seq![(key, value)] + back);
}

proof fn lemma_without_key_bounded(es: Seq<(Seq<char>, JsonV)>, key: Seq<char>, bound: Seq<char>)
    requires
        forall|j: int| 0 <= j < es.len() ==> text_less(#[trigger] es[j].0, bound),
    ensures
        forall|i: int| 0 <= i < without_key(es, key).len() ==> text_less(#[trigger] without_key(es, key)[i].0, bound),
    decreases es.len(),
{
    if es.len() > 0 {
        assert forall|j: int| 0 <= j < es.drop_last().len() implies text_less(#[trigger] es.drop_last()[j].0, bound) by {
            assert(es.drop_last()[j] == es[j]);
        }
        lemma_without_key_bounded(es.drop_last(), key, bound);
        if es.last().0 != key {
            let w = without_key(es.drop_last(), key);
            let r = w.push(es.last());
            assert(es.last() == es[es.len() - 1]);
            assert forall|i: int| 0 <= i < r.len() implies text_less(#[trigger] r[i].0, bound) by {
                if i < w.len() {
                    assert(r[i] == w[i]);
                }
            }
        }
    }
}

proof fn lemma_without_key_sorted(es: Seq<(Seq<char>, JsonV)>, key: Seq<char>)
    requires
        keys_sorted(es),
    ensures
        keys_sorted(without_key(es, key)),
        forall|i: int| 0 <= i < without_key(es, key).len() ==> (#[trigger] without_key(es, key)[i]).0 != key,
    decreases es.len(),
{
    if es.len() > 0 {
        let d = es.drop_last();
        assert forall|i: int, j: int| 0 <= i < j < d.len() implies text_less(#[trigger] d[i].0, #[trigger] d[j].0) by {
            assert(d[i] == es[i] && d[j] == es[j]);
        }
        lemma_without_key_sorted(d, key);
        if es.last().0 != key {
            let w = without_key(d, key);
            assert forall|j: int| 0 <= j < d.len() implies text_less(#[trigger] d[j].0, es.last().0) by {
                assert(d[j] == es[j]);
            }
            lemma_without_key_bounded(d, key, es.last().0);
            let r = w.push(es.last());
            assert forall|i: int, j: int| 0 <= i < j < r.len() implies text_less(#[trigger] r[i].0, #[trigger] r[j].0) by {
                if j < w.len() {
                    assert(r[i] == w[i] && r[j] == w[j]);
                } else {
                    assert(r[i] == w[i]);
                }
            }
        }
    }
}

proof fn lemma_insert_position_props(es: Seq<(Seq<char>, JsonV)>, key: Seq<char>)
    ensures
        forall|k: int| 0 <= k < insert_position(es, key) ==> !text_less(key, #[trigger] es[k].0),
        insert_position(es, key) < es.len() ==> text_less(key, es[insert_position(es, key) as int].0),
    decreases es.len(),
{
    if es.len() > 0 && !text_less(key, es[0].0) {
        let t = es.drop_first();
        lemma_insert_position_props(t, key);
        lemma_insert_position_bound(t, key);
        assert forall|k: int| 0 <= k < insert_position(es, key) implies !text_less(key, #[trigger] es[k].0) by {
            if k > 0 {
                assert(es[k] == t[k - 1]);
            }
        }
        if insert_position(es, key) < es.len() {
            assert(es[insert_position(es, key) as int] == t[insert_position(t, key) as int]);
        }
    }
}

/// Setting a member of an object whose keys are sorted keeps them sorted,
/// each key once.
pub proof fn law_put_keeps_keys_sorted(es: Seq<(Seq<char>, JsonV)>, key: Seq<char>, value: JsonV)
    requires
        keys_sorted(es),
    ensures
        keys_sorted(put(es, key, value)),
{
    let w = without_key(es, key);
    lemma_without_key_sorted(es, key);
    lemma_insert_position_bound(w, key);
    lemma_insert_position_props(w, key);
    let p = insert_position(w, key) as int;
    let r = put(es, key, value);
    assert(r.len() == w.len() + 1);
    assert forall|i: int| 0 <= i < p implies text_less(#[trigger] w[i].0, key) by {
        lemma_text_less_total(w[i].0, key);
    }
    assert forall|i: int| p <= i < w.len() implies text_less(key, #[trigger] w[i].0) by {
        if i > p {
            assert(text_less(w[p].0, w[i].0));
            lemma_text_less_transitive(key, w[p].0, w[i].0);
        }
    }
    assert forall|i: int, j: int| 0 <= i < j < r.len() implies text_less(#[trigger] r[i].0, #[trigger] r[j].0) by {
        if j < p {
            assert(r[i] == w[i] && r[j] == w[j]);
        } else if j == p {
            assert(r[i] == w[i] && r[j] == (key, value));
        } else if i < p {
            assert(r[i] == w[i] && r[j] == w[j - 1]);
            assert(text_less(w[i].0, key));
            assert(text_less(key, w[j - 1].0));
            lemma_text_less_transitive(w[i].0, key, w[j - 1].0);
        } else if i == p {
            assert(r[i] == (key, value) && r[j] == w[j - 1]);
        } else {
            assert(r[i] == w[i - 1] && r[j] == w[j - 1]);
        }
    }
}

/// The entries without those under `key` (see `without_key`).
fn entries_without(es: &Vec<(String, Json)>, key: &str) -> (r: Vec<(String, Json)>)
    ensures
        view_entries(r@) == without_key(view_entries(es@), key@),
{
    let ghost ves = view_entries(es@);
    let mut out: Vec<(String, Json)> = Vec::new();
    let mut i: usize = 0;
    assert(ves.take(0) =~= Seq::<(Seq<char>, JsonV)>::empty());
    assert(view_entries(out@) =~= without_key(ves.take(0), key@));
    while i < es.len()
        invariant
            i <= es.len(),
            ves == view_entries(es@),
            view_entries(out@) == without_key(ves.take(i as int), key@),
        decreases es.len() - i,
    {
        proof {
            assert(ves.take(i + 1).drop_last() =~= ves.take(i as int));
            assert(ves.take(i + 1).last() == ves[i as int]);
        }
        if !str_equal(es[i].0.as_str(), key) {
            let ghost before = out@;
            out.push((es[i].0.clone(), es[i].1.duplicate()));
            assert(view_entries(out@) =~= view_entries(before).push(ves[i as int]));
        }
        i = i + 1;
    }
    assert(ves.take(i as int) =~= ves);
    out
}

/// Where `key` goes among the entries (see `insert_position`).
fn entry_position(es: &Vec<(String, Json)>, key: &str) -> (p: usize)
    ensures
        p == insert_position(view_entries(es@), key@),
{
    let ghost ves = view_entries(es@);
    let mut i: usize = 0;
    assert(ves.skip(0) =~= ves);
    while i < es.len()
        invariant
            i <= es.len(),
            ves == view_entries(es@),
            insert_position(ves, key@) == i + insert_position(ves.skip(i as int), key@),
        decreases es.len() - i,
    {
        assert(ves.skip(i as int)[0] == ves[i as int]);
        if text_before(key, es[i].0.as_str()) {
            return i;
        }
        assert(ves.skip(i as int).drop_first() =~= ves.skip(i + 1));
        i = i + 1;
    }
    assert(ves.skip(i as int).len() == 0);
    i
}

/// The entries with `key` set to `value` (see `put`).
pub fn put_entry(es: &Vec<(String, Json)>, key: &str, value: Json) -> (r: Vec<(String, Json)>)
    ensures
        view_entries(r@) == put(view_entries(es@), key@, value@),
{
    let w = entries_without(es, key);
    let p = entry_position(&w, key);
    let ghost wv = view_entries(w@);
    proof {
        lemma_insert_position_bound(wv, key@);
    }
    let mut out: Vec<(String, Json)> = Vec::new();
    let mut i: usize = 0;
    while i < p
        invariant
            i <= p <= w.len(),
            wv == view_entries(w@),
            view_entries(out@) == wv.take(i as int),
        decreases p - i,
    {
        let ghost before = out@;
        out.push((w[i].0.clone(), w[i].1.duplicate()));
        assert(view_entries(out@) =~= view_entries(before).push(wv[i as int]));
        assert(wv.take(i + 1) =~= wv.take(i as int).push(wv[i as int]));
        i = i + 1;
    }
    let ghost before = out@;
    out.push((String::from_str(key), value));
    assert(view_entries(out@) =~= wv.take(p as int) + seq![(key@, value@)]);
    let ghost head = view_entries(out@);
    while i < w.len()
        invariant
            p <= i <= w.len(),
            wv == view_entries(w@),
            view_entries(out@) == head + wv.subrange(p as int, i as int),
        decreases w.len() - i,
    {
        let ghost before = out@;
        out.push((w[i].0.clone(), w[i].1.duplicate()));
        assert(view_entries(out@) =~= view_entries(before).push(wv[i as int]));
        assert(wv.subrange(p as int, i + 1) =~= wv.subrange(p as int, i as int).push(wv[i as int]));
        i = i + 1;
    }
    assert(wv.subrange(p as int, i as int) =~= wv.skip(p as int));
    out
}

// ── Setting members ─────────────────────────────────────────────────────────

/// Whether `value[key] = …` can be written: on an object it sets the
/// member, on null it makes an object first; any other kind of value
/// refuses it.
pub open spec fn indexable(v: JsonV) -> bool {
    v is Object || v is Null
}

/// `value[key] = member` on an object or on null.
pub open spec fn with_key(v: JsonV, key: Seq<char>, member: JsonV) -> JsonV {
    match v {
        JsonV::Object(es) => JsonV::Object(put(es, key, member)),
        _ => JsonV::Object(seq![(key, member)]),
    }
}

/// Sets `key` to `member` in an object or in null (see `with_key`).
pub fn set_key(v: &Json, key: &str, member: Json) -> (r: Json)
    requires
        indexable(v@),
    ensures
        r@ == with_key(v@, key@, member@),
{
    match v {
        Json::Object(es) => {
            let r = Json::Object(put_entry(es, key, member));
            r
        },
        _ => {
            let mut es: Vec<(String, Json)> = Vec::new();
            es.push((String::from_str(key), member));
            let r = Json::Object(es);
            assert(view_entries(es@) =~= seq![(key@, member@)]);
            r
        },
    }
}

pub proof fn lemma_with_key_lookup(v: JsonV, key: Seq<char>, member: JsonV, other: Seq<char>)
    ensures
        other == key ==> get_field(with_key(v, key, member), other) == Some(member),
        other != key && (v matches JsonV::Object(_)) ==> get_field(with_key(v, key, member), other) == get_field(v, other),
        other != key && !(v matches JsonV::Object(_)) ==> get_field(with_key(v, key, member), other) is None,
{
    match v {
        JsonV::Object(es) => {
            law_put_then_lookup(es, key, member, other);
        },
        _ => {
            let s = seq![(key, member)];
            assert(s.drop_last() =~= Seq::<(Seq<char>, JsonV)>::empty());
            assert(lookup(s.drop_last(), other) is None);
        },
    }
}


/// Setting a member leaves the other members as they were (none, for null).
pub proof fn lemma_with_key_others(v: JsonV, key: Seq<char>, member: JsonV, other: Seq<char>)
    requires
        indexable(v),
    ensures
        get_field(with_key(v, key, member), other) == (if other == key {
            Some(member)
        } else {
            get_field(v, other)
        }),
{
    lemma_with_key_lookup(v, key, member, other);
}

// ── Courses in the progress file ────────────────────────────────────────────

/// The string held by a member, if it is a string.
pub open spec fn as_text(v: Option<JsonV>) -> Option<Seq<char>> {
    match v {
        Some(JsonV::Str(s)) => Some(s),
        _ => None,
    }
}

/// The record of a course: `progress["courses"][id]`.
pub open spec fn course_entry(p: JsonV, id: Seq<char>) -> Option<JsonV> {
    match get_field(p, "courses"@) {
        Some(c) => get_field(c, id),
        None => None,
    }
}

/// The project folder saved for a course.
pub open spec fn folder_in(p: JsonV, id: Seq<char>) -> Option<Seq<char>> {
    match course_entry(p, id) {
        Some(e) => as_text(get_field(e, "project_folder"@)),
        None => None,
    }
}

/// The chapter progress saved for a course, an empty object when none is.
pub open spec fn chapters_in(p: JsonV, id: Seq<char>) -> JsonV {
    match course_entry(p, id) {
        Some(e) => match get_field(e, "chapters"@) {
            Some(c) => c,
            None => JsonV::Object(Seq::empty()),
        },
        None => JsonV::Object(Seq::empty()),
    }
}

/// Whether `progress["courses"][id][field] = …` can be written: the file,
/// its `courses` member and the course's record are each an object or
/// absent (null).
pub open spec fn course_writable(p: JsonV, id: Seq<char>) -> bool {
    &&& indexable(p)
    &&& indexable(field_or_null(p, "courses"@))
    &&& indexable(field_or_null(field_or_null(p, "courses"@), id))
}

/// `progress["courses"][id][field] = value`.
pub open spec fn with_course_field(p: JsonV, id: Seq<char>, field: Seq<char>, value: JsonV) -> JsonV {
    let courses = field_or_null(p, "courses"@);
    let entry = field_or_null(courses, id);
    with_key(p, "courses"@, with_key(courses, id, with_key(entry, field, value)))
}

/// What setting a member of a course record changes: that member, and
/// nothing else of the record, of the other courses or of the file.
pub proof fn lemma_course_field(p: JsonV, id: Seq<char>, field: Seq<char>, value: JsonV, other_id: Seq<char>, other_field: Seq<char>, other_key: Seq<char>)
    requires
        course_writable(p, id),
    ensures
        course_writable(with_course_field(p, id, field, value), id),
        course_entry(with_course_field(p, id, field, value), id) matches Some(e) && e is Object
            && get_field(e, other_field) == (if other_field == field {
                Some(value)
            } else {
                get_field(field_or_null(field_or_null(p, "courses"@), id), other_field)
            }),
        other_id != id ==> course_entry(with_course_field(p, id, field, value), other_id) == course_entry(p, other_id),
        other_key != "courses"@ ==> get_field(with_course_field(p, id, field, value), other_key) == get_field(p, other_key),
{
    let courses = field_or_null(p, "courses"@);
    let entry = field_or_null(courses, id);
    let e2 = with_key(entry, field, value);
    let c2 = with_key(courses, id, e2);
    let p2 = with_key(p, "courses"@, c2);
    lemma_with_key_others(p, "courses"@, c2, "courses"@);
    lemma_with_key_others(p, "courses"@, c2, other_key);
    lemma_with_key_others(courses, id, e2, id);
    lemma_with_key_others(courses, id, e2, other_id);
    lemma_with_key_others(entry, field, value, other_field);
    assert(get_field(p2, "courses"@) == Some(c2));
    assert(field_or_null(p2, "courses"@) == c2);
    assert(get_field(c2, id) == Some(e2));
    assert(field_or_null(c2, id) == e2);
    if other_id != id {
        assert(get_field(c2, other_id) == get_field(courses, other_id));
        match get_field(p, "courses"@) {
            Some(c) => assert(c == courses),
            None => assert(courses == JsonV::Null),
        }
    }
}

/// Sets `progress["courses"][id][field]` (see `with_course_field`).
fn set_course_field(p: &Json, id: &str, field: &str, value: Json) -> (r: Json)
    requires
        course_writable(p@, id@),
    ensures
        r@ == with_course_field(p@, id@, field@, value@),
{
    proof {
        reveal_strlit("courses");
    }
    let courses = p.field_or_null("courses");
    let entry = courses.field_or_null(id);
    let e2 = set_key(&entry, field, value);
    let c2 = set_key(&courses, id, e2);
    set_key(p, "courses", c2)
}

/// An empty object.
fn empty_object() -> (r: Json)
    ensures
        r@ == JsonV::Object(Seq::empty()),
{
    let es: Vec<(String, Json)> = Vec::new();
    assert(view_entries(es@) =~= Seq::<(Seq<char>, JsonV)>::empty());
    Json::Object(es)
}

/// The record of a course is what `progress["courses"][id]` reads.
proof fn lemma_entry_of(q: JsonV, id: Seq<char>)
    ensures
        course_entry(q, id) matches Some(e) ==> field_or_null(field_or_null(q, "courses"@), id) == e,
        course_entry(q, id) is None ==> field_or_null(field_or_null(q, "courses"@), id) == JsonV::Null,
{
}

/// Whether `value[key] = …` can be written on this value (see `indexable`).
pub fn can_index(v: &Json) -> (r: bool)
    ensures
        r == indexable(v@),
{
    matches!(v, Json::Object(_)) || matches!(v, Json::Null)
}

/// Whether a member of a course record can be written (see
/// `course_writable`).
pub fn can_write_course(progress: &Json, course_id: &str) -> (r: bool)
    ensures
        r == course_writable(progress@, course_id@),
{
    proof {
        reveal_strlit("courses");
    }
    let courses = progress.field_or_null("courses");
    let entry = courses.field_or_null(course_id);
    can_index(progress) && can_index(&courses) && can_index(&entry)
}

/// The project folder saved for a course (see `folder_in`).
pub fn saved_folder(progress: &Json, course_id: &str) -> (r: Option<String>)
    ensures
        match r {
            Some(f) => folder_in(progress@, course_id@) == Some(f@),
            None => folder_in(progress@, course_id@) is None,
        },
{
    proof {
        reveal_strlit("courses");
        reveal_strlit("project_folder");
    }
    match progress.field("courses") {
        Some(c) => match c.field(course_id) {
            Some(e) => match e.field("project_folder") {
                Some(Json::Str(f)) => Some(f.clone()),
                _ => None,
            },
            None => None,
        },
        None => None,
    }
}

/// The file with a course's project folder saved.
pub open spec fn folder_saved(p: JsonV, id: Seq<char>, folder: Seq<char>) -> JsonV {
    with_course_field(p, id, "project_folder"@, JsonV::Str(folder))
}

/// Saves the project folder of a course (see `folder_saved`).
pub fn save_folder(progress: &Json, course_id: &str, folder: String) -> (r: Json)
    requires
        course_writable(progress@, course_id@),
    ensures
        r@ == folder_saved(progress@, course_id@, folder@),
{
    set_course_field(progress, course_id, "project_folder", Json::Str(folder))
}

/// A folder saved for a course is the folder read back for it; the folders
/// of other courses stay as they were.
pub proof fn law_saved_folder_read_back(p: JsonV, id: Seq<char>, folder: Seq<char>, other: Seq<char>)
    requires
        course_writable(p, id),
    ensures
        folder_in(folder_saved(p, id, folder), id) == Some(folder),
        other != id ==> folder_in(folder_saved(p, id, folder), other) == folder_in(p, other),
{
    lemma_course_field(p, id, "project_folder"@, JsonV::Str(folder), other, "project_folder"@, "courses"@);
}

/// The chapter progress saved for a course (see `chapters_in`).
pub fn course_progress(progress: &Json, course_id: &str) -> (r: Json)
    ensures
        r@ == chapters_in(progress@, course_id@),
{
    proof {
        reveal_strlit("courses");
        reveal_strlit("chapters");
    }
    match progress.field("courses") {
        Some(c) => match c.field(course_id) {
            Some(e) => match e.field("chapters") {
                Some(ch) => ch.duplicate(),
                None => empty_object(),
            },
            None => empty_object(),
        },
        None => empty_object(),
    }
}

/// The file after saving a course's chapter progress: the time it was
/// installed (only when none is recorded yet), its title (when the loaded
/// course has one), its version, its number of chapters (when positive) and
/// the chapter progress itself.
pub open spec fn progress_saved(
    p: JsonV,
    id: Seq<char>,
    chapters: JsonV,
    title: Seq<char>,
    version: Seq<char>,
    total: nat,
    now: Seq<char>,
) -> JsonV {
    let entry = field_or_null(field_or_null(p, "courses"@), id);
    let p1 = if get_field(entry, "installed_at"@) is None {
        with_course_field(p, id, "installed_at"@, JsonV::Str(now))
    } else {
        p
    };
    let p2 = if title.len() > 0 {
        with_course_field(p1, id, "title"@, JsonV::Str(title))
    } else {
        p1
    };
    let p3 = with_course_field(p2, id, "version"@, JsonV::Str(version));
    let p4 = if total > 0 {
        with_course_field(p3, id, "chapters_total"@, count_view(total))
    } else {
        p3
    };
    with_course_field(p4, id, "chapters"@, chapters)
}

/// Saves a course's chapter progress (see `progress_saved`), with `now` as
/// the install time if none is recorded.
pub fn save_progress_at(
    progress: &Json,
    course_id: &str,
    chapters: Json,
    title: &str,
    version: &str,
    total: usize,
    now: &str,
) -> (r: Json)
    requires
        course_writable(progress@, course_id@),
        total < 0x20_0000_0000_0000,
    ensures
        r@ == progress_saved(progress@, course_id@, chapters@, title@, version@, total as nat, now@),
{
    proof {
        reveal_strlit("courses");
        reveal_strlit("installed_at");
        reveal_strlit("title");
        reveal_strlit("version");
        reveal_strlit("chapters_total");
        reveal_strlit("chapters");
    }
    let ghost (pv, idv) = (progress@, course_id@);
    let entry = progress.field_or_null("courses").field_or_null(course_id);
    assert(entry@ == field_or_null(field_or_null(pv, "courses"@), idv));
    let p1 = if entry.field("installed_at").is_none() {
        proof {
            lemma_course_field(pv, idv, "installed_at"@, JsonV::Str(now@), idv, "x"@, "courses"@);
        }
        set_course_field(progress, course_id, "installed_at", Json::Str(String::from_str(now)))
    } else {
        progress.duplicate()
    };
    let t = String::from_str(title);
    let p2 = if !str_equal(title, "") {
        proof {
            reveal_strlit("");
            if title@.len() == 0 {
                assert(title@ =~= ""@);
            }
            lemma_course_field(p1@, idv, "title"@, JsonV::Str(title@), idv, "x"@, "courses"@);
        }
        set_course_field(&p1, course_id, "title", Json::Str(t))
    } else {
        proof {
            reveal_strlit("");
            assert(title@ =~= ""@);
        }
        p1
    };
    proof {
        lemma_course_field(p2@, idv, "version"@, JsonV::Str(version@), idv, "x"@, "courses"@);
    }
    let p3 = set_course_field(&p2, course_id, "version", Json::Str(String::from_str(version)));
    let p4 = if total > 0 {
        let n = count_number(total as u64);
        proof {
            lemma_course_field(p3@, idv, "chapters_total"@, count_view(total as nat), idv, "x"@, "courses"@);
        }
        let j = Json::Number(n);
        assert(j@ == count_view(total as nat));
        set_course_field(&p3, course_id, "chapters_total", j)
    } else {
        p3
    };
    assert(course_writable(p4@, idv));
    set_course_field(&p4, course_id, "chapters", chapters)
}

/// The current time as RFC 3339 text, from `chrono::Utc::now().to_rfc3339()`.
/// The contract states only that the text is not empty (it always holds a
/// date and a time); which time it holds depends on the clock.
#[verifier::external_body]
fn current_time_text() -> (r: String)
    ensures
        r@.len() > 0,
{
    chrono::Utc::now().to_rfc3339()
}

/// Whether a course's record already holds an install time.
pub open spec fn install_time_recorded(p: JsonV, id: Seq<char>) -> bool {
    get_field(field_or_null(field_or_null(p, "courses"@), id), "installed_at"@) is Some
}

/// Saves a course's chapter progress with the title, version and number of
/// chapters of the loaded course (empty and zero when none is loaded). The
/// clock is read only when no install time is recorded yet, and then gives
/// the install time.
pub fn save_progress(progress: &Json, course_id: &str, chapters: Json, course: Option<&Course>) -> (r: Json)
    requires
        course_writable(progress@, course_id@),
        course matches Some(c) ==> c.chapters@.len() < 0x20_0000_0000_0000,
    ensures
        exists|now: Seq<char>| (!install_time_recorded(progress@, course_id@) ==> now.len() > 0) && r@ == (match course {
            Some(c) => progress_saved(progress@, course_id@, chapters@, c.title@, c.version@, c.chapters@.len(), now),
            None => progress_saved(progress@, course_id@, chapters@, Seq::empty(), Seq::empty(), 0, now),
        }),
        install_time_recorded(progress@, course_id@) ==> r@ == (match course {
            Some(c) => progress_saved(progress@, course_id@, chapters@, c.title@, c.version@, c.chapters@.len(), Seq::empty()),
            None => progress_saved(progress@, course_id@, chapters@, Seq::empty(), Seq::empty(), 0, Seq::empty()),
        }),
{
    proof {
        reveal_strlit("");
        reveal_strlit("courses");
        reveal_strlit("installed_at");
        assert(""@ =~= Seq::<char>::empty());
    }
    let entry = progress.field_or_null("courses").field_or_null(course_id);
    let recorded = entry.field("installed_at").is_some();
    let now = if recorded {
        String::new()
    } else {
        current_time_text()
    };
    assert(recorded ==> now@ == Seq::<char>::empty());
    let r = match course {
        Some(c) => save_progress_at(progress, course_id, chapters, c.title.as_str(), c.version.as_str(), c.chapters.len(), now.as_str()),
        None => save_progress_at(progress, course_id, chapters, "", "", 0, now.as_str()),
    };
    assert(!install_time_recorded(progress@, course_id@) ==> now@.len() > 0);
    assert(r@ == (match course {
        Some(c) => progress_saved(progress@, course_id@, chapters@, c.title@, c.version@, c.chapters@.len(), now@),
        None => progress_saved(progress@, course_id@, chapters@, Seq::empty(), Seq::empty(), 0, now@),
    }));
    r
}

/// Chapter progress saved for a course is what is read back for it.
pub proof fn law_saved_progress_read_back(
    p: JsonV,
    id: Seq<char>,
    chapters: JsonV,
    title: Seq<char>,
    version: Seq<char>,
    total: nat,
    now: Seq<char>,
)
    requires
        course_writable(p, id),
    ensures
        chapters_in(progress_saved(p, id, chapters, title, version, total, now), id) == chapters,
{
    let x = "x"@;
    let c = "courses"@;
    let entry = field_or_null(field_or_null(p, c), id);
    let p1 = if get_field(entry, "installed_at"@) is None {
        with_course_field(p, id, "installed_at"@, JsonV::Str(now))
    } else {
        p
    };
    if get_field(entry, "installed_at"@) is None {
        lemma_course_field(p, id, "installed_at"@, JsonV::Str(now), id, x, c);
    }
    let p2 = if title.len() > 0 {
        with_course_field(p1, id, "title"@, JsonV::Str(title))
    } else {
        p1
    };
    if title.len() > 0 {
        lemma_course_field(p1, id, "title"@, JsonV::Str(title), id, x, c);
    }
    let p3 = with_course_field(p2, id, "version"@, JsonV::Str(version));
    lemma_course_field(p2, id, "version"@, JsonV::Str(version), id, x, c);
    let p4 = if total > 0 {
        with_course_field(p3, id, "chapters_total"@, count_view(total))
    } else {
        p3
    };
    if total > 0 {
        lemma_course_field(p3, id, "chapters_total"@, count_view(total), id, x, c);
    }
    lemma_course_field(p4, id, "chapters"@, chapters, id, "chapters"@, c);
}

/// Once a course has an install time, saving its progress keeps it.
pub proof fn law_install_time_kept(
    p: JsonV,
    id: Seq<char>,
    chapters: JsonV,
    title: Seq<char>,
    version: Seq<char>,
    total: nat,
    now: Seq<char>,
)
    requires
        course_writable(p, id),
        course_entry(p, id) matches Some(e) && get_field(e, "installed_at"@) is Some,
    ensures
        course_entry(progress_saved(p, id, chapters, title, version, total, now), id) matches Some(e2)
            && get_field(e2, "installed_at"@) == get_field(course_entry(p, id)->Some_0, "installed_at"@),
{
    reveal_strlit("installed_at");
    reveal_strlit("title");
    reveal_strlit("version");
    reveal_strlit("chapters_total");
    reveal_strlit("chapters");
    let k = "installed_at"@;
    let c = "courses"@;
    let entry = field_or_null(field_or_null(p, c), id);
    lemma_entry_of(p, id);
    assert(entry == course_entry(p, id)->Some_0);
    let p2 = if title.len() > 0 {
        with_course_field(p, id, "title"@, JsonV::Str(title))
    } else {
        p
    };
    if title.len() > 0 {
        lemma_course_field(p, id, "title"@, JsonV::Str(title), id, k, c);
    }
    lemma_entry_of(p2, id);
    let p3 = with_course_field(p2, id, "version"@, JsonV::Str(version));
    lemma_course_field(p2, id, "version"@, JsonV::Str(version), id, k, c);
    lemma_entry_of(p3, id);
    let p4 = if total > 0 {
        with_course_field(p3, id, "chapters_total"@, count_view(total))
    } else {
        p3
    };
    if total > 0 {
        lemma_course_field(p3, id, "chapters_total"@, count_view(total), id, k, c);
    }
    lemma_entry_of(p4, id);
    lemma_course_field(p4, id, "chapters"@, chapters, id, k, c);
}


// ── Removing ────────────────────────────────────────────────────────────────

/// The file without a course's record.
pub open spec fn course_removed(p: JsonV, id: Seq<char>) -> JsonV {
    match p {
        JsonV::Object(es) => match lookup(es, "courses"@) {
            Some(JsonV::Object(cs)) => JsonV::Object(put(es, "courses"@, JsonV::Object(without_key(cs, id)))),
            _ => p,
        },
        _ => p,
    }
}

/// Removes a course's record (see `course_removed`).
pub fn remove_course(progress: &Json, course_id: &str) -> (r: Json)
    ensures
        r@ == course_removed(progress@, course_id@),
{
    proof {
        reveal_strlit("courses");
    }
    match progress {
        Json::Object(es) => match progress.field("courses") {
            Some(Json::Object(cs)) => {
                let rest = entries_without(cs, course_id);
                Json::Object(put_entry(es, "courses", Json::Object(rest)))
            },
            _ => progress.duplicate(),
        },
        _ => progress.duplicate(),
    }
}

/// After a course is removed nothing is recorded for it; the records of
/// other courses stay as they were.
pub proof fn law_removed_course_gone(p: JsonV, id: Seq<char>, other: Seq<char>)
    ensures
        course_entry(course_removed(p, id), id) is None,
        other != id ==> course_entry(course_removed(p, id), other) == course_entry(p, other),
{
    match p {
        JsonV::Object(es) => match lookup(es, "courses"@) {
            Some(JsonV::Object(cs)) => {
                law_put_then_lookup(es, "courses"@, JsonV::Object(without_key(cs, id)), "courses"@);
                lemma_lookup_without(cs, id, id);
                lemma_lookup_without(cs, id, other);
            },
            _ => {},
        },
        _ => {},
    }
}

/// The file with a course's chapter progress removed (its other details
/// stay).
pub open spec fn progress_reset(p: JsonV, id: Seq<char>) -> JsonV {
    match p {
        JsonV::Object(es) => match lookup(es, "courses"@) {
            Some(JsonV::Object(cs)) => match lookup(cs, id) {
                Some(JsonV::Object(fs)) => JsonV::Object(
                    put(es, "courses"@, JsonV::Object(put(cs, id, JsonV::Object(without_key(fs, "chapters"@))))),
                ),
                _ => p,
            },
            _ => p,
        },
        _ => p,
    }
}

/// Removes a course's chapter progress (see `progress_reset`).
pub fn reset_course_progress(progress: &Json, course_id: &str) -> (r: Json)
    ensures
        r@ == progress_reset(progress@, course_id@),
{
    proof {
        reveal_strlit("courses");
        reveal_strlit("chapters");
    }
    match progress {
        Json::Object(es) => match progress.field("courses") {
            Some(courses) => match courses {
                Json::Object(cs) => match courses.field(course_id) {
                    Some(Json::Object(fs)) => {
                        let kept = entries_without(fs, "chapters");
                        let cs2 = put_entry(cs, course_id, Json::Object(kept));
                        Json::Object(put_entry(es, "courses", Json::Object(cs2)))
                    },
                    _ => progress.duplicate(),
                },
                _ => progress.duplicate(),
            },
            None => progress.duplicate(),
        },
        _ => progress.duplicate(),
    }
}

/// After a reset a course has no chapter progress; its project folder
/// stays.
pub proof fn law_reset_clears_progress(p: JsonV, id: Seq<char>)
    ensures
        chapters_in(progress_reset(p, id), id) == JsonV::Object(Seq::empty()),
        folder_in(progress_reset(p, id), id) == folder_in(p, id),
{
    reveal_strlit("chapters");
    reveal_strlit("project_folder");
    match p {
        JsonV::Object(es) => match lookup(es, "courses"@) {
            Some(JsonV::Object(cs)) => match lookup(cs, id) {
                Some(JsonV::Object(fs)) => {
                    let f2 = JsonV::Object(without_key(fs, "chapters"@));
                    let c2 = JsonV::Object(put(cs, id, f2));
                    law_put_then_lookup(es, "courses"@, c2, "courses"@);
                    law_put_then_lookup(cs, id, f2, id);
                    lemma_lookup_without(fs, "chapters"@, "chapters"@);
                    assert("project_folder"@.len() != "chapters"@.len());
                    lemma_lookup_without(fs, "chapters"@, "project_folder"@);
                    let p2 = progress_reset(p, id);
                    assert(p2 == JsonV::Object(put(es, "courses"@, c2)));
                    assert(get_field(p2, "courses"@) == Some(c2));
                    assert(course_entry(p2, id) == Some(f2));
                    assert(course_entry(p, id) == Some(JsonV::Object(fs)));
                    assert(get_field(f2, "project_folder"@) == get_field(JsonV::Object(fs), "project_folder"@));
                },
                _ => {},
            },
            _ => {},
        },
        _ => {},
    }
}

// ── Saved requests ──────────────────────────────────────────────────────────

/// The saved requests: `progress["saved_requests"]`, an empty array when
/// absent.
pub open spec fn requests_in(p: JsonV) -> JsonV {
    match get_field(p, "saved_requests"@) {
        Some(v) => v,
        None => JsonV::Array(Seq::empty()),
    }
}

/// The saved requests (see `requests_in`).
pub fn saved_requests(progress: &Json) -> (r: Json)
    ensures
        r@ == requests_in(progress@),
{
    proof {
        reveal_strlit("saved_requests");
    }
    match progress.field("saved_requests") {
        Some(v) => v.duplicate(),
        None => {
            let xs: Vec<Json> = Vec::new();
            assert(view_items(xs@) =~= Seq::<JsonV>::empty());
            Json::Array(xs)
        },
    }
}

/// The id of a saved request, when it has a string `id`.
pub open spec fn request_id(r: JsonV) -> Option<Seq<char>> {
    as_text(get_field(r, "id"@))
}

/// The saved requests as a list: the array, or nothing when the member is
/// absent or not an array.
pub open spec fn request_list(p: JsonV) -> Seq<JsonV> {
    match field_or_null(p, "saved_requests"@) {
        JsonV::Array(xs) => xs,
        _ => Seq::empty(),
    }
}

/// The position of the first request with this id.
pub open spec fn first_with_id(xs: Seq<JsonV>, id: Seq<char>) -> Option<int>
    decreases xs.len(),
{
    if xs.len() == 0 {
        None
    } else {
        match first_with_id(xs.drop_last(), id) {
            Some(i) => Some(i),
            None => if request_id(xs.last()) == Some(id) {
                Some(xs.len() - 1)
            } else {
                None
            },
        }
    }
}

/// The file with a request saved: it replaces the first saved request with
/// the same id (a missing id counts as the empty one), or is added at the
/// end.
pub open spec fn request_saved(p: JsonV, req: JsonV) -> JsonV {
    let xs = request_list(p);
    let id = match request_id(req) {
        Some(s) => s,
        None => Seq::empty(),
    };
    let ys = match first_with_id(xs, id) {
        Some(i) => xs.update(i, req),
        None => xs.push(req),
    };
    with_key(p, "saved_requests"@, JsonV::Array(ys))
}

/// The saved requests other than those with this id.
pub open spec fn others_than(xs: Seq<JsonV>, id: Seq<char>) -> Seq<JsonV>
    decreases xs.len(),
{
    if xs.len() == 0 {
        xs
    } else {
        let rest = others_than(xs.drop_last(), id);
        if request_id(xs.last()) == Some(id) {
            rest
        } else {
            rest.push(xs.last())
        }
    }
}

/// The file with every saved request of this id deleted.
pub open spec fn request_deleted(p: JsonV, id: Seq<char>) -> JsonV {
    with_key(p, "saved_requests"@, JsonV::Array(others_than(request_list(p), id)))
}

proof fn lemma_first_with_id_prefix(xs: Seq<JsonV>, id: Seq<char>, n: int)
    requires
        0 <= n <= xs.len(),
        first_with_id(xs.take(n), id) is Some,
    ensures
        first_with_id(xs, id) == first_with_id(xs.take(n), id),
    decreases xs.len(),
{
    if n < xs.len() {
        assert(xs.drop_last().take(n) =~= xs.take(n));
        lemma_first_with_id_prefix(xs.drop_last(), id, n);
    } else {
        assert(xs.take(n) =~= xs);
    }
}

/// The id of a request (see `request_id`).
fn id_of_request(r: &Json) -> (id: Option<&String>)
    ensures
        match id {
            Some(s) => request_id(r@) == Some(s@),
            None => request_id(r@) is None,
        },
{
    proof {
        reveal_strlit("id");
    }
    match r.field("id") {
        Some(Json::Str(s)) => Some(s),
        _ => None,
    }
}

/// The saved requests as a list (see `request_list`).
fn request_list_of(progress: &Json) -> (r: Vec<Json>)
    ensures
        view_items(r@) == request_list(progress@),
{
    proof {
        reveal_strlit("saved_requests");
    }
    match progress.field("saved_requests") {
        Some(Json::Array(xs)) => {
            let mut out: Vec<Json> = Vec::new();
            let mut i: usize = 0;
            while i < xs.len()
                invariant
                    i <= xs.len(),
                    view_items(out@) == view_items(xs@).take(i as int),
                decreases xs.len() - i,
            {
                let ghost before = out@;
                out.push(xs[i].duplicate());
                assert(view_items(out@) =~= view_items(before).push(view_items(xs@)[i as int]));
                assert(view_items(xs@).take(i + 1) =~= view_items(xs@).take(i as int).push(view_items(xs@)[i as int]));
                i = i + 1;
            }
            assert(view_items(xs@).take(i as int) =~= view_items(xs@));
            out
        },
        _ => {
            let out: Vec<Json> = Vec::new();
            assert(view_items(out@) =~= Seq::<JsonV>::empty());
            out
        },
    }
}

/// Saves a request (see `request_saved`).
pub fn save_request(progress: &Json, request: Json) -> (r: Json)
    requires
        indexable(progress@),
    ensures
        r@ == request_saved(progress@, request@),
{
    proof {
        reveal_strlit("saved_requests");
    }
    let mut xs = request_list_of(progress);
    let ghost xv = view_items(xs@);
    let id: String = match id_of_request(&request) {
        Some(s) => s.clone(),
        None => String::new(),
    };
    let ghost idv = id@;
    assert(idv == match request_id(request@) {
        Some(s) => s,
        None => Seq::<char>::empty(),
    });
    let mut i: usize = 0;
    let mut found = false;
    assert(xv.take(0) =~= Seq::<JsonV>::empty());
    while i < xs.len()
        invariant_except_break
            first_with_id(xv.take(i as int), idv) is None,
            !found,
        invariant
            i <= xs.len(),
            xv == view_items(xs@),
            idv == id@,
        ensures
            found ==> i < xs.len() && first_with_id(xv, idv) == Some(i as int),
            !found ==> i == xs.len() && first_with_id(xv.take(i as int), idv) is None,
        decreases xs.len() - i,
    {
        proof {
            assert(xv.take(i + 1).drop_last() =~= xv.take(i as int));
            assert(xv.take(i + 1).last() == xv[i as int]);
        }
        let same = match id_of_request(&xs[i]) {
            Some(s) => str_equal(s.as_str(), id.as_str()),
            None => false,
        };
        if same {
            proof {
                lemma_first_with_id_prefix(xv, idv, i + 1);
            }
            found = true;
            break;
        }
        i = i + 1;
    }
    proof {
        if !found {
            assert(xv.take(i as int) =~= xv);
        }
    }
    if found {
        let ghost before = xs@;
        xs.set(i, request);
        assert(view_items(xs@) =~= xv.update(i as int, request@));
    } else {
        let ghost before = xs@;
        xs.push(request);
        assert(view_items(xs@) =~= xv.push(request@));
    }
    set_key(progress, "saved_requests", Json::Array(xs))
}

/// Deletes every saved request with this id (see `request_deleted`).
pub fn delete_saved_request(progress: &Json, id: &str) -> (r: Json)
    requires
        indexable(progress@),
    ensures
        r@ == request_deleted(progress@, id@),
{
    proof {
        reveal_strlit("saved_requests");
    }
    let xs = request_list_of(progress);
    let ghost xv = view_items(xs@);
    let mut kept: Vec<Json> = Vec::new();
    let mut i: usize = 0;
    assert(xv.take(0) =~= Seq::<JsonV>::empty());
    while i < xs.len()
        invariant
            i <= xs.len(),
            xv == view_items(xs@),
            view_items(kept@) == others_than(xv.take(i as int), id@),
        decreases xs.len() - i,
    {
        proof {
            assert(xv.take(i + 1).drop_last() =~= xv.take(i as int));
            assert(xv.take(i + 1).last() == xv[i as int]);
        }
        let same = match id_of_request(&xs[i]) {
            Some(s) => str_equal(s.as_str(), id),
            None => false,
        };
        if !same {
            let ghost before = kept@;
            kept.push(xs[i].duplicate());
            assert(view_items(kept@) =~= view_items(before).push(xv[i as int]));
        }
        i = i + 1;
    }
    assert(xv.take(i as int) =~= xv);
    set_key(progress, "saved_requests", Json::Array(kept))
}

/// A saved request is among the saved requests read back.
pub proof fn law_saved_request_present(p: JsonV, req: JsonV)
    requires
        indexable(p),
    ensures
        requests_in(request_saved(p, req)) matches JsonV::Array(ys) && ys.contains(req),
{
    reveal_strlit("saved_requests");
    let xs = request_list(p);
    let id = match request_id(req) {
        Some(s) => s,
        None => Seq::<char>::empty(),
    };
    let ys = match first_with_id(xs, id) {
        Some(i) => xs.update(i, req),
        None => xs.push(req),
    };
    lemma_with_key_others(p, "saved_requests"@, JsonV::Array(ys), "saved_requests"@);
    match first_with_id(xs, id) {
        Some(i) => {
            lemma_first_with_id_range(xs, id);
            assert(ys[i] == req);
        },
        None => {
            assert(ys[xs.len() as int] == req);
        },
    }
}

proof fn lemma_first_with_id_range(xs: Seq<JsonV>, id: Seq<char>)
    ensures
        first_with_id(xs, id) matches Some(i) ==> 0 <= i < xs.len(),
    decreases xs.len(),
{
    if xs.len() > 0 {
        lemma_first_with_id_range(xs.drop_last(), id);
    }
}

proof fn lemma_others_than(xs: Seq<JsonV>, id: Seq<char>)
    ensures
        forall|k: int| 0 <= k < others_than(xs, id).len() ==> request_id(#[trigger] others_than(xs, id)[k]) != Some(id),
    decreases xs.len(),
{
    if xs.len() > 0 {
        lemma_others_than(xs.drop_last(), id);
    }
}

/// After deleting a request id no saved request has that id.
pub proof fn law_deleted_request_absent(p: JsonV, id: Seq<char>)
    requires
        indexable(p),
    ensures
        requests_in(request_deleted(p, id)) matches JsonV::Array(ys)
            && forall|k: int| 0 <= k < ys.len() ==> request_id(#[trigger] ys[k]) != Some(id),
{
    reveal_strlit("saved_requests");
    let ys = others_than(request_list(p), id);
    lemma_with_key_others(p, "saved_requests"@, JsonV::Array(ys), "saved_requests"@);
    lemma_others_than(request_list(p), id);
}


// ── Installed courses ───────────────────────────────────────────────────────

/// A course recorded in the progress file, as the course list shows it.
pub struct InstalledCourse {
    pub id: String,
    pub title: String,
    pub version: String,
    pub installed_at: String,
    pub chapters_total: usize,
    pub chapters_complete: usize,
    pub project_folder: Option<String>,
}

pub struct InstalledCourseV {
    pub id: Seq<char>,
    pub title: Seq<char>,
    pub version: Seq<char>,
    pub installed_at: Seq<char>,
    pub chapters_total: nat,
    pub chapters_complete: nat,
    pub project_folder: Option<Seq<char>>,
}

impl View for InstalledCourse {
    type V = InstalledCourseV;

    open spec fn view(&self) -> InstalledCourseV {
        InstalledCourseV {
            id: self.id@,
            title: self.title@,
            version: self.version@,
            installed_at: self.installed_at@,
            chapters_total: self.chapters_total as nat,
            chapters_complete: self.chapters_complete as nat,
            project_folder: match self.project_folder {
                Some(f) => Some(f@),
                None => None,
            },
        }
    }
}

pub open spec fn courses_view(v: Seq<InstalledCourse>) -> Seq<InstalledCourseV> {
    v.map_values(|c: InstalledCourse| c@)
}

/// The string held by a member, or `default`.
pub open spec fn text_or(v: Option<JsonV>, default: Seq<char>) -> Seq<char> {
    match as_text(v) {
        Some(s) => s,
        None => default,
    }
}

/// Whether a chapter's progress says it is complete.
pub open spec fn is_complete(chapter: JsonV) -> bool {
    as_text(get_field(chapter, "status"@)) == Some("complete"@)
}

/// The number of complete chapters.
pub open spec fn completed_count(chs: Seq<(Seq<char>, JsonV)>) -> nat
    decreases chs.len(),
{
    if chs.len() == 0 {
        0
    } else {
        completed_count(chs.drop_last()) + if is_complete(chs.last().1) {
            1nat
        } else {
            0nat
        }
    }
}

/// Counting complete chapters: none among no chapters; one more for a
/// chapter whose `status` is the string `complete`; no more for any other
/// chapter, whatever other status it has.
pub proof fn law_complete_count(chs: Seq<(Seq<char>, JsonV)>, key: Seq<char>, chapter: JsonV)
    ensures
        completed_count(Seq::empty()) == 0,
        get_field(chapter, "status"@) == Some(JsonV::Str("complete"@)) ==> completed_count(chs.push((key, chapter)))
            == completed_count(chs) + 1,
        get_field(chapter, "status"@) != Some(JsonV::Str("complete"@)) ==> completed_count(chs.push((key, chapter)))
            == completed_count(chs),
{
    let c = chs.push((key, chapter));
    assert(c.drop_last() =~= chs);
    assert(c.last() == (key, chapter));
}

/// A member that is a non-negative integer.
pub open spec fn as_count(v: Option<JsonV>) -> Option<u64> {
    match v {
        Some(JsonV::Number(n)) => match n.kind {
            NumKindV::PosInt(x) => Some(x),
            _ => None,
        },
        _ => None,
    }
}

/// How a course record is listed: its title (its id when it has none),
/// version and install time (empty when absent), its number of chapters as
/// recorded (or else the number of chapters with progress), the number of
/// complete chapters and its project folder.
pub open spec fn course_summary(id: Seq<char>, data: JsonV) -> InstalledCourseV {
    let listed = match get_field(data, "chapters"@) {
        Some(JsonV::Object(chs)) => Some(chs),
        _ => None,
    };
    InstalledCourseV {
        id: id,
        title: text_or(get_field(data, "title"@), id),
        version: text_or(get_field(data, "version"@), Seq::empty()),
        installed_at: text_or(get_field(data, "installed_at"@), Seq::empty()),
        chapters_total: match as_count(get_field(data, "chapters_total"@)) {
            Some(n) => (n as usize) as nat,
            None => match listed {
                Some(chs) => chs.len(),
                None => 0,
            },
        },
        chapters_complete: match listed {
            Some(chs) => completed_count(chs),
            None => 0,
        },
        project_folder: as_text(get_field(data, "project_folder"@)),
    }
}

pub open spec fn summaries(es: Seq<(Seq<char>, JsonV)>) -> Seq<InstalledCourseV> {
    es.map_values(|e: (Seq<char>, JsonV)| course_summary(e.0, e.1))
}

/// Where a course goes in a list ordered newest first: after every course
/// installed at the same time or later.
pub open spec fn desc_position(sorted: Seq<InstalledCourseV>, stamp: Seq<char>) -> nat
    decreases sorted.len(),
{
    if sorted.len() == 0 {
        0
    } else if text_less(sorted[0].installed_at, stamp) {
        0
    } else {
        1 + desc_position(sorted.drop_first(), stamp)
    }
}

/// The courses ordered by install time, newest first; courses with the same
/// install time keep their order (a stable sort).
pub open spec fn newest_first(xs: Seq<InstalledCourseV>) -> Seq<InstalledCourseV>
    decreases xs.len(),
{
    if xs.len() == 0 {
        Seq::empty()
    } else {
        let s = newest_first(xs.drop_last());
        s.insert(desc_position(s, xs.last().installed_at) as int, xs.last())
    }
}

/// The installed courses: one per record of `progress["courses"]` (none when
/// that is not an object), newest first.
pub open spec fn installed_in(p: JsonV) -> Seq<InstalledCourseV> {
    match get_field(p, "courses"@) {
        Some(JsonV::Object(cs)) => newest_first(summaries(cs)),
        _ => Seq::empty(),
    }
}

fn text_member(data: &Json, key: &str, default: &str) -> (r: String)
    ensures
        r@ == text_or(get_field(data@, key@), default@),
{
    match data.field(key) {
        Some(Json::Str(s)) => s.clone(),
        _ => String::from_str(default),
    }
}

fn completed_chapters(chs: &Vec<(String, Json)>) -> (n: usize)
    ensures
        n == completed_count(view_entries(chs@)),
{
    let ghost cv = view_entries(chs@);
    let mut n: usize = 0;
    let mut i: usize = 0;
    assert(cv.take(0) =~= Seq::<(Seq<char>, JsonV)>::empty());
    while i < chs.len()
        invariant
            i <= chs.len(),
            cv == view_entries(chs@),
            n == completed_count(cv.take(i as int)),
            n <= i,
        decreases chs.len() - i,
    {
        proof {
            reveal_strlit("status");
            reveal_strlit("complete");
            assert(cv.take(i + 1).drop_last() =~= cv.take(i as int));
            assert(cv.take(i + 1).last() == cv[i as int]);
        }
        let done = match chs[i].1.field("status") {
            Some(Json::Str(st)) => str_equal(st.as_str(), "complete"),
            _ => false,
        };
        if done {
            n = n + 1;
        }
        i = i + 1;
    }
    assert(cv.take(i as int) =~= cv);
    n
}

/// How a course record is listed (see `course_summary`).
fn summary_of(id: &String, data: &Json) -> (r: InstalledCourse)
    ensures
        r@ == course_summary(id@, data@),
{
    proof {
        reveal_strlit("title");
        reveal_strlit("version");
        reveal_strlit("installed_at");
        reveal_strlit("chapters_total");
        reveal_strlit("chapters");
        reveal_strlit("project_folder");
        reveal_strlit("");
    }
    let listed: Option<&Vec<(String, Json)>> = match data.field("chapters") {
        Some(Json::Object(chs)) => Some(chs),
        _ => None,
    };
    let complete = match listed {
        Some(chs) => completed_chapters(chs),
        None => 0,
    };
    let total: usize = match data.field("chapters_total") {
        Some(Json::Number(n)) => match &n.kind {
            crate::json::NumKind::PosInt(x) => *x as usize,
            _ => match listed {
                Some(chs) => chs.len(),
                None => 0,
            },
        },
        _ => match listed {
            Some(chs) => chs.len(),
            None => 0,
        },
    };
    let folder = match data.field("project_folder") {
        Some(Json::Str(f)) => Some(f.clone()),
        _ => None,
    };
    let r = InstalledCourse {
        id: id.clone(),
        title: text_member(data, "title", id.as_str()),
        version: text_member(data, "version", ""),
        installed_at: text_member(data, "installed_at", ""),
        chapters_total: total,
        chapters_complete: complete,
        project_folder: folder,
    };
    assert(""@ =~= Seq::<char>::empty());
    r
}

/// Where a course goes in a list ordered newest first (see `desc_position`).
fn newest_position(sorted: &Vec<InstalledCourse>, stamp: &str) -> (p: usize)
    ensures
        p == desc_position(courses_view(sorted@), stamp@),
{
    let ghost sv = courses_view(sorted@);
    let mut i: usize = 0;
    assert(sv.skip(0) =~= sv);
    while i < sorted.len()
        invariant
            i <= sorted.len(),
            sv == courses_view(sorted@),
            desc_position(sv, stamp@) == i + desc_position(sv.skip(i as int), stamp@),
        decreases sorted.len() - i,
    {
        assert(sv.skip(i as int)[0] == sv[i as int]);
        if text_before(sorted[i].installed_at.as_str(), stamp) {
            return i;
        }
        assert(sv.skip(i as int).drop_first() =~= sv.skip(i + 1));
        i = i + 1;
    }
    assert(sv.skip(i as int).len() == 0);
    i
}

/// The installed courses, newest first (see `installed_in`).
pub fn installed_courses(progress: &Json) -> (r: Vec<InstalledCourse>)
    ensures
        courses_view(r@) == installed_in(progress@),
{
    proof {
        reveal_strlit("courses");
    }
    let mut out: Vec<InstalledCourse> = Vec::new();
    match progress.field("courses") {
        Some(Json::Object(cs)) => {
            let ghost cv = view_entries(cs@);
            let mut i: usize = 0;
            assert(summaries(cv.take(0)) =~= Seq::<InstalledCourseV>::empty());
            assert(courses_view(out@) =~= Seq::<InstalledCourseV>::empty());
            while i < cs.len()
                invariant
                    i <= cs.len(),
                    cv == view_entries(cs@),
                    courses_view(out@) == newest_first(summaries(cv.take(i as int))),
                decreases cs.len() - i,
            {
                let x = summary_of(&cs[i].0, &cs[i].1);
                let ghost xs = summaries(cv.take(i + 1));
                proof {
                    assert(cv[i as int] == (cs@[i as int].0@, cs@[i as int].1@));
                    assert(xs.drop_last() =~= summaries(cv.take(i as int)));
                    assert(xs.last() == x@);
                }
                let p = newest_position(&out, x.installed_at.as_str());
                proof {
                    lemma_desc_position_bound(courses_view(out@), x@.installed_at);
                }
                let ghost before = out@;
                out.insert(p, x);
                assert(courses_view(out@) =~= courses_view(before).insert(p as int, x@));
                i = i + 1;
            }
            assert(cv.take(i as int) =~= cv);
        },
        _ => {
            assert(courses_view(out@) =~= Seq::<InstalledCourseV>::empty());
        },
    }
    out
}

proof fn lemma_desc_position_bound(sorted: Seq<InstalledCourseV>, stamp: Seq<char>)
    ensures
        desc_position(sorted, stamp) <= sorted.len(),
    decreases sorted.len(),
{
    if sorted.len() > 0 && !text_less(sorted[0].installed_at, stamp) {
        lemma_desc_position_bound(sorted.drop_first(), stamp);
    }
}

/// Whether a list of courses is ordered newest first.
pub open spec fn ordered_newest_first(s: Seq<InstalledCourseV>) -> bool {
    forall|i: int, j: int| 0 <= i < j < s.len() ==> !text_less(#[trigger] s[i].installed_at, #[trigger] s[j].installed_at)
}

proof fn lemma_desc_position_props(s: Seq<InstalledCourseV>, stamp: Seq<char>)
    ensures
        forall|k: int| 0 <= k < desc_position(s, stamp) ==> !text_less(#[trigger] s[k].installed_at, stamp),
        desc_position(s, stamp) < s.len() ==> text_less(s[desc_position(s, stamp) as int].installed_at, stamp),
    decreases s.len(),
{
    if s.len() > 0 && !text_less(s[0].installed_at, stamp) {
        let t = s.drop_first();
        lemma_desc_position_props(t, stamp);
        lemma_desc_position_bound(t, stamp);
        assert forall|k: int| 0 <= k < desc_position(s, stamp) implies !text_less(#[trigger] s[k].installed_at, stamp) by {
            if k > 0 {
                assert(s[k] == t[k - 1]);
            }
        }
        if desc_position(s, stamp) < s.len() {
            assert(s[desc_position(s, stamp) as int] == t[desc_position(t, stamp) as int]);
        }
    }
}

proof fn lemma_newest_first(xs: Seq<InstalledCourseV>)
    ensures
        ordered_newest_first(newest_first(xs)),
        newest_first(xs).to_multiset() == xs.to_multiset(),
    decreases xs.len(),
{
    broadcast use vstd::seq_lib::to_multiset_insert, vstd::seq_lib::to_multiset_build;

    if xs.len() == 0 {
        assert(newest_first(xs) =~= xs);
    } else {
        let s = newest_first(xs.drop_last());
        let x = xs.last();
        lemma_newest_first(xs.drop_last());
        lemma_desc_position_bound(s, x.installed_at);
        lemma_desc_position_props(s, x.installed_at);
        let p = desc_position(s, x.installed_at) as int;
        let r = s.insert(p, x);
        assert(r == newest_first(xs));
        assert forall|i: int, j: int| 0 <= i < j < r.len() implies !text_less(#[trigger] r[i].installed_at, #[trigger] r[j].installed_at) by {
            if j < p {
                assert(r[i] == s[i] && r[j] == s[j]);
            } else if j == p {
                assert(r[i] == s[i] && r[j] == x);
            } else if i < p {
                assert(r[i] == s[i] && r[j] == s[j - 1]);
            } else if i == p {
                assert(r[i] == x && r[j] == s[j - 1]);
                assert(text_less(s[p].installed_at, x.installed_at));
                if text_less(x.installed_at, s[j - 1].installed_at) {
                    lemma_text_less_transitive(s[p].installed_at, x.installed_at, s[j - 1].installed_at);
                    if j - 1 == p {
                        lemma_text_less_irreflexive(s[p].installed_at);
                    } else {
                        assert(!text_less(s[p].installed_at, s[j - 1].installed_at));
                    }
                }
            } else {
                assert(r[i] == s[i - 1] && r[j] == s[j - 1]);
            }
        }
        assert(xs =~= xs.drop_last().push(x));
    }
}

/// The installed courses are listed newest first, each course record
/// exactly once.
pub proof fn law_installed_newest_first(p: JsonV)
    ensures
        ordered_newest_first(installed_in(p)),
        get_field(p, "courses"@) matches Some(JsonV::Object(cs)) ==> installed_in(p).to_multiset() == summaries(cs).to_multiset(),
        installed_in(p).len() == match get_field(p, "courses"@) {
            Some(JsonV::Object(cs)) => cs.len(),
            _ => 0,
        },
{
    broadcast use vstd::seq_lib::to_multiset_len;

    match get_field(p, "courses"@) {
        Some(JsonV::Object(cs)) => {
            lemma_newest_first(summaries(cs));
            assert(installed_in(p).len() == installed_in(p).to_multiset().len());
            assert(summaries(cs).len() == summaries(cs).to_multiset().len());
        },
        _ => {},
    }
}

/// Whether courses installed at the same time are listed by id.
pub open spec fn ties_by_id(s: Seq<InstalledCourseV>) -> bool {
    forall|i: int, j: int| 0 <= i < j < s.len() && s[i].installed_at == s[j].installed_at
        ==> text_less(#[trigger] s[i].id, #[trigger] s[j].id)
}

proof fn lemma_newest_first_stable(xs: Seq<InstalledCourseV>)
    requires
        forall|i: int, j: int| 0 <= i < j < xs.len() ==> text_less(#[trigger] xs[i].id, #[trigger] xs[j].id),
    ensures
        ties_by_id(newest_first(xs)),
    decreases xs.len(),
{
    broadcast use vstd::seq_lib::to_multiset_contains;

    if xs.len() > 0 {
        let d = xs.drop_last();
        let x = xs.last();
        assert forall|i: int, j: int| 0 <= i < j < d.len() implies text_less(#[trigger] d[i].id, #[trigger] d[j].id) by {
            assert(d[i] == xs[i] && d[j] == xs[j]);
        }
        lemma_newest_first_stable(d);
        lemma_newest_first(d);
        let s = newest_first(d);
        lemma_desc_position_bound(s, x.installed_at);
        lemma_desc_position_props(s, x.installed_at);
        let p = desc_position(s, x.installed_at) as int;
        let r = s.insert(p, x);
        assert(r == newest_first(xs));
        assert forall|k: int| 0 <= k < s.len() implies text_less(#[trigger] s[k].id, x.id) by {
            assert(s.contains(s[k]));
            assert(s.to_multiset().count(s[k]) > 0);
            assert(d.contains(s[k]));
            let m = choose|m: int| 0 <= m < d.len() && d[m] == s[k];
            assert(xs[m] == d[m]);
            assert(xs[xs.len() - 1] == x);
        }
        assert forall|i: int, j: int| 0 <= i < j < r.len() && r[i].installed_at == r[j].installed_at
            implies text_less(#[trigger] r[i].id, #[trigger] r[j].id) by {
            if j < p {
                assert(r[i] == s[i] && r[j] == s[j]);
            } else if j == p {
                assert(r[i] == s[i] && r[j] == x);
            } else if i < p {
                assert(r[i] == s[i] && r[j] == s[j - 1]);
            } else if i == p {
                assert(r[i] == x && r[j] == s[j - 1]);
                assert(text_less(s[p].installed_at, x.installed_at));
                if j - 1 == p {
                    lemma_text_less_irreflexive(x.installed_at);
                } else {
                    assert(!text_less(s[p].installed_at, s[j - 1].installed_at));
                }
            } else {
                assert(r[i] == s[i - 1] && r[j] == s[j - 1]);
            }
        }
    }
}

/// In a well-formed progress file, courses installed at the same time are
/// listed in the order of their ids.
pub proof fn law_installed_ties_by_id(p: JsonV)
    requires
        crate::json::well_formed_json(p),
    ensures
        ties_by_id(installed_in(p)),
{
    reveal_strlit("courses");
    match get_field(p, "courses"@) {
        Some(JsonV::Object(cs)) => {
            let es = p->Object_0;
            crate::json::lemma_lookup_member(es, "courses"@);
            let k = choose|k: int| 0 <= k < es.len() && #[trigger] es[k].1 == JsonV::Object(cs);
            assert(crate::json::well_formed_json(es[k].1));
            let xs = summaries(cs);
            assert forall|i: int, j: int| 0 <= i < j < xs.len() implies text_less(#[trigger] xs[i].id, #[trigger] xs[j].id) by {
                assert(xs[i].id == cs[i].0 && xs[j].id == cs[j].0);
            }
            lemma_newest_first_stable(xs);
        },
        _ => {},
    }
}

// ── Files ───────────────────────────────────────────────────────────────────

/// The progress file in the app's data folder.
pub fn progress_file(data_dir: &str) -> (r: String)
    ensures
        r@ == joined(data_dir@, "progress.json"@),
{
    join_path(data_dir, "progress.json")
}

/// The folder where course archives are unpacked.
pub fn courses_dir(data_dir: &str) -> (r: String)
    ensures
        r@ == joined(data_dir@, "courses"@),
{
    join_path(data_dir, "courses")
}

/// The folder an installed course was unpacked into.
pub fn installed_course_path(data_dir: &str, course_id: &str) -> (r: String)
    ensures
        r@ == joined(joined(data_dir@, "courses"@), course_id@),
{
    let d = courses_dir(data_dir);
    join_path(d.as_str(), course_id)
}

/// The message for an installed course whose folder is missing.
pub fn course_not_found_message(course_id: &str, path: &str) -> (r: String)
    ensures
        r@ == "Course '"@ + course_id@ + "' not found at "@ + path@,
{
    let mut m = String::from_str("Course '");
    m.append(course_id);
    m.append("' not found at ");
    m.append(path);
    m
}

} // verus!
