//! The variable store of a test run and `{{name}}` templating: placeholders
//! are replaced by variable values, and values are captured from responses
//! by dotted paths such as `body.data.0.id`.

use vstd::prelude::*;
use crate::json::{Json, JsonV, view_items, view_entries, json_text, lookup, get_field, to_text};
use crate::text::{
    chars_of, string_of, occurs_at, occurs_in, matches_at, split_char, split_at_char, parse_unsigned,
    parse_unsigned_text, lemma_split_nonempty,
};

verus! {

// ── Replacing text ──────────────────────────────────────────────────────────

/// `s` with every occurrence of `pat` replaced by `rep`, scanning left to
/// right without overlaps (`str::replace`, for a non-empty pattern).
pub open spec fn replace_all(s: Seq<char>, pat: Seq<char>, rep: Seq<char>) -> Seq<char>
    decreases s.len(),
{
    if pat.len() == 0 || s.len() < pat.len() {
        s
    } else if s.subrange(0, pat.len() as int) == pat {
        rep + replace_all(s.skip(pat.len() as int), pat, rep)
    } else {
        seq![s[0]] + replace_all(s.skip(1), pat, rep)
    }
}

/// Text in which `pat` does not occur is left as it is.
pub proof fn law_replace_absent(s: Seq<char>, pat: Seq<char>, rep: Seq<char>)
    requires
        !occurs_in(s, pat),
    ensures
        replace_all(s, pat, rep) == s,
    decreases s.len(),
{
    if pat.len() > 0 && s.len() >= pat.len() {
        assert(s.subrange(0, pat.len() as int) != pat) by {
            assert(!occurs_at(s, pat, 0));
        }
        assert forall|i: int| 0 <= i && i + pat.len() <= s.skip(1).len() implies #[trigger] s.skip(1).subrange(i, i + pat.len()) != pat by {
            assert(s.skip(1).subrange(i, i + pat.len()) =~= s.subrange(i + 1, i + 1 + pat.len()));
            assert(!occurs_at(s, pat, i + 1));
        }
        law_replace_absent(s.skip(1), pat, rep);
        assert(seq![s[0]] + s.skip(1) =~= s);
    }
}

/// Replaces every occurrence of `pat` in `s` by `rep`.
pub fn replace_text(s: &str, pat: &str, rep: &str) -> (r: String)
    requires
        pat@.len() > 0,
    ensures
        r@ == replace_all(s@, pat@, rep@),
{
    let h = chars_of(s);
    let p = chars_of(pat);
    let rc = chars_of(rep);
    let mut out: Vec<char> = Vec::new();
    let mut i: usize = 0;
    assert(h@.skip(0) =~= h@);
    assert(out@ + replace_all(h@, p@, rc@) =~= replace_all(h@, p@, rc@));
    while i < h.len()
        invariant
            h@ == s@,
            p@ == pat@,
            rc@ == rep@,
            p@.len() > 0,
            i <= h.len(),
            out@ + replace_all(h@.skip(i as int), p@, rc@) == replace_all(s@, pat@, rep@),
        decreases h.len() - i,
    {
        let ghost rest = h@.skip(i as int);
        if matches_at(&h, &p, i) {
            proof {
                assert(rest.subrange(0, p@.len() as int) =~= h@.subrange(i as int, i + p@.len()));
                assert(rest.skip(p@.len() as int) =~= h@.skip(i + p@.len()));
            }
            let mut k: usize = 0;
            let ghost o = out@;
            while k < rc.len()
                invariant
                    k <= rc.len(),
                    out@ == o + rc@.take(k as int),
                decreases rc.len() - k,
            {
                out.push(rc[k]);
                k = k + 1;
                assert(out@ =~= o + rc@.take(k as int));
            }
            assert(rc@.take(k as int) =~= rc@);
            assert(out@ + replace_all(h@.skip(i + p@.len()), p@, rc@) =~= o + replace_all(rest, p@, rc@));
            i = i + p.len();
        } else {
            proof {
                if rest.len() >= p@.len() {
                    assert(rest.subrange(0, p@.len() as int) =~= h@.subrange(i as int, i + p@.len()));
                }
                assert(rest.skip(1) =~= h@.skip(i + 1));
                if rest.len() < p@.len() {
                    // the rest is kept whole; peel one character off it
                    assert(rest.skip(1).len() < p@.len());
                    assert(seq![rest[0]] + rest.skip(1) =~= rest);
                }
            }
            let ghost o = out@;
            out.push(h[i]);
            assert(out@ + replace_all(h@.skip(i + 1), p@, rc@) =~= o + replace_all(rest, p@, rc@));
            i = i + 1;
        }
    }
    proof {
        assert(h@.skip(i as int) =~= Seq::<char>::empty());
        assert(out@ + Seq::<char>::empty() =~= out@);
    }
    string_of(out.as_slice())
}


// ── The variable store ──────────────────────────────────────────────────────

/// Whether no name occurs twice among the entries.
pub open spec fn unique_names(vs: Seq<(Seq<char>, JsonV)>) -> bool {
    forall|i: int, j: int| 0 <= i < j < vs.len() ==> (#[trigger] vs[i]).0 != (#[trigger] vs[j]).0
}

/// The position of `name` among the entries, if present.
pub open spec fn name_index(vs: Seq<(Seq<char>, JsonV)>, name: Seq<char>) -> Option<int> {
    if exists|i: int| 0 <= i < vs.len() && (#[trigger] vs[i]).0 == name {
        Some(choose|i: int| 0 <= i < vs.len() && (#[trigger] vs[i]).0 == name)
    } else {
        None
    }
}

/// The entries after setting `name` to `value`: an existing entry keeps its
/// place and takes the new value, a new name goes last.
pub open spec fn set_var(vs: Seq<(Seq<char>, JsonV)>, name: Seq<char>, value: JsonV) -> Seq<(Seq<char>, JsonV)> {
    match name_index(vs, name) {
        Some(i) => vs.update(i, (name, value)),
        None => vs.push((name, value)),
    }
}

proof fn lemma_lookup_unique(vs: Seq<(Seq<char>, JsonV)>, name: Seq<char>, i: int)
    requires
        unique_names(vs),
        0 <= i < vs.len(),
        vs[i].0 == name,
    ensures
        lookup(vs, name) == Some(vs[i].1),
    decreases vs.len(),
{
    if i < vs.len() - 1 {
        assert(vs.last().0 != name) by {
            assert(vs[i].0 != vs[vs.len() - 1].0);
        }
        lemma_lookup_unique(vs.drop_last(), name, i);
    }
}

proof fn lemma_lookup_absent(vs: Seq<(Seq<char>, JsonV)>, name: Seq<char>)
    requires
        forall|i: int| 0 <= i < vs.len() ==> (#[trigger] vs[i]).0 != name,
    ensures
        lookup(vs, name) is None,
    decreases vs.len(),
{
    if vs.len() > 0 {
        lemma_lookup_absent(vs.drop_last(), name);
    }
}

/// After setting a variable, reading it gives the value set, and every other
/// variable reads as before.
pub proof fn law_set_then_get(vs: Seq<(Seq<char>, JsonV)>, name: Seq<char>, value: JsonV, other: Seq<char>)
    requires
        unique_names(vs),
    ensures
        unique_names(set_var(vs, name, value)),
        lookup(set_var(vs, name, value), name) == Some(value),
        other != name ==> lookup(set_var(vs, name, value), other) == lookup(vs, other),
{
    let r = set_var(vs, name, value);
    match name_index(vs, name) {
        Some(i) => {
            assert(unique_names(r));
            lemma_lookup_unique(r, name, i);
            if other != name {
                if exists|j: int| 0 <= j < vs.len() && (#[trigger] vs[j]).0 == other {
                    let j = choose|j: int| 0 <= j < vs.len() && (#[trigger] vs[j]).0 == other;
                    lemma_lookup_unique(vs, other, j);
                    lemma_lookup_unique(r, other, j);
                } else {
                    lemma_lookup_absent(vs, other);
                    assert forall|j: int| 0 <= j < r.len() implies (#[trigger] r[j]).0 != other by {
                        if j != i {
                            assert(r[j] == vs[j]);
                        }
                    }
                    lemma_lookup_absent(r, other);
                }
            }
        },
        None => {
            assert(r.last() == (name, value));
            assert(r.drop_last() =~= vs);
            assert(unique_names(r));
        },
    }
}

/// Variables captured during a test run, each name once.
pub struct Vars {
    entries: Vec<(String, Json)>,
}

impl View for Vars {
    type V = Seq<(Seq<char>, JsonV)>;

    closed spec fn view(&self) -> Seq<(Seq<char>, JsonV)> {
        view_entries(self.entries@)
    }
}

impl Vars {
    #[verifier::type_invariant]
    closed spec fn inv(&self) -> bool {
        unique_names(view_entries(self.entries@))
    }

    /// An empty store.
    pub fn new() -> (r: Vars)
        ensures
            r@ == Seq::<(Seq<char>, JsonV)>::empty(),
    {
        let r = Vars { entries: Vec::new() };
        assert(view_entries(r.entries@) =~= Seq::<(Seq<char>, JsonV)>::empty());
        r
    }

    /// The entries of the store, in order.
    pub fn entries(&self) -> (r: &Vec<(String, Json)>)
        ensures
            view_entries(r@) == self@,
    {
        &self.entries
    }

    /// The value of a variable.
    pub fn get(&self, name: &str) -> (r: Option<&Json>)
        ensures
            match r {
                Some(v) => lookup(self@, name@) == Some(v@),
                None => lookup(self@, name@) is None,
            },
    {
        let ghost vs = self@;
        let mut i: usize = 0;
        while i < self.entries.len()
            invariant
                i <= self.entries.len(),
                vs == view_entries(self.entries@),
                forall|j: int| 0 <= j < i ==> (#[trigger] vs[j]).0 != name@,
            decreases self.entries.len() - i,
        {
            if crate::text::str_equal(self.entries[i].0.as_str(), name) {
                proof {
                    use_type_invariant(self);
                    lemma_lookup_unique(vs, name@, i as int);
                }
                return Some(&self.entries[i].1);
            }
            i = i + 1;
        }
        proof {
            lemma_lookup_absent(vs, name@);
        }
        None
    }

    /// Sets a variable (replacing any earlier value).
    pub fn set(&mut self, name: String, value: Json)
        ensures
            final(self)@ == set_var(old(self)@, name@, value@),
    {
        proof {
            use_type_invariant(&*self);
        }
        let ghost vs = self@;
        let ghost nv = (name@, value@);
        proof {
            law_set_then_get(vs, name@, value@, name@);
        }
        let mut found: Option<usize> = None;
        let mut i: usize = 0;
        while i < self.entries.len()
            invariant_except_break
                found is None,
            invariant
                i <= self.entries.len(),
                vs == view_entries(self.entries@),
                unique_names(vs),
                forall|j: int| 0 <= j < i ==> (#[trigger] vs[j]).0 != name@,
            ensures
                match found {
                    Some(k) => k < vs.len() && vs[k as int].0 == name@,
                    None => forall|j: int| 0 <= j < vs.len() ==> (#[trigger] vs[j]).0 != name@,
                },
            decreases self.entries.len() - i,
        {
            if crate::text::str_equal(self.entries[i].0.as_str(), name.as_str()) {
                found = Some(i);
                break;
            }
            i = i + 1;
        }
        let mut entries: Vec<(String, Json)> = Vec::new();
        std::mem::swap(&mut entries, &mut self.entries);
        assert(view_entries(entries@) == vs);
        match found {
            Some(k) => {
                proof {
                    let c = choose|c: int| 0 <= c < vs.len() && (#[trigger] vs[c]).0 == name@;
                    if c != k {
                        assert(vs[c].0 != vs[k as int].0);
                    }
                    assert(name_index(vs, name@) == Some(k as int));
                }
                entries.set(k, (name, value));
            },
            None => {
                assert(name_index(vs, name@) is None);
                entries.push((name, value));
            },
        }
        assert(view_entries(entries@) =~= set_var(vs, nv.0, nv.1));
        self.entries = entries;
    }
}

// ── Interpolation ───────────────────────────────────────────────────────────

/// The placeholder that stands for variable `name`: `{{name}}`.
pub open spec fn placeholder(name: Seq<char>) -> Seq<char> {
    "{{"@ + name + "}}"@
}

/// The text a variable's value is written as: a string's content, or the
/// compact JSON text of any other value.
pub open spec fn replacement(v: JsonV) -> Seq<char> {
    match v {
        JsonV::Str(s) => s,
        _ => json_text(v),
    }
}

/// `s` with the placeholder of every variable replaced by its value, the
/// variables taken in store order.
pub open spec fn interpolated(s: Seq<char>, vars: Seq<(Seq<char>, JsonV)>) -> Seq<char>
    decreases vars.len(),
{
    if vars.len() == 0 {
        s
    } else {
        replace_all(interpolated(s, vars.drop_last()), placeholder(vars.last().0), replacement(vars.last().1))
    }
}

/// Text holding no placeholder of any variable comes out unchanged.
pub proof fn law_interpolate_plain(s: Seq<char>, vars: Seq<(Seq<char>, JsonV)>)
    requires
        forall|i: int| 0 <= i < vars.len() ==> !occurs_in(s, placeholder(#[trigger] vars[i].0)),
    ensures
        interpolated(s, vars) == s,
    decreases vars.len(),
{
    if vars.len() > 0 {
        assert forall|i: int| 0 <= i < vars.drop_last().len() implies !occurs_in(s, placeholder(#[trigger] vars.drop_last()[i].0)) by {
            assert(vars.drop_last()[i] == vars[i]);
        }
        law_interpolate_plain(s, vars.drop_last());
        law_replace_absent(s, placeholder(vars.last().0), replacement(vars.last().1));
    }
}

fn replacement_text(v: &Json) -> (r: String)
    ensures
        r@ == replacement(v@),
{
    match v {
        Json::Str(s) => s.clone(),
        _ => to_text(v),
    }
}

/// Replaces every `{{name}}` placeholder of a stored variable in `s`.
pub fn interpolate(s: &str, vars: &Vars) -> (r: String)
    ensures
        r@ == interpolated(s@, vars@),
{
    let es = vars.entries();
    let ghost vs = vars@;
    let mut result = String::from_str(s);
    let mut i: usize = 0;
    while i < es.len()
        invariant
            vs == view_entries(es@),
            i <= es.len(),
            result@ == interpolated(s@, vs.take(i as int)),
        decreases es.len() - i,
    {
        let mut ph = String::from_str("{{");
        ph.append(es[i].0.as_str());
        ph.append("}}");
        proof {
            reveal_strlit("{{");
        }
        let rep = replacement_text(&es[i].1);
        assert(ph@ == placeholder(vs[i as int].0));
        result = replace_text(result.as_str(), ph.as_str(), rep.as_str());
        proof {
            let t = vs.take(i + 1);
            assert(t.drop_last() =~= vs.take(i as int));
            assert(t.last() == vs[i as int]);
        }
        i = i + 1;
    }
    assert(vs.take(i as int) =~= vs);
    result
}

/// A JSON value with every string in it (at any depth) interpolated;
/// object keys and other values are kept.
pub open spec fn interpolated_json(v: JsonV, vars: Seq<(Seq<char>, JsonV)>) -> JsonV
    decreases v,
{
    match v {
        JsonV::Str(s) => JsonV::Str(interpolated(s, vars)),
        JsonV::Array(xs) => JsonV::Array(interpolated_items(xs, vars)),
        JsonV::Object(es) => JsonV::Object(interpolated_entries(es, vars)),
        other => other,
    }
}

pub open spec fn interpolated_items(xs: Seq<JsonV>, vars: Seq<(Seq<char>, JsonV)>) -> Seq<JsonV>
    decreases xs,
{
    if xs.len() == 0 {
        Seq::empty()
    } else {
        interpolated_items(xs.drop_last(), vars).push(interpolated_json(xs.last(), vars))
    }
}

pub open spec fn interpolated_entries(es: Seq<(Seq<char>, JsonV)>, vars: Seq<(Seq<char>, JsonV)>) -> Seq<(Seq<char>, JsonV)>
    decreases es,
{
    if es.len() == 0 {
        Seq::empty()
    } else {
        interpolated_entries(es.drop_last(), vars).push((es.last().0, interpolated_json(es.last().1, vars)))
    }
}

/// Interpolates every string value inside `val`.
pub fn interpolate_value(val: &Json, vars: &Vars) -> (r: Json)
    ensures
        r@ == interpolated_json(val@, vars@),
    decreases val,
{
    match val {
        Json::Str(s) => Json::Str(interpolate(s.as_str(), vars)),
        Json::Array(xs) => {
            let ghost vx = view_items(xs@);
            let mut out: Vec<Json> = Vec::new();
            let mut i: usize = 0;
            while i < xs.len()
                invariant
                    *val == Json::Array(*xs),
                    vx == view_items(xs@),
                    i <= xs.len(),
                    view_items(out@) == interpolated_items(vx.take(i as int), vars@),
                decreases xs.len() - i,
            {
                proof {
                    assert(val->Array_0 == *xs);
                    assert(decreases_to!(*val => *xs));
                    assert(decreases_to!(*xs => xs@));
                    assert(decreases_to!(xs@ => xs@[i as int]));
                }
                let ghost before = out@;
                let item = interpolate_value(&xs[i], vars);
                out.push(item);
                proof {
                    let t = vx.take(i + 1);
                    assert(t.drop_last() =~= vx.take(i as int));
                    assert(t.last() == xs@[i as int]@);
                    assert(out@ == before.push(item));
                    assert(view_items(out@) =~= view_items(before).push(item@));
                }
                i = i + 1;
            }
            assert(vx.take(i as int) =~= vx);
            Json::Array(out)
        },
        Json::Object(es) => {
            let ghost ve = view_entries(es@);
            let mut out: Vec<(String, Json)> = Vec::new();
            let mut i: usize = 0;
            while i < es.len()
                invariant
                    *val == Json::Object(*es),
                    ve == view_entries(es@),
                    i <= es.len(),
                    view_entries(out@) == interpolated_entries(ve.take(i as int), vars@),
                decreases es.len() - i,
            {
                proof {
                    assert(val->Object_0 == *es);
                    assert(decreases_to!(*val => *es));
                    assert(decreases_to!(*es => es@));
                    assert(decreases_to!(es@ => es@[i as int]));
                    assert(decreases_to!(es@[i as int] => es@[i as int].1));
                }
                let ghost before = out@;
                let item = (es[i].0.clone(), interpolate_value(&es[i].1, vars));
                let ghost iv = (item.0@, item.1@);
                out.push(item);
                proof {
                    let t = ve.take(i + 1);
                    assert(t.drop_last() =~= ve.take(i as int));
                    assert(t.last() == (es@[i as int].0@, es@[i as int].1@));
                    assert(view_entries(out@) =~= view_entries(before).push(iv));
                }
                i = i + 1;
            }
            assert(ve.take(i as int) =~= ve);
            Json::Object(out)
        },
        other => other.duplicate(),
    }
}


// ── Paths into responses ────────────────────────────────────────────────────

/// One step of a dotted path: a segment that reads as an unsigned index
/// selects an array element, any other segment selects an object member.
pub open spec fn path_step(cur: JsonV, seg: Seq<char>) -> Option<JsonV> {
    match parse_unsigned(seg, usize::MAX as nat) {
        Some(idx) => match cur {
            JsonV::Array(xs) => if idx < xs.len() {
                Some(xs[idx as int])
            } else {
                None
            },
            _ => None,
        },
        None => get_field(cur, seg),
    }
}

/// Follows the segments from `cur`, failing when a step finds nothing.
pub open spec fn walk_path(cur: JsonV, segs: Seq<Seq<char>>) -> Option<JsonV>
    decreases segs.len(),
{
    if segs.len() == 0 {
        Some(cur)
    } else {
        match path_step(cur, segs[0]) {
            Some(next) => walk_path(next, segs.drop_first()),
            None => None,
        }
    }
}

/// The value a dotted path such as `body.data.0.id` selects in `root`.
pub open spec fn extracted(root: JsonV, path: Seq<char>) -> Option<JsonV> {
    walk_path(root, split_char(path, '.'))
}

/// Selects the value at a dotted path (see `extracted`).
pub fn extract_path<'a>(root: &'a Json, path: &str) -> (r: Option<&'a Json>)
    ensures
        match r {
            Some(v) => extracted(root@, path@) == Some(v@),
            None => extracted(root@, path@) is None,
        },
{
    let segs = split_at_char(path, '.');
    let ghost sv = segs.deep_view();
    let mut cur: &Json = root;
    let mut i: usize = 0;
    assert(sv.skip(0) =~= sv);
    while i < segs.len()
        invariant
            sv == segs.deep_view(),
            sv == split_char(path@, '.'),
            i <= segs.len(),
            walk_path(root@, sv) == walk_path(cur@, sv.skip(i as int)),
        decreases segs.len() - i,
    {
        let seg = segs[i].as_str();
        proof {
            assert(sv.skip(i as int)[0] == seg@);
            assert(sv.skip(i as int).drop_first() =~= sv.skip(i + 1));
        }
        let next: Option<&Json> = match parse_unsigned_text(seg, usize::MAX as u64) {
            Some(idx) => match cur {
                Json::Array(xs) => {
                    if idx < xs.len() as u64 {
                        assert(view_items(xs@)[idx as int] == xs@[idx as int]@);
                        Some(&xs[idx as usize])
                    } else {
                        None
                    }
                },
                _ => None,
            },
            None => cur.field(seg),
        };
        match next {
            Some(n) => {
                cur = n;
            },
            None => {
                return None;
            },
        }
        i = i + 1;
    }
    assert(sv.skip(i as int) =~= Seq::<Seq<char>>::empty());
    Some(cur)
}

/// The object `{"body": body}` that capture paths are read from.
pub open spec fn capture_root(body: JsonV) -> JsonV {
    JsonV::Object(seq![("body"@, body)])
}

/// The variables after capturing: each `(name, path)` whose path selects a
/// value in `{"body": body}` sets `name` to that value, in order.
pub open spec fn captured(
    captures: Seq<(Seq<char>, Seq<char>)>,
    body: JsonV,
    vars: Seq<(Seq<char>, JsonV)>,
) -> Seq<(Seq<char>, JsonV)>
    decreases captures.len(),
{
    if captures.len() == 0 {
        vars
    } else {
        let prev = captured(captures.drop_last(), body, vars);
        match extracted(capture_root(body), captures.last().1) {
            Some(v) => set_var(prev, captures.last().0, v),
            None => prev,
        }
    }
}

/// Captures variables from a response body.
pub fn apply_captures(captures: &Vec<(String, String)>, body: &Json, vars: &mut Vars)
    ensures
        final(vars)@ == captured(
            captures@.map_values(|c: (String, String)| (c.0@, c.1@)),
            body@,
            old(vars)@,
        ),
{
    let ghost cv = captures@.map_values(|c: (String, String)| (c.0@, c.1@));
    let ghost v0 = vars@;
    let mut wrapped_entries: Vec<(String, Json)> = Vec::new();
    wrapped_entries.push((String::from_str("body"), body.duplicate()));
    let wrapped = Json::Object(wrapped_entries);
    assert(view_entries(wrapped_entries@) =~= seq![("body"@, body@)]);
    assert(wrapped@ == capture_root(body@));
    let mut i: usize = 0;
    while i < captures.len()
        invariant
            cv == captures@.map_values(|c: (String, String)| (c.0@, c.1@)),
            wrapped@ == capture_root(body@),
            i <= captures.len(),
            vars@ == captured(cv.take(i as int), body@, v0),
        decreases captures.len() - i,
    {
        proof {
            let t = cv.take(i + 1);
            assert(t.drop_last() =~= cv.take(i as int));
            assert(t.last() == (captures@[i as int].0@, captures@[i as int].1@));
        }
        match extract_path(&wrapped, captures[i].1.as_str()) {
            Some(val) => {
                vars.set(captures[i].0.clone(), val.duplicate());
            },
            None => {},
        }
        i = i + 1;
    }
    assert(cv.take(i as int) =~= cv);
}

} // verus!
