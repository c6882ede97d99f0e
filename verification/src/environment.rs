//! Reading the Python environment of a project: interpreter versions,
//! virtual environments and dependency names. The processes and file
//! checks are made by the caller; this module decides from their results.

use vstd::prelude::*;
use crate::course::{numeric_parts, part_or_zero, triple_at_least, at_least};
use crate::path::{joined, join_path};
use crate::text::{
    chars_of, string_of, split_char, split_at_char, parse_unsigned, parse_unsigned_text, lemma_split_nonempty,
    occurs_in, str_contains, lowercase, to_lowercase,
};

verus! {

/// The interpreter found for a project.
pub struct PythonInfo {
    pub found: bool,
    /// e.g. `python3`
    pub binary: String,
    /// e.g. `Python 3.11.4`
    pub version: String,
    pub meets_min: bool,
}

/// The virtual environment found in a project.
pub struct VenvInfo {
    pub found: bool,
    pub path: String,
    pub python_bin: String,
    pub pip_bin: String,
}

/// Whether a dependency is installed.
pub struct DepStatus {
    pub name: String,
    pub installed: bool,
}

/// The environment of a project.
pub struct EnvStatus {
    pub python: PythonInfo,
    pub venv: VenvInfo,
    pub dependencies: Vec<DepStatus>,
}

// ── Whitespace ──────────────────────────────────────────────────────────────

/// The characters with the Unicode White_Space property
/// (`char::is_whitespace`).
pub open spec fn is_white(c: char) -> bool {
    let u = c as u32;
    (0x09 <= u && u <= 0x0D) || u == 0x20 || u == 0x85 || u == 0xA0 || u == 0x1680 || (0x2000 <= u && u <= 0x200A)
        || u == 0x2028 || u == 0x2029 || u == 0x202F || u == 0x205F || u == 0x3000
}

/// Whether a character is whitespace (`char::is_whitespace`).
pub fn white(c: char) -> (r: bool)
    ensures
        r == is_white(c),
{
    let u = c as u32;
    (0x09 <= u && u <= 0x0D) || u == 0x20 || u == 0x85 || u == 0xA0 || u == 0x1680 || (0x2000 <= u && u <= 0x200A)
        || u == 0x2028 || u == 0x2029 || u == 0x202F || u == 0x205F || u == 0x3000
}

pub open spec fn trim_start(s: Seq<char>) -> Seq<char>
    decreases s.len(),
{
    if s.len() > 0 && is_white(s[0]) {
        trim_start(s.skip(1))
    } else {
        s
    }
}

pub open spec fn trim_end(s: Seq<char>) -> Seq<char>
    decreases s.len(),
{
    if s.len() > 0 && is_white(s.last()) {
        trim_end(s.drop_last())
    } else {
        s
    }
}

/// `s` without leading and trailing whitespace (`str::trim`).
pub open spec fn trimmed(s: Seq<char>) -> Seq<char> {
    trim_end(trim_start(s))
}

proof fn lemma_trim_start_skip(s: Seq<char>, i: int)
    requires
        0 <= i <= s.len(),
        forall|k: int| 0 <= k < i ==> is_white(#[trigger] s[k]),
    ensures
        trim_start(s) == trim_start(s.skip(i)),
    decreases i,
{
    if i > 0 {
        assert(s.skip(1).skip(i - 1) =~= s.skip(i));
        assert forall|k: int| 0 <= k < i - 1 implies is_white(#[trigger] s.skip(1)[k]) by {
            assert(s.skip(1)[k] == s[k + 1]);
        }
        lemma_trim_start_skip(s.skip(1), i - 1);
    } else {
        assert(s.skip(0) =~= s);
    }
}

proof fn lemma_trim_end_take(s: Seq<char>, j: int)
    requires
        0 <= j <= s.len(),
        forall|k: int| j <= k < s.len() ==> is_white(#[trigger] s[k]),
    ensures
        trim_end(s) == trim_end(s.take(j)),
    decreases s.len() - j,
{
    if j < s.len() {
        assert(s.drop_last().take(j) =~= s.take(j));
        lemma_trim_end_take(s.drop_last(), j);
    } else {
        assert(s.take(j) =~= s);
    }
}

/// The text without leading and trailing whitespace.
pub fn trim(s: &str) -> (r: String)
    ensures
        r@ == trimmed(s@),
{
    let cs = chars_of(s);
    let mut i: usize = 0;
    while i < cs.len() && white(cs[i])
        invariant
            cs@ == s@,
            i <= cs.len(),
            forall|k: int| 0 <= k < i ==> is_white(#[trigger] cs@[k]),
        decreases cs.len() - i,
    {
        i = i + 1;
    }
    proof {
        lemma_trim_start_skip(cs@, i as int);
    }
    let ghost rest = cs@.skip(i as int);
    assert(i < cs.len() ==> !is_white(rest[0]));
    assert(trim_start(rest) == rest);
    let mut j: usize = cs.len();
    while j > i && white(cs[j - 1])
        invariant
            cs@ == s@,
            i <= j <= cs.len(),
            forall|k: int| j <= k < cs.len() ==> is_white(#[trigger] cs@[k]),
        decreases j,
    {
        j = j - 1;
    }
    proof {
        assert forall|k: int| j - i <= k < rest.len() implies is_white(#[trigger] rest[k]) by {
            assert(rest[k] == cs@[k + i]);
        }
        lemma_trim_end_take(rest, j - i);
        assert(rest.take(j - i) =~= cs@.subrange(i as int, j as int));
        if j > i {
            assert(!is_white(rest.take(j - i).last()));
        }
    }
    let mut out: Vec<char> = Vec::new();
    let mut k: usize = i;
    while k < j
        invariant
            i <= k <= j <= cs.len(),
            out@ == cs@.subrange(i as int, k as int),
        decreases j - k,
    {
        out.push(cs[k]);
        k = k + 1;
        assert(out@ =~= cs@.subrange(i as int, k as int));
    }
    string_of(out.as_slice())
}

// ── Interpreter versions ────────────────────────────────────────────────────

/// `s` with `prefix` removed from its start as many times as it occurs
/// there (`str::trim_start_matches`).
pub open spec fn strip_repeated(s: Seq<char>, prefix: Seq<char>) -> Seq<char>
    decreases s.len(),
{
    if prefix.len() > 0 && s.len() >= prefix.len() && s.take(prefix.len() as int) == prefix {
        strip_repeated(s.skip(prefix.len() as int), prefix)
    } else {
        s
    }
}

/// The characters of `s` up to its first whitespace.
pub open spec fn until_white(s: Seq<char>) -> Seq<char>
    decreases s.len(),
{
    if s.len() == 0 || is_white(s[0]) {
        Seq::empty()
    } else {
        seq![s[0]] + until_white(s.skip(1))
    }
}

/// The first whitespace-separated word of `s`, if any.
pub open spec fn first_word(s: Seq<char>) -> Option<Seq<char>> {
    let t = trim_start(s);
    if t.len() == 0 {
        None
    } else {
        Some(until_white(t))
    }
}

/// The numbers among the pieces whose first word reads as a `u32`, in order.
pub open spec fn word_numbers(pieces: Seq<Seq<char>>) -> Seq<nat>
    decreases pieces.len(),
{
    if pieces.len() == 0 {
        Seq::empty()
    } else {
        let prev = word_numbers(pieces.drop_last());
        match first_word(pieces.last()) {
            Some(w) => match parse_unsigned(w, u32::MAX as nat) {
                Some(v) => prev.push(v),
                None => prev,
            },
            None => prev,
        }
    }
}

/// Major, minor and patch of an interpreter's version output such as
/// `Python 3.11.4`: leading `Python` and `python` and surrounding
/// whitespace are dropped, then the first word of each dot-separated piece
/// that is a number counts; missing numbers are 0.
pub open spec fn python_version_triple(v: Seq<char>) -> (nat, nat, nat) {
    let stripped = trimmed(strip_repeated(strip_repeated(v, "Python"@), "python"@));
    let ns = word_numbers(split_char(stripped, '.'));
    (part_or_zero(ns, 0), part_or_zero(ns, 1), part_or_zero(ns, 2))
}

/// Whether an interpreter version meets a minimum version.
pub open spec fn version_meets_min_spec(version: Seq<char>, min: Seq<char>) -> bool {
    triple_at_least(python_version_triple(version), python_version_triple(min))
}

fn strip_prefix_repeated(s: &str, prefix: &str) -> (r: String)
    requires
        prefix@.len() > 0,
    ensures
        r@ == strip_repeated(s@, prefix@),
{
    let cs = chars_of(s);
    let p = chars_of(prefix);
    let mut i: usize = 0;
    assert(cs@.skip(0) =~= cs@);
    while crate::text::matches_at(&cs, &p, i)
        invariant
            cs@ == s@,
            p@ == prefix@,
            p@.len() > 0,
            i <= cs.len(),
            strip_repeated(s@, prefix@) == strip_repeated(cs@.skip(i as int), prefix@),
        decreases cs.len() - i,
    {
        proof {
            let rest = cs@.skip(i as int);
            assert(rest.take(p@.len() as int) =~= cs@.subrange(i as int, i + p@.len()));
            assert(rest.skip(p@.len() as int) =~= cs@.skip(i + p@.len()));
        }
        i = i + p.len();
    }
    proof {
        let rest = cs@.skip(i as int);
        if rest.len() >= p@.len() {
            assert(rest.take(p@.len() as int) =~= cs@.subrange(i as int, i + p@.len()));
        }
    }
    let mut out: Vec<char> = Vec::new();
    let mut k: usize = i;
    while k < cs.len()
        invariant
            i <= k <= cs.len(),
            out@ == cs@.subrange(i as int, k as int),
        decreases cs.len() - k,
    {
        out.push(cs[k]);
        k = k + 1;
        assert(out@ =~= cs@.subrange(i as int, k as int));
    }
    assert(out@ =~= cs@.skip(i as int));
    string_of(out.as_slice())
}

fn first_word_of(s: &str) -> (r: Option<String>)
    ensures
        match r {
            Some(w) => first_word(s@) == Some(w@),
            None => first_word(s@) is None,
        },
{
    let cs = chars_of(s);
    let mut i: usize = 0;
    while i < cs.len() && white(cs[i])
        invariant
            cs@ == s@,
            i <= cs.len(),
            forall|k: int| 0 <= k < i ==> is_white(#[trigger] cs@[k]),
        decreases cs.len() - i,
    {
        i = i + 1;
    }
    proof {
        lemma_trim_start_skip(cs@, i as int);
        if i < cs.len() {
            assert(!is_white(cs@.skip(i as int)[0]));
        }
    }
    if i == cs.len() {
        return None;
    }
    let ghost t = cs@.skip(i as int);
    let mut j: usize = i;
    while j < cs.len() && !white(cs[j])
        invariant
            cs@ == s@,
            i <= j <= cs.len(),
            t == cs@.skip(i as int),
            until_white(t) == cs@.subrange(i as int, j as int) + until_white(cs@.skip(j as int)),
        decreases cs.len() - j,
    {
        proof {
            let u = cs@.skip(j as int);
            assert(u.skip(1) =~= cs@.skip(j + 1));
            assert(cs@.subrange(i as int, j + 1) =~= cs@.subrange(i as int, j as int) + seq![u[0]]);
        }
        j = j + 1;
    }
    proof {
        assert(cs@.skip(i as int) =~= Seq::<char>::empty() + cs@.skip(i as int));
        assert(cs@.subrange(i as int, i as int) =~= Seq::<char>::empty());
        assert(until_white(cs@.skip(j as int)) =~= Seq::<char>::empty());
        assert(cs@.subrange(i as int, j as int) + Seq::<char>::empty() =~= cs@.subrange(i as int, j as int));
    }
    let mut out: Vec<char> = Vec::new();
    let mut k: usize = i;
    while k < j
        invariant
            i <= k <= j <= cs.len(),
            out@ == cs@.subrange(i as int, k as int),
        decreases j - k,
    {
        out.push(cs[k]);
        k = k + 1;
        assert(out@ =~= cs@.subrange(i as int, k as int));
    }
    Some(string_of(out.as_slice()))
}

/// Major, minor and patch of an interpreter version (see
/// `python_version_triple`).
pub fn parse_version(v: &str) -> (r: (u32, u32, u32))
    ensures
        (r.0 as nat, r.1 as nat, r.2 as nat) == python_version_triple(v@),
{
    proof {
        reveal_strlit("Python");
        reveal_strlit("python");
    }
    let a = strip_prefix_repeated(v, "Python");
    let b = strip_prefix_repeated(a.as_str(), "python");
    let stripped = trim(b.as_str());
    let pieces = split_at_char(stripped.as_str(), '.');
    let ghost pv = pieces.deep_view();
    let mut parts: Vec<u32> = Vec::new();
    let mut i: usize = 0;
    while i < pieces.len()
        invariant
            pv == pieces.deep_view(),
            pv == split_char(stripped@, '.'),
            i <= pieces.len(),
            parts@.len() == word_numbers(pv.take(i as int)).len(),
            forall|k: int| 0 <= k < parts@.len() ==> parts@[k] as nat == #[trigger] word_numbers(pv.take(i as int))[k],
        decreases pieces.len() - i,
    {
        proof {
            assert(pv.take(i + 1).drop_last() =~= pv.take(i as int));
            assert(pv.take(i + 1).last() == pieces@[i as int]@);
        }
        match first_word_of(pieces[i].as_str()) {
            Some(w) => match parse_unsigned_text(w.as_str(), u32::MAX as u64) {
                Some(n) => {
                    parts.push(n as u32);
                },
                None => {},
            },
            None => {},
        }
        i = i + 1;
    }
    assert(pv.take(i as int) =~= pv);
    let x: u32 = if parts.len() > 0 { parts[0] } else { 0 };
    let y: u32 = if parts.len() > 1 { parts[1] } else { 0 };
    let z: u32 = if parts.len() > 2 { parts[2] } else { 0 };
    (x, y, z)
}

/// Whether an interpreter version meets a minimum version.
pub fn version_meets_min(version: &str, min: &str) -> (r: bool)
    ensures
        r == version_meets_min_spec(version@, min@),
{
    at_least(parse_version(version), parse_version(min))
}


/// The version text a `--version` run printed: its standard output,
/// trimmed, unless that is empty; then its error output, trimmed, unless
/// that is empty too.
pub open spec fn version_output(stdout: Seq<char>, stderr: Seq<char>) -> Option<Seq<char>> {
    if trimmed(stdout).len() > 0 {
        Some(trimmed(stdout))
    } else if trimmed(stderr).len() > 0 {
        Some(trimmed(stderr))
    } else {
        None
    }
}

/// Picks the version text of a `--version` run (see `version_output`).
pub fn pick_version_output(stdout: &str, stderr: &str) -> (r: Option<String>)
    ensures
        match r {
            Some(v) => version_output(stdout@, stderr@) == Some(v@),
            None => version_output(stdout@, stderr@) is None,
        },
{
    let out = trim(stdout);
    if out.unicode_len() > 0 {
        return Some(out);
    }
    let err = trim(stderr);
    if err.unicode_len() > 0 {
        return Some(err);
    }
    None
}

/// The interpreter commands tried, in order.
pub open spec fn python_candidates_spec() -> Seq<Seq<char>> {
    seq!["python3"@, "python"@]
}

/// The interpreter commands tried, in order: `python3`, then `python`.
pub fn python_candidates() -> (r: Vec<String>)
    ensures
        r.deep_view() == python_candidates_spec(),
        r@.len() == 2,
{
    let mut r = Vec::new();
    r.push(String::from_str("python3"));
    r.push(String::from_str("python"));
    assert(r.deep_view() =~= python_candidates_spec());
    r
}

/// Whether a version output names Python (in any letter case).
pub open spec fn names_python(output: Seq<char>) -> bool {
    occurs_in(lowercase(output), "python"@)
}

/// The interpreter found when nothing answered as Python.
pub open spec fn no_python(info: PythonInfo) -> bool {
    !info.found && info.binary@.len() == 0 && info.version@.len() == 0 && !info.meets_min
}

/// Whether a probe's output names Python.
pub open spec fn answers(p: Option<Seq<char>>) -> bool {
    p matches Some(out) && names_python(out)
}

/// The position of the first probe that names Python.
pub open spec fn first_answer(ps: Seq<Option<Seq<char>>>) -> Option<int>
    decreases ps.len(),
{
    if ps.len() == 0 {
        None
    } else if answers(ps[0]) {
        Some(0)
    } else {
        match first_answer(ps.drop_first()) {
            Some(i) => Some(i + 1),
            None => None,
        }
    }
}

/// The first `n` elements, or all of them when there are fewer.
pub open spec fn prefix_upto<A>(s: Seq<A>, n: int) -> Seq<A> {
    if s.len() <= n {
        s
    } else {
        s.take(n)
    }
}

pub open spec fn probes_view(probes: Seq<Option<String>>) -> Seq<Option<Seq<char>>> {
    probes.map_values(|p: Option<String>| match p {
        Some(s) => Some(s@),
        None => None,
    })
}

proof fn lemma_first_answer(ps: Seq<Option<Seq<char>>>, k: int)
    requires
        0 <= k <= ps.len(),
        forall|m: int| 0 <= m < k ==> !answers(#[trigger] ps[m]),
    ensures
        k < ps.len() && answers(ps[k]) ==> first_answer(ps) == Some(k),
        k == ps.len() ==> first_answer(ps) is None,
    decreases k,
{
    if k > 0 {
        assert forall|m: int| 0 <= m < k - 1 implies !answers(#[trigger] ps.drop_first()[m]) by {
            assert(ps.drop_first()[m] == ps[m + 1]);
        }
        lemma_first_answer(ps.drop_first(), k - 1);
        assert(!answers(ps[0]));
    }
}

/// Decides which interpreter a project uses from the version outputs of
/// the candidates tried so far (`probes[k]` for candidate `k`, `None` when
/// it did not run or printed nothing): the first whose output names Python,
/// with whether its version meets `version_min`.
pub fn detect_python(version_min: &str, probes: &Vec<Option<String>>) -> (r: PythonInfo)
    ensures
        match first_answer(prefix_upto(probes_view(probes@), 2)) {
            Some(k) => {
                &&& r.found
                &&& r.binary@ == python_candidates_spec()[k]
                &&& probes@[k] matches Some(out) && r.version@ == out@ && r.meets_min == version_meets_min_spec(out@, version_min@)
            },
            None => no_python(r),
        },
{
    let cands = python_candidates();
    let ghost cv = cands.deep_view();
    let ghost pv = prefix_upto(probes_view(probes@), 2);
    assert(cands.len() == 2);
    let mut k: usize = 0;
    while k < probes.len() && k < cands.len()
        invariant
            cv == cands.deep_view(),
            cv == python_candidates_spec(),
            cands.len() == 2,
            pv == prefix_upto(probes_view(probes@), 2),
            k <= probes.len(),
            k <= 2,
            forall|m: int| 0 <= m < k ==> !answers(#[trigger] pv[m]),
        decreases probes.len() - k,
    {
        match &probes[k] {
            Some(out) => {
                let low = to_lowercase(out.as_str());
                if str_contains(low.as_str(), "python") {
                    assert(pv[k as int] == Some(out@));
                    proof {
                        lemma_first_answer(pv, k as int);
                    }
                    let meets = version_meets_min(out.as_str(), version_min);
                    return PythonInfo { found: true, binary: cands[k].clone(), version: out.clone(), meets_min: meets };
                }
                assert(pv[k as int] == Some(out@));
            },
            None => {
                assert(pv[k as int] == None::<Seq<char>>);
            },
        }
        k = k + 1;
    }
    proof {
        lemma_first_answer(pv, k as int);
    }
    PythonInfo { found: false, binary: String::new(), version: String::new(), meets_min: false }
}

// ── Virtual environments ────────────────────────────────────────────────────

/// The folder names looked for, in order.
pub open spec fn venv_names() -> Seq<Seq<char>> {
    seq!["venv"@, ".venv"@, "env"@]
}

/// The candidate virtual environment folders of a project, in order.
pub fn venv_candidates(project_folder: &str) -> (r: Vec<String>)
    ensures
        r.deep_view() == venv_names().map_values(|n: Seq<char>| joined(project_folder@, n)),
        r@.len() == 3,
{
    let mut r = Vec::new();
    r.push(join_path(project_folder, "venv"));
    r.push(join_path(project_folder, ".venv"));
    r.push(join_path(project_folder, "env"));
    assert(r.deep_view() =~= venv_names().map_values(|n: Seq<char>| joined(project_folder@, n)));
    r
}

/// The interpreter and pip of a virtual environment folder.
pub open spec fn venv_binaries_spec(venv_dir: Seq<char>) -> (Seq<char>, Seq<char>) {
    (joined(joined(venv_dir, "bin"@), "python"@), joined(joined(venv_dir, "bin"@), "pip"@))
}

/// The interpreter and pip paths inside a virtual environment folder
/// (`bin/python` and `bin/pip`).
pub fn venv_binaries(venv_dir: &str) -> (r: (String, String))
    ensures
        (r.0@, r.1@) == venv_binaries_spec(venv_dir@),
{
    let bin = join_path(venv_dir, "bin");
    (join_path(bin.as_str(), "python"), join_path(bin.as_str(), "pip"))
}

/// The position of the first `true`.
pub open spec fn first_true(bs: Seq<bool>) -> Option<int>
    decreases bs.len(),
{
    if bs.len() == 0 {
        None
    } else if bs[0] {
        Some(0)
    } else {
        match first_true(bs.drop_first()) {
            Some(i) => Some(i + 1),
            None => None,
        }
    }
}

proof fn lemma_first_true(bs: Seq<bool>, k: int)
    requires
        0 <= k <= bs.len(),
        forall|m: int| 0 <= m < k ==> !(#[trigger] bs[m]),
    ensures
        k < bs.len() && bs[k] ==> first_true(bs) == Some(k),
        k == bs.len() ==> first_true(bs) is None,
    decreases k,
{
    if k > 0 {
        assert forall|m: int| 0 <= m < k - 1 implies !(#[trigger] bs.drop_first()[m]) by {
            assert(bs.drop_first()[m] == bs[m + 1]);
        }
        lemma_first_true(bs.drop_first(), k - 1);
    }
}

/// Decides the virtual environment of a project from what the caller found
/// for each candidate folder (`present[k]`: folder `k` is a directory holding
/// its interpreter): the first present one, or none.
pub fn detect_venv(project_folder: &str, present: &Vec<bool>) -> (r: VenvInfo)
    ensures
        match first_true(prefix_upto(present@, 3)) {
            Some(k) => {
                let dir = joined(project_folder@, venv_names()[k]);
                r.found && r.path@ == dir && (r.python_bin@, r.pip_bin@) == venv_binaries_spec(dir)
            },
            None => !r.found && r.path@.len() == 0 && r.python_bin@.len() == 0 && r.pip_bin@.len() == 0,
        },
{
    let dirs = venv_candidates(project_folder);
    let ghost dv = dirs.deep_view();
    let ghost pv = prefix_upto(present@, 3);
    let mut k: usize = 0;
    while k < present.len() && k < dirs.len()
        invariant
            dv == dirs.deep_view(),
            dv == venv_names().map_values(|n: Seq<char>| joined(project_folder@, n)),
            dirs.len() == 3,
            pv == prefix_upto(present@, 3),
            k <= present.len(),
            k <= 3,
            forall|m: int| 0 <= m < k ==> !(#[trigger] pv[m]),
        decreases present.len() - k,
    {
        assert(pv[k as int] == present@[k as int]);
        if present[k] {
            proof {
                lemma_first_true(pv, k as int);
            }
            assert(dirs@[k as int]@ == dv[k as int]);
            assert(dv[k as int] == joined(project_folder@, venv_names()[k as int]));
            let (py, pip) = venv_binaries(dirs[k].as_str());
            return VenvInfo { found: true, path: dirs[k].clone(), python_bin: py, pip_bin: pip };
        }
        k = k + 1;
    }
    proof {
        lemma_first_true(pv, k as int);
    }
    VenvInfo { found: false, path: String::new(), python_bin: String::new(), pip_bin: String::new() }
}

// ── Dependencies and commands ───────────────────────────────────────────────

/// The package name `pip show` is asked about for a dependency: the text
/// before any `[extras]`, trimmed.
pub open spec fn dependency_base_spec(dep: Seq<char>) -> Seq<char> {
    trimmed(split_char(dep, '[')[0])
}

/// The package name of a dependency such as `passlib[bcrypt]`.
pub fn dependency_base(dep: &str) -> (r: String)
    ensures
        r@ == dependency_base_spec(dep@),
{
    let pieces = split_at_char(dep, '[');
    proof {
        lemma_split_nonempty(dep@, '[');
    }
    trim(pieces[0].as_str())
}

/// What a finished command gives: `ok_value` when it succeeded, else its
/// error output, or its standard output when the error output is empty.
pub open spec fn command_result_spec(success: bool, ok_value: Seq<char>, stdout: Seq<char>, stderr: Seq<char>) -> Result<Seq<char>, Seq<char>> {
    if success {
        Ok(ok_value)
    } else if stderr.len() > 0 {
        Err(stderr)
    } else {
        Err(stdout)
    }
}

/// The outcome of a pip or venv command (see `command_result_spec`).
pub fn command_result(success: bool, ok_value: String, stdout: String, stderr: String) -> (r: Result<String, String>)
    ensures
        match r {
            Ok(v) => command_result_spec(success, ok_value@, stdout@, stderr@) == Ok::<Seq<char>, Seq<char>>(v@),
            Err(e) => command_result_spec(success, ok_value@, stdout@, stderr@) == Err::<Seq<char>, Seq<char>>(e@),
        },
{
    if success {
        Ok(ok_value)
    } else if stderr.unicode_len() > 0 {
        Err(stderr)
    } else {
        Err(stdout)
    }
}

/// The folder a new virtual environment is created in.
pub fn new_venv_path(project_folder: &str) -> (r: String)
    ensures
        r@ == joined(project_folder@, "venv"@),
{
    join_path(project_folder, "venv")
}

/// The interpreter pip runs under: the virtual environment's when one was
/// found, else the detected interpreter.
pub fn pip_python(python: &PythonInfo, venv: &VenvInfo) -> (r: String)
    ensures
        r@ == if venv.found { venv.python_bin@ } else { python.binary@ },
{
    if venv.found {
        venv.python_bin.clone()
    } else {
        python.binary.clone()
    }
}

/// The status of dependencies that could not be checked: none installed.
pub fn unchecked_dependencies(deps: &Vec<String>) -> (r: Vec<DepStatus>)
    ensures
        r@.len() == deps@.len(),
        forall|k: int| 0 <= k < deps@.len() ==> (#[trigger] r@[k]).name@ == deps@[k]@ && !r@[k].installed,
{
    let mut r: Vec<DepStatus> = Vec::new();
    let mut k: usize = 0;
    while k < deps.len()
        invariant
            k <= deps.len(),
            r@.len() == k,
            forall|m: int| 0 <= m < k ==> (#[trigger] r@[m]).name@ == deps@[m]@ && !r@[m].installed,
        decreases deps.len() - k,
    {
        r.push(DepStatus { name: deps[k].clone(), installed: false });
        k = k + 1;
    }
    r
}

} // verus!
