//! File-system paths as text, joined the way `PathBuf::push` joins them on
//! Unix-like systems.

use vstd::prelude::*;
use crate::text::{chars_of, push_char, split_char, split_at_char, str_equal};
use crate::db::joined_with;

verus! {

/// `base` joined with `rel`: an absolute `rel` replaces `base`; otherwise
/// `rel` follows `base`, with a `/` between them unless `base` is empty or
/// already ends with one.
pub open spec fn joined(base: Seq<char>, rel: Seq<char>) -> Seq<char> {
    if rel.len() > 0 && rel[0] == '/' {
        rel
    } else if base.len() > 0 && base.last() != '/' {
        base + seq!['/'] + rel
    } else {
        base + rel
    }
}

/// Joins two paths (see `joined`).
pub fn join_path(base: &str, rel: &str) -> (r: String)
    ensures
        r@ == joined(base@, rel@),
{
    let b = chars_of(base);
    let rc = chars_of(rel);
    if rc.len() > 0 && rc[0] == '/' {
        return String::from_str(rel);
    }
    let mut r = String::from_str(base);
    if b.len() > 0 && b[b.len() - 1] != '/' {
        push_char(&mut r, '/');
    }
    r.append(rel);
    r
}


// ── Components ──────────────────────────────────────────────────────────────

/// The pieces between slashes that name something: empty pieces and `.`
/// are dropped.
pub open spec fn kept_parts(pieces: Seq<Seq<char>>) -> Seq<Seq<char>>
    decreases pieces.len(),
{
    if pieces.len() == 0 {
        Seq::empty()
    } else {
        let rest = kept_parts(pieces.drop_last());
        let p = pieces.last();
        if p.len() == 0 || p == "."@ {
            rest
        } else {
            rest.push(p)
        }
    }
}

pub open spec fn is_absolute(s: Seq<char>) -> bool {
    s.len() > 0 && s[0] == '/'
}

/// A relative path that starts with the current directory: `.` or `./…`.
pub open spec fn starts_here(s: Seq<char>) -> bool {
    s == "."@ || (s.len() >= 2 && s[0] == '.' && s[1] == '/')
}

/// The components of a path as `Path::components` yields them on Unix-like
/// systems: `/` for the root of an absolute path, `.` for a leading current
/// directory, then each named piece (`..` included), with repeated slashes
/// and inner `.` pieces dropped.
pub open spec fn components(s: Seq<char>) -> Seq<Seq<char>> {
    let lead = if is_absolute(s) {
        seq!["/"@]
    } else if starts_here(s) {
        seq!["."@]
    } else {
        Seq::empty()
    };
    lead + kept_parts(split_char(s, '/'))
}

/// Components with `.` dropped and each `..` removing the component before
/// it, never the root (a `..` with nothing before it is dropped too).
pub open spec fn normalized_parts(cs: Seq<Seq<char>>) -> Seq<Seq<char>>
    decreases cs.len(),
{
    if cs.len() == 0 {
        Seq::empty()
    } else {
        let acc = normalized_parts(cs.drop_last());
        let c = cs.last();
        if c == "."@ {
            acc
        } else if c == ".."@ {
            if acc.len() > 0 && acc.last() != "/"@ {
                acc.drop_last()
            } else {
                acc
            }
        } else {
            acc.push(c)
        }
    }
}

/// The text of a list of components.
pub open spec fn parts_text(parts: Seq<Seq<char>>) -> Seq<char> {
    if parts.len() > 0 && parts[0] == "/"@ {
        "/"@ + joined_with(parts.drop_first(), "/"@)
    } else {
        joined_with(parts, "/"@)
    }
}

/// A path with `.` and `..` resolved by text alone, without looking at the
/// file system.
pub open spec fn normalized(s: Seq<char>) -> Seq<char> {
    parts_text(normalized_parts(components(s)))
}

/// Whether `path` lies under `root`, component by component
/// (`Path::starts_with`).
pub open spec fn within(path: Seq<char>, root: Seq<char>) -> bool {
    components(root).is_prefix_of(components(path))
}

fn is_dot(s: &str) -> (r: bool)
    ensures
        r == (s@ == "."@),
{
    str_equal(s, ".")
}

/// The components of a path (see `components`).
pub fn path_components(s: &str) -> (r: Vec<String>)
    ensures
        r.deep_view() == components(s@),
{
    let cs = chars_of(s);
    let mut out: Vec<String> = Vec::new();
    proof {
        reveal_strlit("/");
        reveal_strlit(".");
        reveal_strlit("");
    }
    if cs.len() > 0 && cs[0] == '/' {
        out.push(String::from_str("/"));
    } else if (cs.len() == 1 && cs[0] == '.') || (cs.len() >= 2 && cs[0] == '.' && cs[1] == '/') {
        assert(cs.len() == 1 && cs[0] == '.' ==> s@ =~= "."@);
        assert(s@ == "."@ ==> cs.len() == 1 && cs[0] == '.');
        out.push(String::from_str("."));
    } else {
        assert(s@ == "."@ ==> cs.len() == 1 && cs[0] == '.');
    }
    let ghost lead = out.deep_view();
    assert(lead =~= components(s@).take(lead.len() as int)) by {
        assert(components(s@) =~= lead + kept_parts(split_char(s@, '/')));
    }
    let pieces = split_at_char(s, '/');
    let ghost pv = pieces.deep_view();
    let mut i: usize = 0;
    assert(pv.take(0) =~= Seq::<Seq<char>>::empty());
    assert(out.deep_view() =~= lead + kept_parts(pv.take(0)));
    while i < pieces.len()
        invariant
            i <= pieces.len(),
            pv == pieces.deep_view(),
            out.deep_view() == lead + kept_parts(pv.take(i as int)),
        decreases pieces.len() - i,
    {
        proof {
            assert(pv.take(i + 1).drop_last() =~= pv.take(i as int));
            assert(pv.take(i + 1).last() == pieces@[i as int]@);
        }
        proof {
            reveal_strlit("");
            reveal_strlit(".");
        }
        let p = &pieces[i];
        let ghost before = out.deep_view();
        assert(p@ == pv[i as int]);
        if !(str_equal(p.as_str(), "") || is_dot(p.as_str())) {
            out.push(p.clone());
            assert(out.deep_view() =~= before.push(p@));
            assert(!(p@.len() == 0 || p@ == "."@)) by {
                if p@.len() == 0 {
                    assert(p@ =~= ""@);
                }
            }
        } else {
            assert(p@.len() == 0 || p@ == "."@);
        }
        assert(out.deep_view() =~= lead + kept_parts(pv.take(i + 1)));
        i = i + 1;
    }
    assert(pv.take(i as int) =~= pv);
    assert(components(s@) =~= lead + kept_parts(pv));
    out
}

/// The text of a list of components (see `parts_text`).
fn text_of_parts(parts: &Vec<String>) -> (r: String)
    ensures
        r@ == parts_text(parts.deep_view()),
{
    let ghost pv = parts.deep_view();
    proof {
        reveal_strlit("/");
    }
    let mut start: usize = 0;
    let mut out = String::new();
    if parts.len() > 0 && str_equal(parts[0].as_str(), "/") {
        start = 1;
        out.append("/");
    }
    let ghost base = out@;
    let ghost rest = pv.skip(start as int);
    if start < parts.len() {
        out.append(parts[start].as_str());
        let mut i: usize = start + 1;
        assert(rest.take(1) =~= seq![pv[start as int]]);
        assert(joined_with(rest.take(1), "/"@) == pv[start as int]);
        while i < parts.len()
            invariant
                start < i <= parts.len(),
                pv == parts.deep_view(),
                rest == pv.skip(start as int),
                out@ == base + joined_with(rest.take(i - start), "/"@),
            decreases parts.len() - i,
        {
            proof {
                assert(rest.take(i - start + 1).drop_last() =~= rest.take(i - start));
                assert(rest.take(i - start + 1).last() == pv[i as int]);
            }
            out.append("/");
            out.append(parts[i].as_str());
            assert(out@ =~= base + joined_with(rest.take(i - start + 1), "/"@));
            i = i + 1;
        }
        assert(rest.take(i - start) =~= rest);
    } else {
        assert(rest =~= Seq::<Seq<char>>::empty());
        assert(out@ =~= base + joined_with(rest, "/"@));
    }
    proof {
        if start == 1 {
            assert(rest =~= pv.drop_first());
        } else {
            assert(rest =~= pv);
        }
    }
    out
}

/// Resolves `.` and `..` in a path by text alone (see `normalized`).
pub fn normalize_path(path: &str) -> (r: String)
    ensures
        r@ == normalized(path@),
{
    let cs = path_components(path);
    let ghost cv = cs.deep_view();
    proof {
        reveal_strlit("/");
        reveal_strlit(".");
        reveal_strlit("..");
    }
    let mut acc: Vec<String> = Vec::new();
    let mut i: usize = 0;
    assert(cv.take(0) =~= Seq::<Seq<char>>::empty());
    assert(acc.deep_view() =~= normalized_parts(cv.take(0)));
    while i < cs.len()
        invariant
            i <= cs.len(),
            cv == cs.deep_view(),
            acc.deep_view() == normalized_parts(cv.take(i as int)),
        decreases cs.len() - i,
    {
        proof {
            assert(cv.take(i + 1).drop_last() =~= cv.take(i as int));
            assert(cv.take(i + 1).last() == cs@[i as int]@);
        }
        let c = &cs[i];
        let ghost before = acc.deep_view();
        if is_dot(c.as_str()) {
        } else if str_equal(c.as_str(), "..") {
            if acc.len() > 0 && !str_equal(acc[acc.len() - 1].as_str(), "/") {
                acc.pop();
                assert(acc.deep_view() =~= before.drop_last());
            }
        } else {
            acc.push(c.clone());
            assert(acc.deep_view() =~= before.push(c@));
        }
        i = i + 1;
    }
    assert(cv.take(i as int) =~= cv);
    text_of_parts(&acc)
}

/// Whether `path` lies under `root` (see `within`).
pub fn path_within(path: &str, root: &str) -> (r: bool)
    ensures
        r == within(path@, root@),
{
    let p = path_components(path);
    let q = path_components(root);
    let ghost pv = p.deep_view();
    let ghost qv = q.deep_view();
    if q.len() > p.len() {
        return false;
    }
    let mut i: usize = 0;
    while i < q.len()
        invariant
            i <= q.len() <= p.len(),
            pv == p.deep_view(),
            qv == q.deep_view(),
            pv == components(path@),
            qv == components(root@),
            forall|k: int| 0 <= k < i ==> qv[k] == pv[k],
        decreases q.len() - i,
    {
        if !str_equal(p[i].as_str(), q[i].as_str()) {
            assert(pv[i as int] != qv[i as int]);
            assert(pv.subrange(0, qv.len() as int)[i as int] != qv[i as int]);
            assert(!(qv =~= pv.subrange(0, qv.len() as int)));
            return false;
        }
        i = i + 1;
    }
    assert(pv.take(qv.len() as int) =~= qv);
    true
}


// ── Normalizing twice ───────────────────────────────────────────────────────

/// A piece that names something: not empty, not `.` or `..`, no slash.
pub open spec fn named_part(x: Seq<char>) -> bool {
    x.len() > 0 && x != "."@ && x != ".."@ && forall|j: int| 0 <= j < x.len() ==> x[j] != '/'
}

/// Components as normalizing leaves them: the root, if any, first, and
/// otherwise only named pieces.
pub open spec fn clean_parts(ps: Seq<Seq<char>>) -> bool {
    forall|i: int| 0 <= i < ps.len() ==> (i == 0 && #[trigger] ps[i] == "/"@) || named_part(ps[i])
}

/// Components as a path has them: the root, if any, first, and otherwise
/// non-empty pieces without a slash.
spec fn plain_parts(ps: Seq<Seq<char>>) -> bool {
    forall|i: int| 0 <= i < ps.len() ==> (i == 0 && #[trigger] ps[i] == "/"@)
        || (ps[i].len() > 0 && forall|j: int| 0 <= j < ps[i].len() ==> ps[i][j] != '/')
}

proof fn lemma_split_pieces_no_sep(s: Seq<char>, sep: char)
    ensures
        forall|i: int, j: int| 0 <= i < split_char(s, sep).len() && 0 <= j < split_char(s, sep)[i].len()
            ==> #[trigger] split_char(s, sep)[i][j] != sep,
    decreases s.len(),
{
    if s.len() > 0 {
        lemma_split_pieces_no_sep(s.drop_last(), sep);
        crate::text::lemma_split_nonempty(s.drop_last(), sep);
        let p = split_char(s.drop_last(), sep);
        if s.last() != sep {
            let q = p.update(p.len() - 1, p.last().push(s.last()));
            assert forall|i: int, j: int| 0 <= i < q.len() && 0 <= j < q[i].len() implies #[trigger] q[i][j] != sep by {
                if i == p.len() - 1 && j == p.last().len() {
                } else if i == p.len() - 1 {
                    assert(q[i][j] == p[i][j]);
                } else {
                    assert(q[i] == p[i]);
                }
            }
        } else {
            let q = p.push(Seq::<char>::empty());
            assert forall|i: int, j: int| 0 <= i < q.len() && 0 <= j < q[i].len() implies #[trigger] q[i][j] != sep by {
                if i < p.len() {
                    assert(q[i] == p[i]);
                }
            }
        }
    }
}

proof fn lemma_kept_parts_plain(pieces: Seq<Seq<char>>)
    requires
        forall|i: int, j: int| 0 <= i < pieces.len() && 0 <= j < pieces[i].len() ==> #[trigger] pieces[i][j] != '/',
    ensures
        forall|i: int| 0 <= i < kept_parts(pieces).len() ==> (#[trigger] kept_parts(pieces)[i]).len() > 0
            && kept_parts(pieces)[i] != "."@ && forall|j: int| 0 <= j < kept_parts(pieces)[i].len() ==> kept_parts(pieces)[i][j] != '/',
    decreases pieces.len(),
{
    if pieces.len() > 0 {
        let d = pieces.drop_last();
        assert forall|i: int, j: int| 0 <= i < d.len() && 0 <= j < d[i].len() implies #[trigger] d[i][j] != '/' by {
            assert(d[i] == pieces[i]);
        }
        lemma_kept_parts_plain(d);
        let last = pieces.last();
        assert forall|j: int| 0 <= j < last.len() implies last[j] != '/' by {
            assert(pieces[pieces.len() - 1][j] != '/');
        }
        let k = kept_parts(d);
        if !(last.len() == 0 || last == "."@) {
            let r = k.push(last);
            assert(kept_parts(pieces) == r);
            assert forall|i: int| 0 <= i < r.len() implies (#[trigger] r[i]).len() > 0 && r[i] != "."@
                && forall|j: int| 0 <= j < r[i].len() ==> r[i][j] != '/' by {
                if i < k.len() {
                    assert(r[i] == k[i]);
                }
            }
        }
    }
}

proof fn lemma_components_plain(s: Seq<char>)
    ensures
        plain_parts(components(s)),
{
    reveal_strlit("/");
    reveal_strlit(".");
    let pieces = split_char(s, '/');
    lemma_split_pieces_no_sep(s, '/');
    lemma_kept_parts_plain(pieces);
    let k = kept_parts(pieces);
    let lead = if is_absolute(s) {
        seq!["/"@]
    } else if starts_here(s) {
        seq!["."@]
    } else {
        Seq::empty()
    };
    let cs = lead + k;
    assert(cs == components(s));
    assert forall|i: int| 0 <= i < cs.len() implies (i == 0 && #[trigger] cs[i] == "/"@)
        || (cs[i].len() > 0 && forall|j: int| 0 <= j < cs[i].len() ==> cs[i][j] != '/') by {
        if i >= lead.len() {
            assert(cs[i] == k[i - lead.len()]);
        } else if !is_absolute(s) {
            assert(cs[i] == "."@);
        }
    }
}

proof fn lemma_normalized_parts_clean(cs: Seq<Seq<char>>)
    requires
        plain_parts(cs),
    ensures
        clean_parts(normalized_parts(cs)),
        normalized_parts(cs).len() <= cs.len(),
        cs.len() > 0 && normalized_parts(cs).len() > 0 && normalized_parts(cs)[0] == "/"@ ==> cs[0] == "/"@,
    decreases cs.len(),
{
    reveal_strlit("/");
    reveal_strlit(".");
    reveal_strlit("..");
    if cs.len() > 0 {
        let d = cs.drop_last();
        assert forall|i: int| 0 <= i < d.len() implies (i == 0 && #[trigger] d[i] == "/"@)
            || (d[i].len() > 0 && forall|j: int| 0 <= j < d[i].len() ==> d[i][j] != '/') by {
            assert(d[i] == cs[i]);
        }
        lemma_normalized_parts_clean(d);
        let acc = normalized_parts(d);
        let c = cs.last();
        assert(cs[cs.len() - 1] == c);
        if c == "."@ {
        } else if c == ".."@ {
            if acc.len() > 0 && acc.last() != "/"@ {
                let r = acc.drop_last();
                assert forall|i: int| 0 <= i < r.len() implies (i == 0 && #[trigger] r[i] == "/"@) || named_part(r[i]) by {
                    assert(r[i] == acc[i]);
                }
            }
        } else {
            let r = acc.push(c);
            if c == "/"@ {
                assert(c[0] == '/');
                assert(cs.len() - 1 == 0);
            }
            assert forall|i: int| 0 <= i < r.len() implies (i == 0 && #[trigger] r[i] == "/"@) || named_part(r[i]) by {
                if i < acc.len() {
                    assert(r[i] == acc[i]);
                } else if c != "/"@ {
                    assert(c.len() > 0 && forall|j: int| 0 <= j < c.len() ==> c[j] != '/');
                } else {
                    assert(acc.len() == 0);
                }
            }
        }
    }
}

proof fn lemma_normalized_parts_fixed(ps: Seq<Seq<char>>)
    requires
        clean_parts(ps),
    ensures
        normalized_parts(ps) == ps,
    decreases ps.len(),
{
    reveal_strlit("/");
    reveal_strlit(".");
    reveal_strlit("..");
    if ps.len() > 0 {
        let d = ps.drop_last();
        assert forall|i: int| 0 <= i < d.len() implies (i == 0 && #[trigger] d[i] == "/"@) || named_part(d[i]) by {
            assert(d[i] == ps[i]);
        }
        lemma_normalized_parts_fixed(d);
        let c = ps.last();
        assert(ps[ps.len() - 1] == c);
        assert(c != "."@ && c != ".."@) by {
            if c == "/"@ {
                assert("/"@ != "."@ && "/"@ != ".."@) by {
                    assert("/"@[0] != "."@[0]);
                    assert("/"@.len() != ".."@.len());
                }
            }
        }
        assert(d.push(c) =~= ps);
    }
}

proof fn lemma_split_append(a: Seq<char>, b: Seq<char>, sep: char)
    ensures
        split_char(a.push(sep) + b, sep) == split_char(a, sep) + split_char(b, sep),
    decreases b.len(),
{
    if b.len() == 0 {
        assert(a.push(sep) + b =~= a.push(sep));
        assert(a.push(sep).drop_last() =~= a);
        assert(split_char(a, sep) + split_char(b, sep) =~= split_char(a, sep).push(Seq::empty()));
    } else {
        let x = a.push(sep) + b;
        assert(x.drop_last() =~= a.push(sep) + b.drop_last());
        assert(x.last() == b.last());
        lemma_split_append(a, b.drop_last(), sep);
        crate::text::lemma_split_nonempty(b.drop_last(), sep);
        let p = split_char(a, sep);
        let q = split_char(b.drop_last(), sep);
        if b.last() == sep {
            assert((p + q).push(Seq::empty()) =~= p + q.push(Seq::empty()));
        } else {
            assert((p + q).update((p + q).len() - 1, (p + q).last().push(b.last())) =~= p + q.update(
                q.len() - 1,
                q.last().push(b.last()),
            ));
        }
    }
}

proof fn lemma_split_no_sep(x: Seq<char>, sep: char)
    requires
        forall|j: int| 0 <= j < x.len() ==> x[j] != sep,
    ensures
        split_char(x, sep) == seq![x],
    decreases x.len(),
{
    if x.len() > 0 {
        lemma_split_no_sep(x.drop_last(), sep);
        assert(x[x.len() - 1] != sep);
        assert(x.drop_last().push(x.last()) =~= x);
        assert(seq![x.drop_last()].update(0, x.drop_last().push(x.last())) =~= seq![x]);
    } else {
        assert(x =~= Seq::<char>::empty());
    }
}

proof fn lemma_split_joined(ps: Seq<Seq<char>>)
    requires
        ps.len() > 0,
        forall|i: int| 0 <= i < ps.len() ==> named_part(#[trigger] ps[i]),
    ensures
        split_char(joined_with(ps, "/"@), '/') == ps,
    decreases ps.len(),
{
    reveal_strlit("/");
    if ps.len() == 1 {
        assert(named_part(ps[0]));
        lemma_split_no_sep(ps[0], '/');
        assert(seq![ps[0]] =~= ps);
    } else {
        let d = ps.drop_last();
        assert forall|i: int| 0 <= i < d.len() implies named_part(#[trigger] d[i]) by {
            assert(d[i] == ps[i]);
        }
        lemma_split_joined(d);
        assert(named_part(ps[ps.len() - 1]));
        lemma_split_no_sep(ps.last(), '/');
        let j = joined_with(d, "/"@);
        assert(j + "/"@ + ps.last() =~= j.push('/') + ps.last());
        lemma_split_append(j, ps.last(), '/');
        assert(d + seq![ps.last()] =~= ps);
    }
}

proof fn lemma_kept_parts_append(a: Seq<Seq<char>>, b: Seq<Seq<char>>)
    ensures
        kept_parts(a + b) == kept_parts(a) + kept_parts(b),
    decreases b.len(),
{
    if b.len() == 0 {
        assert(a + b =~= a);
        assert(kept_parts(a) + kept_parts(b) =~= kept_parts(a));
    } else {
        lemma_kept_parts_append(a, b.drop_last());
        assert((a + b).drop_last() =~= a + b.drop_last());
        assert((a + b).last() == b.last());
        let x = kept_parts(a);
        let y = kept_parts(b.drop_last());
        assert((x + y).push(b.last()) =~= x + y.push(b.last()));
    }
}

proof fn lemma_kept_parts_named(ps: Seq<Seq<char>>)
    requires
        forall|i: int| 0 <= i < ps.len() ==> named_part(#[trigger] ps[i]),
    ensures
        kept_parts(ps) == ps,
    decreases ps.len(),
{
    if ps.len() > 0 {
        let d = ps.drop_last();
        assert forall|i: int| 0 <= i < d.len() implies named_part(#[trigger] d[i]) by {
            assert(d[i] == ps[i]);
        }
        lemma_kept_parts_named(d);
        assert(named_part(ps[ps.len() - 1]));
        assert(d.push(ps.last()) =~= ps);
    }
}

proof fn lemma_joined_front(ps: Seq<Seq<char>>)
    requires
        ps.len() > 0,
    ensures
        joined_with(ps, "/"@).len() >= ps[0].len(),
        joined_with(ps, "/"@).subrange(0, ps[0].len() as int) == ps[0],
        ps.len() >= 2 ==> joined_with(ps, "/"@).len() > ps[0].len() && joined_with(ps, "/"@)[ps[0].len() as int] == '/',
    decreases ps.len(),
{
    reveal_strlit("/");
    if ps.len() == 1 {
        assert(ps[0].subrange(0, ps[0].len() as int) =~= ps[0]);
    } else {
        let d = ps.drop_last();
        lemma_joined_front(d);
        assert(d[0] == ps[0]);
        let j = joined_with(d, "/"@);
        let full = j + "/"@ + ps.last();
        assert(full.subrange(0, ps[0].len() as int) =~= j.subrange(0, ps[0].len() as int));
        if ps.len() == 2 {
            assert(j == ps[0]);
            assert(full[ps[0].len() as int] == '/');
        } else {
            assert(full[ps[0].len() as int] == j[ps[0].len() as int]);
        }
    }
}

proof fn lemma_kept_single_empty()
    ensures
        kept_parts(seq![Seq::<char>::empty()]) == Seq::<Seq<char>>::empty(),
{
    let one = seq![Seq::<char>::empty()];
    assert(one.drop_last() =~= Seq::<Seq<char>>::empty());
    assert(kept_parts(Seq::<Seq<char>>::empty()) == Seq::<Seq<char>>::empty());
    assert(one.last().len() == 0);
}

proof fn lemma_components_of_text(ps: Seq<Seq<char>>)
    requires
        clean_parts(ps),
    ensures
        components(parts_text(ps)) == ps,
{
    reveal_strlit("/");
    reveal_strlit(".");
    let t = parts_text(ps);
    if ps.len() > 0 && ps[0] == "/"@ {
        let rest = ps.drop_first();
        assert forall|i: int| 0 <= i < rest.len() implies named_part(#[trigger] rest[i]) by {
            assert(rest[i] == ps[i + 1]);
        }
        let j = joined_with(rest, "/"@);
        assert(t == "/"@ + j);
        assert(t =~= Seq::<char>::empty().push('/') + j);
        lemma_split_append(Seq::<char>::empty(), j, '/');
        assert(split_char(Seq::<char>::empty(), '/') == seq![Seq::<char>::empty()]);
        lemma_kept_parts_append(seq![Seq::<char>::empty()], split_char(j, '/'));
        lemma_kept_single_empty();
        if rest.len() > 0 {
            lemma_split_joined(rest);
            lemma_kept_parts_named(rest);
        } else {
            assert(j =~= Seq::<char>::empty());
            assert(split_char(j, '/') == seq![Seq::<char>::empty()]);
        }
        assert(is_absolute(t));
        assert(seq!["/"@] + rest =~= ps);
    } else if ps.len() > 0 {
        assert forall|i: int| 0 <= i < ps.len() implies named_part(#[trigger] ps[i]) by {
            if i == 0 {
                assert(ps[0] != "/"@);
            }
        }
        lemma_split_joined(ps);
        lemma_kept_parts_named(ps);
        lemma_joined_front(ps);
        assert(named_part(ps[0]));
        let p0 = ps[0];
        assert(t[0] == p0[0]) by {
            assert(t.subrange(0, p0.len() as int)[0] == t[0]);
        }
        assert(!is_absolute(t));
        assert(!starts_here(t)) by {
            if t == "."@ {
                assert(t.len() == 1);
                assert(p0.len() == 1);
                assert(p0 =~= "."@);
            }
            if t.len() >= 2 && t[0] == '.' && t[1] == '/' {
                if p0.len() >= 2 {
                    assert(t.subrange(0, p0.len() as int)[1] == t[1]);
                    assert(p0[1] == '/');
                } else {
                    assert(p0 =~= "."@);
                }
            }
        }
        assert(Seq::<Seq<char>>::empty() + ps =~= ps);
    } else {
        assert(t =~= Seq::<char>::empty());
        assert(split_char(t, '/') == seq![Seq::<char>::empty()]);
        lemma_kept_single_empty();
        assert(!starts_here(t));
        assert(components(t) =~= ps);
    }
}

/// Normalizing a path leaves no `.` or `..` component, and normalizing it
/// again changes nothing.
pub proof fn law_normalize_idempotent(s: Seq<char>)
    ensures
        forall|i: int| 0 <= i < components(normalized(s)).len() ==> #[trigger] components(normalized(s))[i] != "."@
            && components(normalized(s))[i] != ".."@,
        normalized(normalized(s)) == normalized(s),
{
    reveal_strlit("/");
    reveal_strlit(".");
    reveal_strlit("..");
    lemma_components_plain(s);
    let ps = normalized_parts(components(s));
    lemma_normalized_parts_clean(components(s));
    lemma_components_of_text(ps);
    lemma_normalized_parts_fixed(ps);
    assert forall|i: int| 0 <= i < ps.len() implies #[trigger] ps[i] != "."@ && ps[i] != ".."@ by {
        if ps[i] == "/"@ {
            assert("/"@[0] != "."@[0]);
            assert("/"@.len() != ".."@.len());
        }
    }
}

} // verus!
