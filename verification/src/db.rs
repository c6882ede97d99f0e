//! Database assertions of chapter tests: SQL with `{{variable}}`
//! placeholders turned into bound parameters, checks on the rows a query
//! returned, and the rule that a database must lie inside the project.

use vstd::prelude::*;
use crate::json::{
    Json, JsonV, JsonNumber, NumKindV, NumKind, json_text, get_field, field_or_null, u64_or_zero, lookup,
    view_entries, view_items, is_operator_object, to_text, count_number, small_int_double_bits, str_or_empty,
};
use crate::template::Vars;
use crate::assertion::{body_failures, evaluate_body_assertion, regex_error, regex_capture_spans, compile_regex, capture_spans};
use vstd::utf8::{valid_utf8, decode_utf8, encode_utf8, encode_scalar, is_continuation_byte, is_char_boundary};
use crate::text::{decimal, u64_text, str_equal, extend_strings};
use crate::path::{joined, join_path, normalized, normalize_path, within, path_within};

verus! {

// ── Schema ──────────────────────────────────────────────────────────────────

/// The `db_assert` block of a test.
pub struct DbAssertBlock {
    pub database: String,
    pub queries: Vec<DbQuery>,
}

/// One query of a `db_assert` block and what its rows must satisfy.
pub struct DbQuery {
    pub id: String,
    pub sql: String,
    pub assert: Json,
}

// ── Parameters ──────────────────────────────────────────────────────────────

/// A value bound to a `?` parameter of a query.
pub enum SqlValue {
    Null,
    Integer(i64),
    /// A floating-point value, by the bits of its double.
    Real(u64),
    Text(String),
}

pub enum SqlValueV {
    Null,
    Integer(i64),
    Real(u64),
    Text(Seq<char>),
}

impl View for SqlValue {
    type V = SqlValueV;

    open spec fn view(&self) -> SqlValueV {
        match self {
            SqlValue::Null => SqlValueV::Null,
            SqlValue::Integer(i) => SqlValueV::Integer(*i),
            SqlValue::Real(b) => SqlValueV::Real(*b),
            SqlValue::Text(t) => SqlValueV::Text(t@),
        }
    }
}

/// How a JSON value is bound: null as NULL, booleans as 1 or 0, integers
/// that fit `i64` as integers, other numbers as reals, strings as text, and
/// arrays and objects as their compact JSON text.
pub open spec fn sql_value(v: JsonV) -> SqlValueV {
    match v {
        JsonV::Null => SqlValueV::Null,
        JsonV::Bool(b) => SqlValueV::Integer(if b { 1 } else { 0 }),
        JsonV::Number(n) => match n.kind {
            NumKindV::PosInt(x) => if x <= i64::MAX as u64 {
                SqlValueV::Integer(x as i64)
            } else {
                SqlValueV::Real(n.f64_bits)
            },
            NumKindV::NegInt(x) => SqlValueV::Integer(x),
            NumKindV::Float(_) => SqlValueV::Real(n.f64_bits),
        },
        JsonV::Str(s) => SqlValueV::Text(s),
        _ => SqlValueV::Text(json_text(v)),
    }
}

/// The value a JSON value is bound as (see `sql_value`).
pub fn json_to_sqlite(v: &Json) -> (r: SqlValue)
    ensures
        r@ == sql_value(v@),
{
    match v {
        Json::Null => SqlValue::Null,
        Json::Bool(b) => SqlValue::Integer(if *b { 1 } else { 0 }),
        Json::Number(n) => match &n.kind {
            NumKind::PosInt(x) => if *x <= i64::MAX as u64 {
                SqlValue::Integer(*x as i64)
            } else {
                SqlValue::Real(n.f64_bits)
            },
            NumKind::NegInt(x) => SqlValue::Integer(*x),
            NumKind::Float(_) => SqlValue::Real(n.f64_bits),
        },
        Json::Str(s) => SqlValue::Text(s.clone()),
        _ => SqlValue::Text(to_text(v)),
    }
}

/// The pattern of a placeholder: `{{`, a name of word characters, `}}`.
pub open spec fn placeholder_pattern() -> Seq<char> {
    r"\{\{(\w+)\}\}"@
}

/// Whether a character's encoding can start at byte `i`: `i` is the end or
/// its byte is no continuation byte.
pub open spec fn starts_char(b: Seq<u8>, i: int) -> bool {
    i == b.len() || (0 <= i < b.len() && !is_continuation_byte(b[i]))
}

/// Whether a match found at or after byte `last` is a placeholder to
/// replace: its group lies between `{{` and `}}` and it cuts the text at
/// character boundaries.
pub open spec fn placeholder_at(b: Seq<u8>, last: int, sp: (usize, usize, Option<(usize, usize)>)) -> bool {
    match sp.2 {
        Some(g) => {
            &&& last <= sp.0 && sp.0 + 2 == g.0 && g.0 <= g.1 && g.1 + 2 == sp.1 && sp.1 <= b.len()
            &&& b[sp.0 as int] == 123u8 && b[sp.0 + 1] == 123u8 && b[g.1 as int] == 125u8 && b[g.1 + 1] == 125u8
            &&& starts_char(b, g.0 as int) && starts_char(b, sp.1 as int)
        },
        None => false,
    }
}

/// The UTF-8 text `b` from byte `last` on, cut at the placeholder matches
/// among `spans`: the texts between them and the names inside them.
pub open spec fn split_at_spans(b: Seq<u8>, last: int, spans: Seq<(usize, usize, Option<(usize, usize)>)>) -> (Seq<Seq<char>>, Seq<Seq<char>>)
    decreases spans.len(),
{
    if spans.len() == 0 {
        (seq![decode_utf8(b.subrange(last, b.len() as int))], Seq::empty())
    } else if placeholder_at(b, last, spans[0]) {
        let sp = spans[0];
        let g = sp.2->Some_0;
        let rest = split_at_spans(b, sp.1 as int, spans.drop_first());
        (
            seq![decode_utf8(b.subrange(last, sp.0 as int))] + rest.0,
            seq![decode_utf8(b.subrange(g.0 as int, g.1 as int))] + rest.1,
        )
    } else {
        split_at_spans(b, last, spans.drop_first())
    }
}

/// The texts between placeholders and the placeholder names of `sql`, left
/// to right, as the placeholder pattern finds them (the whole text, with no
/// names, if the pattern did not compile).
pub open spec fn sql_placeholders(sql: Seq<char>) -> (Seq<Seq<char>>, Seq<Seq<char>>) {
    match regex_error(placeholder_pattern()) {
        None => split_at_spans(encode_utf8(sql), 0, regex_capture_spans(placeholder_pattern(), sql)),
        Some(_) => (seq![sql], Seq::empty()),
    }
}

/// The texts with each name between two of them, written with `open` and
/// `close` around it.
pub open spec fn interleaved(texts: Seq<Seq<char>>, names: Seq<Seq<char>>, open: Seq<char>, close: Seq<char>) -> Seq<char>
    decreases names.len(),
{
    if names.len() == 0 || texts.len() != names.len() + 1 {
        if texts.len() > 0 {
            texts[0]
        } else {
            Seq::empty()
        }
    } else {
        interleaved(texts.drop_last(), names.drop_last(), open, close) + open + names.last() + close + texts.last()
    }
}

proof fn lemma_interleaved_front(t0: Seq<char>, ts: Seq<Seq<char>>, n0: Seq<char>, ns: Seq<Seq<char>>, open: Seq<char>, close: Seq<char>)
    requires
        ts.len() == ns.len() + 1,
    ensures
        interleaved(seq![t0] + ts, seq![n0] + ns, open, close) == t0 + open + n0 + close + interleaved(ts, ns, open, close),
    decreases ns.len(),
{
    let t = seq![t0] + ts;
    let n = seq![n0] + ns;
    if ns.len() == 0 {
        assert(t.drop_last() =~= seq![t0]);
        assert(n.drop_last() =~= Seq::<Seq<char>>::empty());
        assert(interleaved(t.drop_last(), n.drop_last(), open, close) == t0);
        assert(interleaved(ts, ns, open, close) == ts[0]);
        assert(t.last() == ts[0]);
        assert(interleaved(t, n, open, close) =~= t0 + open + n0 + close + interleaved(ts, ns, open, close));
    } else {
        lemma_interleaved_front(t0, ts.drop_last(), n0, ns.drop_last(), open, close);
        assert(t.drop_last() =~= seq![t0] + ts.drop_last());
        assert(n.drop_last() =~= seq![n0] + ns.drop_last());
        assert(interleaved(t, n, open, close) =~= t0 + open + n0 + close + interleaved(ts, ns, open, close));
    }
}

/// A valid UTF-8 text is valid between two character starts, and each
/// character start between them starts a character of the piece.
proof fn lemma_piece(b: Seq<u8>, lo: int, hi: int, i: int)
    requires
        valid_utf8(b),
        0 <= lo <= i <= hi <= b.len(),
        starts_char(b, lo),
        starts_char(b, hi),
        starts_char(b, i),
    ensures
        valid_utf8(b.subrange(lo, hi)),
        is_char_boundary(b.subrange(lo, hi), i - lo),
        is_char_boundary(b, i),
{
    vstd::utf8::is_char_boundary_start_end_of_seq(b);
    if lo < b.len() {
        vstd::utf8::is_char_boundary_iff_not_is_continuation_byte(b, lo);
    }
    if i < b.len() {
        vstd::utf8::is_char_boundary_iff_not_is_continuation_byte(b, i);
    }
    vstd::utf8::valid_utf8_split(b, lo);
    let c = b.subrange(lo, b.len() as int);
    vstd::utf8::is_char_boundary_start_end_of_seq(c);
    if hi < b.len() {
        assert(c[hi - lo] == b[hi]);
        vstd::utf8::is_char_boundary_iff_not_is_continuation_byte(c, hi - lo);
    }
    assert(is_char_boundary(c, hi - lo));
    vstd::utf8::valid_utf8_split(c, hi - lo);
    let d = b.subrange(lo, hi);
    assert(c.subrange(0, hi - lo) =~= d);
    vstd::utf8::is_char_boundary_start_end_of_seq(d);
    if i < hi {
        assert(d[i - lo] == b[i]);
        vstd::utf8::is_char_boundary_iff_not_is_continuation_byte(d, i - lo);
    }
}

/// Decoding a piece is decoding its two halves at a character start.
proof fn lemma_decode_cut(b: Seq<u8>, lo: int, mid: int, hi: int)
    requires
        valid_utf8(b),
        0 <= lo <= mid <= hi <= b.len(),
        starts_char(b, lo),
        starts_char(b, mid),
        starts_char(b, hi),
    ensures
        decode_utf8(b.subrange(lo, hi)) == decode_utf8(b.subrange(lo, mid)) + decode_utf8(b.subrange(mid, hi)),
{
    lemma_piece(b, lo, hi, mid);
    let d = b.subrange(lo, hi);
    vstd::utf8::decode_utf8_split(d, mid - lo);
    assert(d.subrange(0, mid - lo) =~= b.subrange(lo, mid));
    assert(d.subrange(mid - lo, d.len() as int) =~= b.subrange(mid, hi));
}

proof fn lemma_decode_braces()
    ensures
        decode_utf8(seq![123u8, 123u8]) == "{{"@,
        decode_utf8(seq![125u8, 125u8]) == "}}"@,
{
    reveal_strlit("{{");
    reveal_strlit("}}");
    let o = "{{"@;
    let c = "}}"@;
    assert(o.len() == 2 && o[0] == '{' && o[1] == '{');
    assert(c.len() == 2 && c[0] == '}' && c[1] == '}');
    assert(('{' as u32) == 123u32);
    assert(('}' as u32) == 125u32);
    assert((123u32 & 0x7Fu32) as u8 == 123u8) by (bit_vector);
    assert((125u32 & 0x7Fu32) as u8 == 125u8) by (bit_vector);
    assert(encode_scalar(123u32) =~= seq![123u8]);
    assert(encode_scalar(125u32) =~= seq![125u8]);
    assert(o.drop_first().drop_first() =~= Seq::<char>::empty());
    assert(c.drop_first().drop_first() =~= Seq::<char>::empty());
    assert(o.drop_first()[0] == '{' && c.drop_first()[0] == '}');
    assert(encode_utf8(o.drop_first().drop_first()) =~= Seq::<u8>::empty());
    assert(encode_utf8(c.drop_first().drop_first()) =~= Seq::<u8>::empty());
    assert(encode_utf8(o.drop_first()) =~= seq![123u8]);
    assert(encode_utf8(c.drop_first()) =~= seq![125u8]);
    assert(encode_utf8(o) =~= seq![123u8, 123u8]);
    assert(encode_utf8(c) =~= seq![125u8, 125u8]);
    vstd::utf8::encode_utf8_decode_utf8(o);
    vstd::utf8::encode_utf8_decode_utf8(c);
}

proof fn lemma_split_at_spans(b: Seq<u8>, last: int, spans: Seq<(usize, usize, Option<(usize, usize)>)>)
    requires
        valid_utf8(b),
        0 <= last <= b.len(),
        starts_char(b, last),
    ensures
        split_at_spans(b, last, spans).0.len() == split_at_spans(b, last, spans).1.len() + 1,
        interleaved(split_at_spans(b, last, spans).0, split_at_spans(b, last, spans).1, "{{"@, "}}"@)
            == decode_utf8(b.subrange(last, b.len() as int)),
    decreases spans.len(),
{
    if spans.len() > 0 {
        if placeholder_at(b, last, spans[0]) {
            let sp = spans[0];
            let g = sp.2->Some_0;
            let (s, e, gs, ge) = (sp.0 as int, sp.1 as int, g.0 as int, g.1 as int);
            let n = b.len() as int;
            lemma_split_at_spans(b, e, spans.drop_first());
            let rest = split_at_spans(b, e, spans.drop_first());
            assert(starts_char(b, s));
            assert(starts_char(b, ge));
            lemma_decode_cut(b, last, s, n);
            lemma_decode_cut(b, s, gs, n);
            lemma_decode_cut(b, gs, ge, n);
            lemma_decode_cut(b, ge, e, n);
            lemma_decode_braces();
            assert(b.subrange(s, gs) =~= seq![123u8, 123u8]);
            assert(b.subrange(ge, e) =~= seq![125u8, 125u8]);
            lemma_interleaved_front(
                decode_utf8(b.subrange(last, s)),
                rest.0,
                decode_utf8(b.subrange(gs, ge)),
                rest.1,
                "{{"@,
                "}}"@,
            );
            assert(decode_utf8(b.subrange(last, n)) =~= decode_utf8(b.subrange(last, s)) + "{{"@ + decode_utf8(
                b.subrange(gs, ge),
            ) + "}}"@ + decode_utf8(b.subrange(e, n)));
        } else {
            lemma_split_at_spans(b, last, spans.drop_first());
        }
    }
}

/// Putting each placeholder name back between `{{` and `}}`, between the
/// texts around it, gives the SQL again; there is one more text than names.
pub proof fn law_placeholders_rebuild(sql: Seq<char>)
    ensures
        sql_placeholders(sql).0.len() == sql_placeholders(sql).1.len() + 1,
        interleaved(sql_placeholders(sql).0, sql_placeholders(sql).1, "{{"@, "}}"@) == sql,
{
    let b = encode_utf8(sql);
    vstd::utf8::encode_utf8_valid_utf8(sql);
    vstd::utf8::encode_utf8_decode_utf8(sql);
    vstd::utf8::is_char_boundary_start_end_of_seq(b);
    if b.len() > 0 {
        vstd::utf8::is_char_boundary_iff_not_is_continuation_byte(b, 0);
    }
    assert(b.subrange(0, b.len() as int) =~= b);
    match regex_error(placeholder_pattern()) {
        None => lemma_split_at_spans(b, 0, regex_capture_spans(placeholder_pattern(), sql)),
        Some(_) => {},
    }
}

/// The text of `s` between two character starts (bytes `lo` to `hi`).
fn piece(s: &str, lo: usize, hi: usize) -> (r: String)
    requires
        lo <= hi <= encode_utf8(s@).len(),
        starts_char(encode_utf8(s@), lo as int),
        starts_char(encode_utf8(s@), hi as int),
    ensures
        r@ == decode_utf8(encode_utf8(s@).subrange(lo as int, hi as int)),
{
    let ghost b = encode_utf8(s@);
    proof {
        vstd::utf8::encode_utf8_valid_utf8(s@);
        vstd::utf8::is_char_boundary_start_end_of_seq(b);
        if b.len() > 0 {
            vstd::utf8::is_char_boundary_iff_not_is_continuation_byte(b, 0);
        }
        lemma_piece(b, 0, hi as int, hi as int);
        lemma_piece(b, 0, hi as int, lo as int);
        assert(b.subrange(0, hi as int) =~= b.subrange(0, hi as int).subrange(0, hi as int));
    }
    let (front, _) = s.split_at(hi);
    assert(encode_utf8(front@) =~= b.subrange(0, hi as int));
    let (_, mid) = front.split_at(lo);
    assert(encode_utf8(mid@) =~= b.subrange(lo as int, hi as int));
    proof {
        vstd::utf8::encode_utf8_decode_utf8(mid@);
    }
    String::from_str(mid)
}

fn is_cont_byte(x: u8) -> (r: bool)
    ensures
        r == is_continuation_byte(x),
{
    0x80 <= x && x <= 0xbf
}

/// Splits SQL at its `{{name}}` placeholders (see `sql_placeholders`).
fn split_placeholders(sql: &str) -> (r: (Vec<String>, Vec<String>))
    ensures
        (r.0.deep_view(), r.1.deep_view()) == sql_placeholders(sql@),
        r.0@.len() == r.1@.len() + 1,
{
    let re = match compile_regex(r"\{\{(\w+)\}\}") {
        Ok(re) => re,
        Err(_) => {
            let mut texts: Vec<String> = Vec::new();
            texts.push(String::from_str(sql));
            let names: Vec<String> = Vec::new();
            assert(texts.deep_view() =~= seq![sql@]);
            assert(names.deep_view() =~= Seq::<Seq<char>>::empty());
            return (texts, names);
        },
    };
    let spans = capture_spans(&re, sql);
    let bytes = sql.as_bytes();
    let ghost b = encode_utf8(sql@);
    let ghost sv = spans@;
    proof {
        vstd::utf8::encode_utf8_valid_utf8(sql@);
        vstd::utf8::is_char_boundary_start_end_of_seq(b);
        if b.len() > 0 {
            vstd::utf8::is_char_boundary_iff_not_is_continuation_byte(b, 0);
        }
        assert(sv.skip(0) =~= sv);
    }
    let mut texts: Vec<String> = Vec::new();
    let mut names: Vec<String> = Vec::new();
    let mut last: usize = 0;
    let mut i: usize = 0;
    assert(texts.deep_view() =~= Seq::<Seq<char>>::empty());
    assert(names.deep_view() =~= Seq::<Seq<char>>::empty());
    while i < spans.len()
        invariant
            b == encode_utf8(sql@),
            bytes@ == b,
            valid_utf8(b),
            sv == spans@,
            i <= spans.len(),
            last <= b.len(),
            starts_char(b, last as int),
            texts@.len() == names@.len(),
            split_at_spans(b, 0, sv) == (
                texts.deep_view() + split_at_spans(b, last as int, sv.skip(i as int)).0,
                names.deep_view() + split_at_spans(b, last as int, sv.skip(i as int)).1,
            ),
        decreases spans.len() - i,
    {
        let ghost rest = sv.skip(i as int);
        assert(rest[0] == spans@[i as int]);
        assert(rest.drop_first() =~= sv.skip(i + 1));
        let (s, e, group) = spans[i];
        let n = bytes.len();
        let ok = match group {
            Some((gs, ge)) => e <= n && last <= s && s <= gs && gs <= ge && ge <= e && gs - s == 2 && e - ge == 2
                && bytes[s] == 123u8 && bytes[s + 1] == 123u8 && bytes[ge] == 125u8 && bytes[ge + 1] == 125u8
                && (gs == n || !is_cont_byte(bytes[gs])) && (e == n || !is_cont_byte(bytes[e])),
            None => false,
        };
        assert(ok == placeholder_at(b, last as int, spans@[i as int]));
        if ok {
            let (gs, ge) = match group {
                Some(g) => g,
                None => (0, 0),
            };
            proof {
                assert(starts_char(b, s as int));
                assert(starts_char(b, ge as int));
            }
            let t = piece(sql, last, s);
            let nm = piece(sql, gs, ge);
            let ghost (tv, nv) = (texts.deep_view(), names.deep_view());
            texts.push(t);
            names.push(nm);
            assert(texts.deep_view() =~= tv.push(decode_utf8(b.subrange(last as int, s as int))));
            assert(names.deep_view() =~= nv.push(decode_utf8(b.subrange(gs as int, ge as int))));
            let ghost next = split_at_spans(b, e as int, sv.skip(i + 1));
            assert(texts.deep_view() + next.0 =~= tv + split_at_spans(b, last as int, rest).0);
            assert(names.deep_view() + next.1 =~= nv + split_at_spans(b, last as int, rest).1);
            last = e;
        }
        i = i + 1;
    }
    let t = piece(sql, last, sql.as_bytes().len());
    let ghost tv = texts.deep_view();
    texts.push(t);
    assert(texts.deep_view() =~= tv.push(decode_utf8(b.subrange(last as int, b.len() as int))));
    proof {
        assert(sv.skip(i as int) =~= Seq::<(usize, usize, Option<(usize, usize)>)>::empty());
        assert(texts.deep_view() =~= tv + split_at_spans(b, last as int, sv.skip(i as int)).0);
        assert(names.deep_view() =~= names.deep_view() + split_at_spans(b, last as int, sv.skip(i as int)).1);
    }
    (texts, names)
}

/// The texts joined with `sep` between each two.
pub open spec fn joined_with(texts: Seq<Seq<char>>, sep: Seq<char>) -> Seq<char>
    decreases texts.len(),
{
    if texts.len() <= 1 {
        if texts.len() == 1 {
            texts[0]
        } else {
            Seq::empty()
        }
    } else {
        joined_with(texts.drop_last(), sep) + sep + texts.last()
    }
}

/// The value of a variable, or null when it is not set.
pub open spec fn var_or_null(vars: Seq<(Seq<char>, JsonV)>, name: Seq<char>) -> JsonV {
    match lookup(vars, name) {
        Some(v) => v,
        None => JsonV::Null,
    }
}

pub open spec fn values_view(vs: Seq<SqlValue>) -> Seq<SqlValueV> {
    vs.map_values(|v: SqlValue| v@)
}

/// The values bound for the named variables, in order.
pub open spec fn bound_values(names: Seq<Seq<char>>, vars: Seq<(Seq<char>, JsonV)>) -> Seq<SqlValueV> {
    names.map_values(|n: Seq<char>| sql_value(var_or_null(vars, n)))
}

/// SQL with every placeholder replaced by `?`, and the values bound to
/// them in order: each variable's value (null when not set), so that no
/// variable content is ever spliced into SQL text.
pub open spec fn parameterized(sql: Seq<char>, vars: Seq<(Seq<char>, JsonV)>) -> (Seq<char>, Seq<SqlValueV>) {
    let (texts, names) = sql_placeholders(sql);
    (
        joined_with(texts, "?"@),
        bound_values(names, vars),
    )
}

/// Turns placeholders into bound parameters (see `parameterized`).
pub fn parameterize_sql(sql: &str, vars: &Vars) -> (r: (String, Vec<SqlValue>))
    ensures
        (r.0@, values_view(r.1@)) == parameterized(sql@, vars@),
{
    let (texts, names) = split_placeholders(sql);
    let ghost tv = texts.deep_view();
    let ghost nv = names.deep_view();
    let mut out = texts[0].clone();
    let mut params: Vec<SqlValue> = Vec::new();
    let mut i: usize = 0;
    proof {
        assert(joined_with(tv.take(1), "?"@) == tv[0]);
        assert(values_view(params@) =~= bound_values(nv.take(0), vars@));
    }
    while i < names.len()
        invariant
            tv == texts.deep_view(),
            nv == names.deep_view(),
            texts@.len() == names@.len() + 1,
            i <= names.len(),
            out@ == joined_with(tv.take(i + 1), "?"@),
            values_view(params@) == bound_values(nv.take(i as int), vars@),
        decreases names.len() - i,
    {
        let value: SqlValue = match vars.get(names[i].as_str()) {
            Some(v) => json_to_sqlite(v),
            None => SqlValue::Null,
        };
        let ghost pv = params@;
        assert(names@[i as int]@ == nv[i as int]);
        assert(value@ == sql_value(var_or_null(vars@, nv[i as int])));
        params.push(value);
        out.append("?");
        out.append(texts[i + 1].as_str());
        proof {
            let lhs = values_view(params@);
            let rhs = bound_values(nv.take(i + 1), vars@);
            assert(params@ == pv.push(value));
            assert(values_view(pv).len() == pv.len());
            assert(bound_values(nv.take(i as int), vars@).len() == i);
            assert(pv.len() == i);
            assert(lhs.len() == i + 1);
            assert(rhs.len() == i + 1);
            assert forall|k: int| 0 <= k < i + 1 implies lhs[k] == rhs[k] by {
                if k < i {
                    assert(lhs[k] == values_view(pv)[k]);
                    assert(rhs[k] == bound_values(nv.take(i as int), vars@)[k]);
                }
            }
            assert(lhs =~= rhs);
            assert(tv.take(i + 2).drop_last() =~= tv.take(i + 1));
            assert(tv.take(i + 2).last() == texts@[i + 1]@);
            assert(out@ =~= joined_with(tv.take(i + 2), "?"@));
        }
        i = i + 1;
    }
    proof {
        assert(tv.take(i + 1) =~= tv);
        assert(nv.take(i as int) =~= nv);
    }
    (out, params)
}


/// The SQL text a template turns into does not depend on the variables:
/// their values only ever travel as bound parameters, one per placeholder.
pub proof fn law_sql_text_ignores_values(sql: Seq<char>, vars: Seq<(Seq<char>, JsonV)>, other: Seq<(Seq<char>, JsonV)>)
    ensures
        parameterized(sql, vars).0 == parameterized(sql, other).0,
        parameterized(sql, vars).1.len() == sql_placeholders(sql).1.len(),
{
}

// ── Checking query results ─────────────────────────────────────────────────

/// What running a query gave: its column names and rows, or the error text
/// of preparing or of running it.
pub enum QueryOutcome {
    Rows { columns: Vec<String>, rows: Vec<Vec<Json>> },
    PrepareFailed(String),
    QueryFailed(String),
}

pub enum QueryOutcomeV {
    Rows { columns: Seq<Seq<char>>, rows: Seq<Seq<JsonV>> },
    PrepareFailed(Seq<char>),
    QueryFailed(Seq<char>),
}

pub open spec fn rows_view(rows: Seq<Vec<Json>>) -> Seq<Seq<JsonV>> {
    rows.map_values(|r: Vec<Json>| view_items(r@))
}

impl View for QueryOutcome {
    type V = QueryOutcomeV;

    open spec fn view(&self) -> QueryOutcomeV {
        match self {
            QueryOutcome::Rows { columns, rows } => QueryOutcomeV::Rows {
                columns: columns.deep_view(),
                rows: rows_view(rows@),
            },
            QueryOutcome::PrepareFailed(e) => QueryOutcomeV::PrepareFailed(e@),
            QueryOutcome::QueryFailed(e) => QueryOutcomeV::QueryFailed(e@),
        }
    }
}

/// The tag that starts each message about query `id`: `[id] `.
pub open spec fn tag(id: Seq<char>) -> Seq<char> {
    "["@ + id + "] "@
}

/// The position of the last column with this name.
pub open spec fn last_column(cols: Seq<Seq<char>>, name: Seq<char>) -> Option<int>
    decreases cols.len(),
{
    if cols.len() == 0 {
        None
    } else if cols.last() == name {
        Some(cols.len() - 1)
    } else {
        last_column(cols.drop_last(), name)
    }
}

/// The value of the named column in a row (the last column of that name),
/// or null.
pub open spec fn column_value(cols: Seq<Seq<char>>, row: Seq<JsonV>, name: Seq<char>) -> JsonV {
    match last_column(cols, name) {
        Some(k) => if k < row.len() {
            row[k]
        } else {
            JsonV::Null
        },
        None => JsonV::Null,
    }
}

/// `{"$eq": x}`.
pub open spec fn eq_wrapped(x: JsonV) -> JsonV {
    JsonV::Object(seq![("$eq"@, x)])
}

/// The number a row count is checked as.
pub open spec fn count_view(n: nat) -> JsonV {
    JsonV::Number(
        crate::json::NumberV {
            kind: NumKindV::PosInt(n as u64),
            f64_bits: small_int_double_bits(n) as u64,
            f64_text: decimal(n),
        },
    )
}

/// Messages of the `$column_names` check for the required columns.
pub open spec fn missing_columns(id: Seq<char>, required: Seq<JsonV>, cols: Seq<Seq<char>>) -> Seq<Seq<char>>
    decreases required.len(),
{
    if required.len() == 0 {
        Seq::empty()
    } else {
        let name = str_or_empty(required.last());
        missing_columns(id, required.drop_last(), cols) + if cols.contains(name) {
            Seq::<Seq<char>>::empty()
        } else {
            seq![tag(id) + "$column_names: missing column '"@ + name + "'"@]
        }
    }
}

/// Messages of the `$row` check for the listed fields of one row.
pub open spec fn row_field_failures(
    id: Seq<char>,
    index: u64,
    fields: Seq<(Seq<char>, JsonV)>,
    cols: Seq<Seq<char>>,
    row: Seq<JsonV>,
) -> Seq<Seq<char>>
    decreases fields.len(),
{
    if fields.len() == 0 {
        Seq::empty()
    } else {
        let (field, fa) = fields.last();
        let assertion = if is_operator_object(fa) { fa } else { eq_wrapped(fa) };
        row_field_failures(id, index, fields.drop_last(), cols, row) + body_failures(
            assertion,
            column_value(cols, row, field),
            tag(id) + "row["@ + decimal(index as nat) + "]."@ + field,
        )
    }
}

/// Messages of one database check `op: expected` on a query's rows.
pub open spec fn db_op_failures(
    id: Seq<char>,
    op: Seq<char>,
    expected: JsonV,
    cols: Seq<Seq<char>>,
    rows: Seq<Seq<JsonV>>,
) -> Seq<Seq<char>> {
    if op == "$row_count"@ {
        body_failures(
            if expected is Object { expected } else { eq_wrapped(expected) },
            count_view(rows.len()),
            tag(id) + "$row_count"@,
        )
    } else if op == "$column_names"@ {
        match expected {
            JsonV::Object(es) => match lookup(es, "$contains_all"@) {
                Some(JsonV::Array(required)) => missing_columns(id, required, cols),
                Some(_) => seq![tag(id) + "$column_names.$contains_all must be an array"@],
                None => seq![tag(id) + "$column_names: unknown operator"@],
            },
            _ => seq![tag(id) + "$column_names value must be an object"@],
        }
    } else if op == "$row"@ {
        let index = match get_field(expected, "index"@) {
            Some(v) => u64_or_zero(v),
            None => 0,
        };
        let fields = match get_field(expected, "fields"@) {
            Some(v) => v,
            None => JsonV::Null,
        };
        if index >= rows.len() {
            seq![tag(id) + "$row: no row at index "@ + decimal(index as nat) + " (got "@ + decimal(rows.len()) + " rows)"@]
        } else {
            match fields {
                JsonV::Object(fes) => row_field_failures(id, index, fes, cols, rows[index as int]),
                JsonV::Null => Seq::empty(),
                _ => seq![tag(id) + "$row.fields must be an object"@],
            }
        }
    } else {
        seq![tag(id) + "unknown db assert operator '"@ + op + "'"@]
    }
}

/// Messages of all checks of an assert object, in key order.
pub open spec fn db_ops_failures(
    id: Seq<char>,
    es: Seq<(Seq<char>, JsonV)>,
    cols: Seq<Seq<char>>,
    rows: Seq<Seq<JsonV>>,
) -> Seq<Seq<char>>
    decreases es.len(),
{
    if es.len() == 0 {
        Seq::empty()
    } else {
        db_ops_failures(id, es.drop_last(), cols, rows) + db_op_failures(id, es.last().0, es.last().1, cols, rows)
    }
}

/// The messages of a query's checks: the error of preparing or running it,
/// or, for an assert that is not an object, that error, or else the
/// messages of each check.
pub open spec fn query_failures(id: Seq<char>, outcome: QueryOutcomeV, assert: JsonV) -> Seq<Seq<char>> {
    match outcome {
        QueryOutcomeV::PrepareFailed(e) => seq![tag(id) + "SQL error: "@ + e],
        QueryOutcomeV::QueryFailed(e) => seq![tag(id) + "query failed: "@ + e],
        QueryOutcomeV::Rows { columns, rows } => match assert {
            JsonV::Object(es) => db_ops_failures(id, es, columns, rows),
            _ => seq![tag(id) + "assert must be an object"@],
        },
    }
}

proof fn lemma_db_ops_concat(
    id: Seq<char>,
    a: Seq<(Seq<char>, JsonV)>,
    b: Seq<(Seq<char>, JsonV)>,
    cols: Seq<Seq<char>>,
    rows: Seq<Seq<JsonV>>,
)
    ensures
        db_ops_failures(id, a + b, cols, rows) == db_ops_failures(id, a, cols, rows) + db_ops_failures(id, b, cols, rows),
    decreases b.len(),
{
    if b.len() == 0 {
        assert(a + b =~= a);
        assert(db_ops_failures(id, a, cols, rows) + db_ops_failures(id, b, cols, rows) =~= db_ops_failures(id, a, cols, rows));
    } else {
        lemma_db_ops_concat(id, a, b.drop_last(), cols, rows);
        assert((a + b).drop_last() =~= a + b.drop_last());
        assert((a + b).last() == b.last());
        let x = db_ops_failures(id, a, cols, rows);
        let y = db_ops_failures(id, b.drop_last(), cols, rows);
        let z = db_op_failures(id, b.last().0, b.last().1, cols, rows);
        assert((x + y) + z =~= x + (y + z));
    }
}

/// The messages of an assert object are those of each of its checks, in
/// order: an object with no checks gives none, one check gives that check's
/// messages, and the checks of two runs of entries give the messages of the
/// first run followed by those of the second.
pub proof fn law_query_checks_add_up(
    id: Seq<char>,
    columns: Seq<Seq<char>>,
    rows: Seq<Seq<JsonV>>,
    a: Seq<(Seq<char>, JsonV)>,
    b: Seq<(Seq<char>, JsonV)>,
    op: Seq<char>,
    expected: JsonV,
)
    ensures
        query_failures(id, QueryOutcomeV::Rows { columns, rows }, JsonV::Object(Seq::empty())) == Seq::<Seq<char>>::empty(),
        query_failures(id, QueryOutcomeV::Rows { columns, rows }, JsonV::Object(seq![(op, expected)]))
            == db_op_failures(id, op, expected, columns, rows),
        query_failures(id, QueryOutcomeV::Rows { columns, rows }, JsonV::Object(a + b)) == query_failures(
            id,
            QueryOutcomeV::Rows { columns, rows },
            JsonV::Object(a),
        ) + query_failures(id, QueryOutcomeV::Rows { columns, rows }, JsonV::Object(b)),
{
    lemma_db_ops_concat(id, a, b, columns, rows);
    let one = seq![(op, expected)];
    assert(one.drop_last() =~= Seq::<(Seq<char>, JsonV)>::empty());
    assert(db_ops_failures(id, Seq::<(Seq<char>, JsonV)>::empty(), columns, rows) == Seq::<Seq<char>>::empty());
    assert(db_ops_failures(id, one, columns, rows) =~= db_op_failures(id, op, expected, columns, rows));
}

fn tag_text(id: &str) -> (r: String)
    ensures
        r@ == tag(id@),
{
    let mut r = String::from_str("[");
    r.append(id);
    r.append("] ");
    r
}

fn push_one(out: &mut Vec<String>, m: String)
    ensures
        final(out).deep_view() == old(out).deep_view().push(m@),
{
    let ghost d = out.deep_view();
    out.push(m);
    assert(out.deep_view() =~= d.push(m@));
}

fn column_value_of(cols: &Vec<String>, row: &Vec<Json>, name: &str) -> (r: Json)
    ensures
        r@ == column_value(cols.deep_view(), view_items(row@), name@),
{
    let ghost cv = cols.deep_view();
    let mut k: usize = cols.len();
    assert(cv.take(k as int) =~= cv);
    while k > 0
        invariant
            k <= cols.len(),
            cv == cols.deep_view(),
            last_column(cv, name@) == last_column(cv.take(k as int), name@),
        decreases k,
    {
        proof {
            assert(cv.take(k as int).drop_last() =~= cv.take(k - 1));
        }
        if str_equal(cols[k - 1].as_str(), name) {
            assert(last_column(cv, name@) == Some(k - 1));
            if k - 1 < row.len() {
                return row[k - 1].duplicate();
            } else {
                return Json::Null;
            }
        }
        k = k - 1;
    }
    Json::Null
}

fn wrap_eq(x: &Json) -> (r: Json)
    ensures
        r@ == eq_wrapped(x@),
{
    let mut es: Vec<(String, Json)> = Vec::new();
    es.push((String::from_str("$eq"), x.duplicate()));
    let r = Json::Object(es);
    assert(view_entries(es@) =~= seq![("$eq"@, x@)]);
    r
}

fn has_column(cols: &Vec<String>, name: &str) -> (r: bool)
    ensures
        r == cols.deep_view().contains(name@),
{
    let ghost cv = cols.deep_view();
    let mut k: usize = 0;
    while k < cols.len()
        invariant
            k <= cols.len(),
            cv == cols.deep_view(),
            forall|m: int| 0 <= m < k ==> cv[m] != name@,
        decreases cols.len() - k,
    {
        if str_equal(cols[k].as_str(), name) {
            assert(cv[k as int] == name@);
            return true;
        }
        k = k + 1;
    }
    false
}

fn check_missing_columns(id: &str, required: &Vec<Json>, cols: &Vec<String>, out: &mut Vec<String>)
    ensures
        final(out).deep_view() == old(out).deep_view() + missing_columns(id@, view_items(required@), cols.deep_view()),
{
    let ghost o = out.deep_view();
    let ghost reqv = view_items(required@);
    let ghost cv = cols.deep_view();
    let mut i: usize = 0;
    while i < required.len()
        invariant
            i <= required.len(),
            reqv == view_items(required@),
            cv == cols.deep_view(),
            out.deep_view() == o + missing_columns(id@, reqv.take(i as int), cv),
        decreases required.len() - i,
    {
        let name = required[i].str_or_empty();
        let ghost before = out.deep_view();
        proof {
            assert(reqv.take(i + 1).drop_last() =~= reqv.take(i as int));
            assert(reqv.take(i + 1).last() == reqv[i as int]);
        }
        if !has_column(cols, name.as_str()) {
            let mut m = tag_text(id);
            m.append("$column_names: missing column '");
            m.append(name.as_str());
            m.append("'");
            push_one(out, m);
            assert(out.deep_view() =~= o + missing_columns(id@, reqv.take(i + 1), cv));
        } else {
            assert(out.deep_view() =~= o + missing_columns(id@, reqv.take(i + 1), cv));
        }
        i = i + 1;
    }
    assert(reqv.take(i as int) =~= reqv);
}

fn check_row_fields(
    id: &str,
    index: u64,
    fields: &Vec<(String, Json)>,
    cols: &Vec<String>,
    row: &Vec<Json>,
    out: &mut Vec<String>,
)
    ensures
        final(out).deep_view() == old(out).deep_view() + row_field_failures(
            id@,
            index,
            view_entries(fields@),
            cols.deep_view(),
            view_items(row@),
        ),
{
    let ghost o = out.deep_view();
    let ghost fv = view_entries(fields@);
    let ghost cv = cols.deep_view();
    let ghost rw = view_items(row@);
    let mut j: usize = 0;
    while j < fields.len()
        invariant
            j <= fields.len(),
            fv == view_entries(fields@),
            cv == cols.deep_view(),
            rw == view_items(row@),
            out.deep_view() == o + row_field_failures(id@, index, fv.take(j as int), cv, rw),
        decreases fields.len() - j,
    {
        let field = &fields[j].0;
        let fa = &fields[j].1;
        proof {
            assert(fv.take(j + 1).drop_last() =~= fv.take(j as int));
            assert(fv.take(j + 1).last() == fv[j as int]);
            assert(fv[j as int] == (field@, fa@));
        }
        let assertion = if fa.is_operator_object() {
            fa.duplicate()
        } else {
            wrap_eq(fa)
        };
        let mut path = tag_text(id);
        path.append("row[");
        let digits = u64_text(index);
        path.append(digits.as_str());
        path.append("].");
        path.append(field.as_str());
        let actual = column_value_of(cols, row, field.as_str());
        let f = evaluate_body_assertion(&assertion, &actual, path.as_str());
        extend_strings(out, f);
        proof {
            assert(path@ =~= tag(id@) + "row["@ + decimal(index as nat) + "]."@ + field@);
            assert(out.deep_view() =~= o + row_field_failures(id@, index, fv.take(j + 1), cv, rw));
        }
        j = j + 1;
    }
    assert(fv.take(j as int) =~= fv);
}

fn push_tagged(id: &str, text: &str, out: &mut Vec<String>)
    ensures
        final(out).deep_view() == old(out).deep_view().push(tag(id@) + text@),
{
    let mut m = tag_text(id);
    m.append(text);
    push_one(out, m);
}

fn check_db_op(id: &str, op: &str, expected: &Json, cols: &Vec<String>, rows: &Vec<Vec<Json>>, out: &mut Vec<String>)
    requires
        rows@.len() < 0x20_0000_0000_0000,
    ensures
        final(out).deep_view() == old(out).deep_view() + db_op_failures(
            id@,
            op@,
            expected@,
            cols.deep_view(),
            rows_view(rows@),
        ),
{
    let ghost o = out.deep_view();
    let ghost cv = cols.deep_view();
    let ghost rv = rows_view(rows@);
    proof {
        reveal_strlit("$row_count");
        reveal_strlit("$column_names");
        reveal_strlit("$row");
    }
    if str_equal(op, "$row_count") {
        let count = Json::Number(count_number(rows.len() as u64));
        let assertion = if matches!(expected, Json::Object(_)) {
            expected.duplicate()
        } else {
            wrap_eq(expected)
        };
        let mut path = tag_text(id);
        path.append("$row_count");
        let f = evaluate_body_assertion(&assertion, &count, path.as_str());
        assert(count@ == count_view(rv.len()));
        extend_strings(out, f);
    } else if str_equal(op, "$column_names") {
        match expected {
            Json::Object(_) => match expected.field("$contains_all") {
                Some(Json::Array(required)) => {
                    check_missing_columns(id, required, cols, out);
                },
                Some(_) => {
                    push_tagged(id, "$column_names.$contains_all must be an array", out);
                },
                None => {
                    push_tagged(id, "$column_names: unknown operator", out);
                },
            },
            _ => {
                push_tagged(id, "$column_names value must be an object", out);
            },
        }
    } else if str_equal(op, "$row") {
        let index: u64 = match expected.field("index") {
            Some(v) => v.u64_or_zero(),
            None => 0,
        };
        let fields = expected.field_or_null("fields");
        if index >= rows.len() as u64 {
            let mut m = tag_text(id);
            m.append("$row: no row at index ");
            let a = u64_text(index);
            m.append(a.as_str());
            m.append(" (got ");
            let b = u64_text(rows.len() as u64);
            m.append(b.as_str());
            m.append(" rows)");
            push_one(out, m);
            proof {
                assert(rv.len() == rows@.len());
            }
        } else {
            let row = &rows[index as usize];
            assert(rv[index as int] == view_items(row@));
            match &fields {
                Json::Object(fes) => {
                    check_row_fields(id, index, fes, cols, row, out);
                },
                Json::Null => {
                    assert(out.deep_view() =~= o + Seq::<Seq<char>>::empty());
                },
                _ => {
                    push_tagged(id, "$row.fields must be an object", out);
                },
            }
        }
    } else {
        let mut m = tag_text(id);
        m.append("unknown db assert operator '");
        m.append(op);
        m.append("'");
        push_one(out, m);
    }
}

/// The messages of one query's checks (see `query_failures`), each
/// starting with `[id] `.
pub fn evaluate_query(id: &str, outcome: &QueryOutcome, assert: &Json) -> (r: Vec<String>)
    requires
        outcome matches QueryOutcome::Rows { rows, .. } ==> rows@.len() < 0x20_0000_0000_0000,
    ensures
        r.deep_view() == query_failures(id@, outcome@, assert@),
{
    let mut out: Vec<String> = Vec::new();
    match outcome {
        QueryOutcome::PrepareFailed(e) => {
            let mut m = tag_text(id);
            m.append("SQL error: ");
            m.append(e.as_str());
            push_one(&mut out, m);
            assert(out.deep_view() =~= query_failures(id@, outcome@, assert@));
        },
        QueryOutcome::QueryFailed(e) => {
            let mut m = tag_text(id);
            m.append("query failed: ");
            m.append(e.as_str());
            push_one(&mut out, m);
            assert(out.deep_view() =~= query_failures(id@, outcome@, assert@));
        },
        QueryOutcome::Rows { columns, rows } => match assert {
            Json::Object(es) => {
                let ghost ves = view_entries(es@);
                let ghost cv = columns.deep_view();
                let ghost rv = rows_view(rows@);
                let mut i: usize = 0;
                assert(out.deep_view() =~= db_ops_failures(id@, ves.take(0), cv, rv));
                while i < es.len()
                    invariant
                        i <= es.len(),
                        ves == view_entries(es@),
                        cv == columns.deep_view(),
                        rv == rows_view(rows@),
                        rows@.len() < 0x20_0000_0000_0000,
                        out.deep_view() == db_ops_failures(id@, ves.take(i as int), cv, rv),
                    decreases es.len() - i,
                {
                    proof {
                        assert(ves.take(i + 1).drop_last() =~= ves.take(i as int));
                        assert(ves.take(i + 1).last() == ves[i as int]);
                    }
                    check_db_op(id, es[i].0.as_str(), &es[i].1, columns, rows, &mut out);
                    i = i + 1;
                }
                assert(ves.take(i as int) =~= ves);
            },
            _ => {
                push_tagged(id, "assert must be an object", &mut out);
                assert(out.deep_view() =~= query_failures(id@, outcome@, assert@));
            },
        },
    }
    out
}


// ── Where the database may be ──────────────────────────────────────────────

/// The message for a database path that leaves the project folder.
pub open spec fn escape_message(database: Seq<char>) -> Seq<char> {
    "DB: database path '"@ + database + "' escapes the project folder — aborting."@
}

/// Where the database of a block is read from: the project root joined
/// with the block's path, taken as the file system resolved it
/// (`canonical`) or, when it could not (the file does not exist), with `.`
/// and `..` resolved by text. A location outside the root is refused.
pub open spec fn located(root: Seq<char>, database: Seq<char>, canonical: Option<Seq<char>>) -> Result<Seq<char>, Seq<char>> {
    let candidate = match canonical {
        Some(c) => c,
        None => normalized(joined(root, database)),
    };
    if within(candidate, root) {
        Ok(candidate)
    } else {
        Err(escape_message(database))
    }
}

pub open spec fn text_option(o: Option<String>) -> Option<Seq<char>> {
    match o {
        Some(c) => Some(c@),
        None => None,
    }
}

/// The location of the database (see `located`). `root` is the resolved
/// project folder and `canonical` the resolved form of `root` joined with
/// `database`, when the file system could resolve it.
pub fn locate_database(root: &str, database: &str, canonical: Option<String>) -> (r: Result<String, String>)
    ensures
        match r {
            Ok(p) => located(root@, database@, text_option(canonical)) == Ok::<Seq<char>, Seq<char>>(p@),
            Err(m) => located(root@, database@, text_option(canonical)) == Err::<Seq<char>, Seq<char>>(m@),
        },
        r is Ok ==> within(r->Ok_0@, root@),
{
    let candidate = match canonical {
        Some(c) => c,
        None => {
            let j = join_path(root, database);
            normalize_path(j.as_str())
        },
    };
    if path_within(candidate.as_str(), root) {
        Ok(candidate)
    } else {
        let mut m = String::from_str("DB: database path '");
        m.append(database);
        m.append("' escapes the project folder — aborting.");
        proof {
            reveal_strlit("DB: database path '");
            reveal_strlit("' escapes the project folder — aborting.");
        }
        Err(m)
    }
}

/// A message of the database checks as the test reports it.
pub open spec fn db_message(m: Seq<char>) -> Seq<char> {
    "DB: "@ + m
}

pub open spec fn db_messages(ms: Seq<Seq<char>>) -> Seq<Seq<char>> {
    ms.map_values(|m: Seq<char>| db_message(m))
}

/// Appends the messages of one query to `out`, each prefixed with `DB: `.
pub fn push_db_messages(out: &mut Vec<String>, failures: Vec<String>)
    ensures
        final(out).deep_view() == old(out).deep_view() + db_messages(failures.deep_view()),
{
    let ghost o = out.deep_view();
    let ghost fv = failures.deep_view();
    let mut i: usize = 0;
    while i < failures.len()
        invariant
            i <= failures.len(),
            fv == failures.deep_view(),
            out.deep_view() == o + db_messages(fv.take(i as int)),
        decreases failures.len() - i,
    {
        let mut m = String::from_str("DB: ");
        m.append(failures[i].as_str());
        proof {
            reveal_strlit("DB: ");
        }
        push_one(out, m);
        assert(db_messages(fv.take(i + 1)) =~= db_messages(fv.take(i as int)).push(db_message(fv[i as int])));
        assert(out.deep_view() =~= o + db_messages(fv.take(i + 1)));
        i = i + 1;
    }
    assert(fv.take(i as int) =~= fv);
}

/// The message for a project folder that could not be resolved.
pub fn invalid_folder_message(error: &str) -> (r: String)
    ensures
        r@ == "DB: invalid project folder: "@ + error@,
{
    let mut m = String::from_str("DB: invalid project folder: ");
    m.append(error);
    m
}

/// The message for a database that could not be opened.
pub fn open_failure_message(database: &str, error: &str) -> (r: String)
    ensures
        r@ == "DB: could not open '"@ + database@ + "': "@ + error@,
{
    let mut m = String::from_str("DB: could not open '");
    m.append(database);
    m.append("': ");
    m.append(error);
    m
}

/// How a BLOB cell is shown among the row values: `<blob N bytes>`.
pub fn blob_text(len: u64) -> (r: String)
    ensures
        r@ == "<blob "@ + decimal(len as nat) + " bytes>"@,
{
    let mut m = String::from_str("<blob ");
    let d = u64_text(len);
    m.append(d.as_str());
    m.append(" bytes>");
    m
}

} // verus!
