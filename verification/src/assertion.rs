//! The body-assertion engine of chapter tests: operator objects (`$eq`,
//! `$gt`, `$contains`, ...), plain objects that recurse into fields, and bare
//! scalars compared for equality. Each failed check yields one
//! human-readable message.

use vstd::prelude::*;
use crate::json::{
    Json, JsonV, view_entries, NumKindV, json_eq, json_text, field_or_null, str_or_empty, bool_or_true,
    u64_or_zero, kind_name, has_operator, is_operator_object, float_key,
};
use crate::text::{decimal, occurs_in, str_equal, str_contains, extend_strings, u64_text};

verus! {

// ── Regular expressions ────────────────────────────────────────────────────

/// The error text that compiling `pattern` as a regular expression gives,
/// or `None` when it compiles.
pub uninterp spec fn regex_error(pattern: Seq<char>) -> Option<Seq<char>>;

/// Whether the regular expression `pattern` matches somewhere in `haystack`.
pub uninterp spec fn regex_is_match(pattern: Seq<char>, haystack: Seq<char>) -> bool;

#[verifier::external_type_specification]
#[verifier::external_body]
pub struct ExRegex(regex::Regex);

/// A compiled regular expression together with the pattern it came from.
pub(crate) struct CompiledRegex {
    re: regex::Regex,
    pattern: String,
}

impl CompiledRegex {
    pub closed spec fn pattern(&self) -> Seq<char> {
        self.pattern@
    }
}

/// Compiles a pattern with `regex::Regex::new`; the contract claims that
/// the outcome depends on the pattern alone, and names the error text.
#[verifier::external_body]
pub(crate) fn compile_regex(pattern: &str) -> (r: Result<CompiledRegex, String>)
    ensures
        match r {
            Ok(c) => c.pattern() == pattern@ && regex_error(pattern@) is None,
            Err(m) => regex_error(pattern@) == Some(m@),
        },
{
    match regex::Regex::new(pattern) {
        Ok(re) => Ok(CompiledRegex { re, pattern: pattern.to_string() }),
        Err(e) => Err(e.to_string()),
    }
}

/// `regex::Regex::is_match`; the contract claims that the answer depends on
/// the pattern and the haystack alone.
#[verifier::external_body]
pub(crate) fn regex_matches(re: &CompiledRegex, haystack: &str) -> (b: bool)
    ensures
        b == regex_is_match(re.pattern(), haystack@),
{
    re.re.is_match(haystack)
}

/// The successive non-overlapping matches of `pattern` in `haystack`, left
/// to right: the byte offsets where each match starts and ends and, when the
/// first group took part in it, where that group starts and ends.
pub uninterp spec fn regex_capture_spans(pattern: Seq<char>, haystack: Seq<char>) -> Seq<(usize, usize, Option<(usize, usize)>)>;

/// `regex::Regex::captures_iter`, each match given by its byte offsets
/// (`Captures::get_match`, `Captures::get(1)`); the contract names the list
/// and claims that it depends on the pattern and the haystack alone.
#[verifier::external_body]
pub(crate) fn capture_spans(re: &CompiledRegex, haystack: &str) -> (r: Vec<(usize, usize, Option<(usize, usize)>)>)
    ensures
        r@ == regex_capture_spans(re.pattern(), haystack@),
{
    let mut spans = Vec::new();
    for caps in re.re.captures_iter(haystack) {
        let m = caps.get_match();
        let group = match caps.get(1) {
            Some(g) => Some((g.start(), g.end())),
            None => None,
        };
        spans.push((m.start(), m.end(), group));
    }
    spans
}

// ── What an assertion means ────────────────────────────────────────────────

/// The order position of a number's value as a double, when `v` is a number.
pub open spec fn numeric_position(v: JsonV) -> Option<int> {
    match v {
        JsonV::Number(n) => Some(float_key(n.f64_bits)),
        _ => None,
    }
}

/// The text of a number's value as a double (empty for non-numbers).
pub open spec fn numeric_text(v: JsonV) -> Seq<char> {
    match v {
        JsonV::Number(n) => n.f64_text,
        _ => Seq::empty(),
    }
}

/// Whether an ordering operator accepts `a` (actual) against `e` (expected).
pub open spec fn order_holds(op: Seq<char>, a: int, e: int) -> bool {
    if op == "$gt"@ {
        a > e
    } else if op == "$gte"@ {
        a >= e
    } else if op == "$lt"@ {
        a < e
    } else {
        a <= e
    }
}

pub open spec fn is_order_op(op: Seq<char>) -> bool {
    op == "$gt"@ || op == "$gte"@ || op == "$lt"@ || op == "$lte"@
}

pub open spec fn array_len(v: JsonV) -> Option<nat> {
    match v {
        JsonV::Array(xs) => Some(xs.len()),
        _ => None,
    }
}

/// Whether an operator entry `op: expected` accepts `actual`.
pub open spec fn op_holds(op: Seq<char>, expected: JsonV, actual: JsonV) -> bool
    decreases expected, 1int,
{
    if op == "$eq"@ {
        json_eq(actual, expected)
    } else if op == "$not_eq"@ {
        !json_eq(actual, expected)
    } else if op == "$type"@ {
        kind_name(actual) == str_or_empty(expected)
    } else if op == "$exists"@ {
        !(bool_or_true(expected) && actual is Null)
    } else if is_order_op(op) {
        match (numeric_position(actual), numeric_position(expected)) {
            (Some(a), Some(e)) => order_holds(op, a, e),
            _ => false,
        }
    } else if op == "$contains_string"@ {
        occurs_in(str_or_empty(actual), str_or_empty(expected))
    } else if op == "$matches"@ {
        regex_error(str_or_empty(expected)) is None && regex_is_match(str_or_empty(expected), str_or_empty(actual))
    } else if op == "$is_array"@ {
        !(bool_or_true(expected) && !(actual is Array))
    } else if op == "$length"@ {
        array_len(actual) matches Some(n) && n == u64_or_zero(expected)
    } else if op == "$min_length"@ {
        array_len(actual) matches Some(n) && n >= u64_or_zero(expected)
    } else if op == "$contains"@ {
        match actual {
            JsonV::Array(xs) => exists|k: int| 0 <= k < xs.len() && object_matches(#[trigger] xs[k], expected),
            _ => false,
        }
    } else {
        false
    }
}

/// Whether an array element matches a pattern: every key of an object
/// pattern is checked on the element's field (operator objects as
/// assertions, anything else for equality); a non-object pattern is
/// compared with the element.
pub open spec fn object_matches(item: JsonV, pattern: JsonV) -> bool
    decreases pattern, 0int,
{
    match pattern {
        JsonV::Object(es) => forall|i: int|
            0 <= i < es.len() ==> if is_operator_object((#[trigger] es[i]).1) {
                holds(es[i].1, field_or_null(item, es[i].0))
            } else {
                json_eq(field_or_null(item, es[i].0), es[i].1)
            },
        _ => json_eq(item, pattern),
    }
}

/// Whether an assertion accepts a value: an operator object when every
/// operator accepts it, a plain object when every field's assertion accepts
/// the value's field (null when missing), anything else when equal.
pub open spec fn holds(assertion: JsonV, actual: JsonV) -> bool
    decreases assertion, 3int,
{
    match assertion {
        JsonV::Object(es) => if has_operator(es) {
            forall|i: int| 0 <= i < es.len() ==> op_holds((#[trigger] es[i]).0, es[i].1, actual)
        } else {
            forall|i: int| 0 <= i < es.len() ==> holds((#[trigger] es[i]).1, field_or_null(actual, es[i].0))
        },
        _ => json_eq(actual, assertion),
    }
}

// ── The messages an assertion produces ─────────────────────────────────────

pub open spec fn quote_single(s: Seq<char>) -> Seq<char> {
    seq!['\''] + s + seq!['\'']
}

/// The message of a failed check of one operator entry, if it fails.
pub open spec fn op_failures(op: Seq<char>, expected: JsonV, actual: JsonV, path: Seq<char>) -> Seq<Seq<char>> {
    if op_holds(op, expected, actual) {
        Seq::empty()
    } else {
        seq![op_message(op, expected, actual, path)]
    }
}

pub open spec fn order_symbol(op: Seq<char>) -> Seq<char> {
    if op == "$gt"@ {
        ">"@
    } else if op == "$gte"@ {
        ">="@
    } else if op == "$lt"@ {
        "<"@
    } else {
        "<="@
    }
}

/// The text of the message for a failed operator entry.
pub open spec fn op_message(op: Seq<char>, expected: JsonV, actual: JsonV, path: Seq<char>) -> Seq<char> {
    if op == "$eq"@ {
        path + ": expected "@ + json_text(expected) + " got "@ + json_text(actual)
    } else if op == "$not_eq"@ {
        path + ": expected value to not equal "@ + json_text(expected)
    } else if op == "$type"@ {
        path + ": expected type "@ + quote_single(str_or_empty(expected)) + " got "@ + quote_single(kind_name(actual))
    } else if op == "$exists"@ {
        path + ": field must exist"@
    } else if is_order_op(op) {
        if numeric_position(actual) is Some && numeric_position(expected) is Some {
            path + ": expected "@ + order_symbol(op) + " "@ + numeric_text(expected) + " got "@ + numeric_text(actual)
        } else {
            path + ": "@ + op + " requires numeric values"@
        }
    } else if op == "$contains_string"@ {
        path + ": expected string to contain "@ + quote_single(str_or_empty(expected)) + ", got "@
            + quote_single(str_or_empty(actual))
    } else if op == "$matches"@ {
        match regex_error(str_or_empty(expected)) {
            None => path + ": "@ + quote_single(str_or_empty(actual)) + " did not match regex /"@
                + str_or_empty(expected) + "/"@,
            Some(err) => path + ": invalid regex "@ + quote_single(str_or_empty(expected)) + ": "@ + err,
        }
    } else if op == "$is_array"@ {
        path + ": expected array, got "@ + kind_name(actual)
    } else if op == "$length"@ {
        match array_len(actual) {
            Some(n) => path + ": expected length "@ + decimal(u64_or_zero(expected) as nat) + " got "@ + decimal(n),
            None => path + ": $length requires an array"@,
        }
    } else if op == "$min_length"@ {
        match array_len(actual) {
            Some(n) => path + ": expected min length "@ + decimal(u64_or_zero(expected) as nat) + " got "@ + decimal(n),
            None => path + ": $min_length requires an array"@,
        }
    } else if op == "$contains"@ {
        if actual is Array {
            path + ": array does not contain an element matching "@ + json_text(expected)
        } else {
            path + ": $contains requires an array"@
        }
    } else {
        path + ": unknown operator "@ + quote_single(op)
    }
}

/// The messages of the failed operator entries among `es`, in order.
pub open spec fn operator_failures(es: Seq<(Seq<char>, JsonV)>, actual: JsonV, path: Seq<char>) -> Seq<Seq<char>>
    decreases es.len(),
{
    if es.len() == 0 {
        Seq::empty()
    } else {
        operator_failures(es.drop_last(), actual, path) + op_failures(es.last().0, es.last().1, actual, path)
    }
}

/// The messages of the failed field assertions among `es`, in order; each
/// field's assertion checks the value's field of that name under the path
/// `path.field`.
pub open spec fn field_failures(es: Seq<(Seq<char>, JsonV)>, actual: JsonV, path: Seq<char>) -> Seq<Seq<char>>
    decreases es,
{
    if es.len() == 0 {
        Seq::empty()
    } else {
        field_failures(es.drop_last(), actual, path) + body_failures(
            es.last().1,
            field_or_null(actual, es.last().0),
            path + "."@ + es.last().0,
        )
    }
}

/// The messages of all failed checks of `assertion` against `actual`, in
/// key order; `path` names the checked value in the messages.
pub open spec fn body_failures(assertion: JsonV, actual: JsonV, path: Seq<char>) -> Seq<Seq<char>>
    decreases assertion,
{
    match assertion {
        JsonV::Object(es) => if has_operator(es) {
            operator_failures(es, actual, path)
        } else {
            field_failures(es, actual, path)
        },
        _ => if json_eq(actual, assertion) {
            Seq::empty()
        } else {
            seq![path + ": expected "@ + json_text(assertion) + " got "@ + json_text(actual)]
        },
    }
}

// ── Laws ────────────────────────────────────────────────────────────────────

proof fn lemma_operator_failures_empty(es: Seq<(Seq<char>, JsonV)>, actual: JsonV, path: Seq<char>)
    ensures
        operator_failures(es, actual, path).len() == 0 <==> forall|i: int|
            0 <= i < es.len() ==> op_holds((#[trigger] es[i]).0, es[i].1, actual),
    decreases es.len(),
{
    if es.len() > 0 {
        lemma_operator_failures_empty(es.drop_last(), actual, path);
        assert forall|i: int| 0 <= i < es.len() - 1 implies #[trigger] es.drop_last()[i] == es[i] by {}
        if operator_failures(es, actual, path).len() == 0 {
            assert forall|i: int| 0 <= i < es.len() implies op_holds((#[trigger] es[i]).0, es[i].1, actual) by {
                if i < es.len() - 1 {
                    assert(es.drop_last()[i] == es[i]);
                }
            }
        }
    }
}

proof fn lemma_field_failures_empty(es: Seq<(Seq<char>, JsonV)>, actual: JsonV, path: Seq<char>)
    ensures
        field_failures(es, actual, path).len() == 0 <==> forall|i: int|
            0 <= i < es.len() ==> holds((#[trigger] es[i]).1, field_or_null(actual, es[i].0)),
    decreases es,
{
    if es.len() > 0 {
        lemma_field_failures_empty(es.drop_last(), actual, path);
        law_no_failures_iff_holds(es.last().1, field_or_null(actual, es.last().0), path + "."@ + es.last().0);
        assert forall|i: int| 0 <= i < es.len() - 1 implies #[trigger] es.drop_last()[i] == es[i] by {}
        if field_failures(es, actual, path).len() == 0 {
            assert forall|i: int| 0 <= i < es.len() implies holds((#[trigger] es[i]).1, field_or_null(actual, es[i].0)) by {
                if i < es.len() - 1 {
                    assert(es.drop_last()[i] == es[i]);
                }
            }
        }
    }
}

/// An assertion yields no failure message exactly when it holds of the value.
pub proof fn law_no_failures_iff_holds(assertion: JsonV, actual: JsonV, path: Seq<char>)
    ensures
        body_failures(assertion, actual, path).len() == 0 <==> holds(assertion, actual),
    decreases assertion,
{
    match assertion {
        JsonV::Object(es) => {
            if has_operator(es) {
                lemma_operator_failures_empty(es, actual, path);
            } else {
                lemma_field_failures_empty(es, actual, path);
            }
        },
        _ => {},
    }
}

/// Writing `{"$eq": x}` for a value `x` that is not an object checks exactly
/// what writing `x` itself checks, with the same messages.
pub proof fn law_eq_shorthand(x: JsonV, actual: JsonV, path: Seq<char>)
    requires
        !(x is Object),
    ensures
        body_failures(JsonV::Object(seq![("$eq"@, x)]), actual, path) == body_failures(x, actual, path),
{
    let es = seq![("$eq"@, x)];
    assert(starts_with_dollar_eq()) by {
        reveal_strlit("$eq");
    }
    assert(has_operator(es)) by {
        reveal_strlit("$eq");
        assert(crate::json::starts_with_dollar(es[0].0));
    }
    assert(es.drop_last() =~= Seq::<(Seq<char>, JsonV)>::empty());
    assert(operator_failures(es.drop_last(), actual, path) =~= Seq::<Seq<char>>::empty());
    assert(es.last() == ("$eq"@, x));
    assert(operator_failures(es, actual, path) =~= body_failures(x, actual, path));
}

spec fn starts_with_dollar_eq() -> bool {
    crate::json::starts_with_dollar("$eq"@)
}

// ── Evaluation ──────────────────────────────────────────────────────────────

fn push_message(out: &mut Vec<String>, m: String)
    ensures
        final(out).deep_view() == old(out).deep_view().push(m@),
{
    let ghost d0 = out.deep_view();
    out.push(m);
    assert(out.deep_view() =~= d0.push(m@));
}

fn single_quoted(s: &str) -> (r: String)
    ensures
        r@ == quote_single(s@),
{
    let mut r = String::new();
    r.append("'");
    r.append(s);
    r.append("'");
    proof {
        reveal_strlit("'");
    }
    assert(r@ =~= quote_single(s@));
    r
}

fn numeric_position_of(v: &Json) -> (r: Option<i128>)
    ensures
        match r {
            Some(p) => numeric_position(v@) == Some(p as int),
            None => numeric_position(v@) is None,
        },
{
    match v {
        Json::Number(n) => Some(crate::json::float_position(n.f64_bits)),
        _ => None,
    }
}

fn numeric_text_of(v: &Json) -> (r: String)
    ensures
        r@ == numeric_text(v@),
{
    match v {
        Json::Number(n) => n.f64_text.clone(),
        _ => String::new(),
    }
}

fn array_items(v: &Json) -> (r: Option<&Vec<Json>>)
    ensures
        match r {
            Some(xs) => v@ == JsonV::Array(crate::json::view_items(xs@)) && *v == Json::Array(*xs),
            None => !(v@ is Array),
        },
{
    match v {
        Json::Array(xs) => Some(xs),
        _ => None,
    }
}

/// Checks one operator entry `op: expected` against `actual`, appending the
/// message when the check fails.
fn check_operator(op: &str, expected: &Json, actual: &Json, path: &str, out: &mut Vec<String>)
    ensures
        final(out).deep_view() == old(out).deep_view() + op_failures(op@, expected@, actual@, path@),
    decreases expected, 2int,
{
    let ghost o = out.deep_view();
    let mut m = String::from_str(path);
    let ok: bool;
    if str_equal(op, "$eq") {
        ok = actual.equals(expected);
        m.append(": expected ");
        m.append(crate::json::to_text(expected).as_str());
        m.append(" got ");
        m.append(crate::json::to_text(actual).as_str());
    } else if str_equal(op, "$not_eq") {
        ok = !actual.equals(expected);
        m.append(": expected value to not equal ");
        m.append(crate::json::to_text(expected).as_str());
    } else if str_equal(op, "$type") {
        let et = expected.str_or_empty();
        let at = actual.kind_name();
        ok = str_equal(at, et.as_str());
        m.append(": expected type ");
        m.append(single_quoted(et.as_str()).as_str());
        m.append(" got ");
        m.append(single_quoted(at).as_str());
    } else if str_equal(op, "$exists") {
        ok = !(expected.bool_or_true() && matches!(actual, Json::Null));
        m.append(": field must exist");
    } else if str_equal(op, "$gt") || str_equal(op, "$gte") || str_equal(op, "$lt") || str_equal(op, "$lte") {
        match (numeric_position_of(actual), numeric_position_of(expected)) {
            (Some(a), Some(e)) => {
                let sym: &str;
                if str_equal(op, "$gt") {
                    ok = a > e;
                    sym = ">";
                } else if str_equal(op, "$gte") {
                    ok = a >= e;
                    sym = ">=";
                } else if str_equal(op, "$lt") {
                    ok = a < e;
                    sym = "<";
                } else {
                    ok = a <= e;
                    sym = "<=";
                }
                m.append(": expected ");
                m.append(sym);
                m.append(" ");
                m.append(numeric_text_of(expected).as_str());
                m.append(" got ");
                m.append(numeric_text_of(actual).as_str());
            },
            _ => {
                ok = false;
                m.append(": ");
                m.append(op);
                m.append(" requires numeric values");
            },
        }
    } else if str_equal(op, "$contains_string") {
        let needle = expected.str_or_empty();
        let hay = actual.str_or_empty();
        ok = str_contains(hay.as_str(), needle.as_str());
        m.append(": expected string to contain ");
        m.append(single_quoted(needle.as_str()).as_str());
        m.append(", got ");
        m.append(single_quoted(hay.as_str()).as_str());
    } else if str_equal(op, "$matches") {
        let pattern = expected.str_or_empty();
        let s = actual.str_or_empty();
        match compile_regex(pattern.as_str()) {
            Ok(re) => {
                ok = regex_matches(&re, s.as_str());
                m.append(": ");
                m.append(single_quoted(s.as_str()).as_str());
                m.append(" did not match regex /");
                m.append(pattern.as_str());
                m.append("/");
            },
            Err(err) => {
                ok = false;
                m.append(": invalid regex ");
                m.append(single_quoted(pattern.as_str()).as_str());
                m.append(": ");
                m.append(err.as_str());
            },
        }
    } else if str_equal(op, "$is_array") {
        ok = !(expected.bool_or_true() && !matches!(actual, Json::Array(_)));
        m.append(": expected array, got ");
        m.append(actual.kind_name());
    } else if str_equal(op, "$length") || str_equal(op, "$min_length") {
        let is_exact = str_equal(op, "$length");
        match array_items(actual) {
            Some(xs) => {
                let want = expected.u64_or_zero();
                let len: u64 = xs.len() as u64;
                if is_exact {
                    ok = len == want;
                    m.append(": expected length ");
                } else {
                    ok = len >= want;
                    m.append(": expected min length ");
                }
                m.append(u64_text(want).as_str());
                m.append(" got ");
                m.append(u64_text(len).as_str());
            },
            None => {
                ok = false;
                if is_exact {
                    m.append(": $length requires an array");
                } else {
                    m.append(": $min_length requires an array");
                }
            },
        }
    } else if str_equal(op, "$contains") {
        match array_items(actual) {
            Some(xs) => {
                let found = any_element_matches(xs, expected);
                ok = found;
                m.append(": array does not contain an element matching ");
                m.append(crate::json::to_text(expected).as_str());
            },
            None => {
                ok = false;
                m.append(": $contains requires an array");
            },
        }
    } else {
        ok = false;
        m.append(": unknown operator ");
        m.append(single_quoted(op).as_str());
    }
    assert(ok == op_holds(op@, expected@, actual@));
    assert(!ok ==> m@ == op_message(op@, expected@, actual@, path@));
    if !ok {
        push_message(out, m);
    }
}

/// Whether some element of `xs` matches `pattern`.
fn any_element_matches(xs: &Vec<Json>, pattern: &Json) -> (r: bool)
    ensures
        r == exists|k: int| 0 <= k < xs@.len() && object_matches(#[trigger] crate::json::view_items(xs@)[k], pattern@),
    decreases pattern, 1int,
{
    let ghost vs = crate::json::view_items(xs@);
    let mut k: usize = 0;
    while k < xs.len()
        invariant
            k <= xs.len(),
            vs == crate::json::view_items(xs@),
            forall|j: int| 0 <= j < k ==> !object_matches(#[trigger] vs[j], pattern@),
        decreases xs.len() - k,
    {
        if element_matches(&xs[k], pattern) {
            assert(vs[k as int] == xs@[k as int]@);
            return true;
        }
        k = k + 1;
    }
    false
}

/// Whether an array element matches a pattern (see `object_matches`).
fn element_matches(item: &Json, pattern: &Json) -> (r: bool)
    ensures
        r == object_matches(item@, pattern@),
    decreases pattern, 0int,
{
    match pattern {
        Json::Object(es) => {
            let ghost ves = view_entries(es@);
            let null = Json::Null;
            let mut i: usize = 0;
            while i < es.len()
                invariant
                    *pattern == Json::Object(*es),
                    pattern@ == JsonV::Object(ves),
                    ves == view_entries(es@),
                    i <= es.len(),
                    null == Json::Null,
                    forall|j: int|
                        0 <= j < i ==> if is_operator_object((#[trigger] ves[j]).1) {
                            holds(ves[j].1, field_or_null(item@, ves[j].0))
                        } else {
                            json_eq(field_or_null(item@, ves[j].0), ves[j].1)
                        },
                decreases es.len() - i,
            {
                proof {
                    assert(pattern->Object_0 == *es);
                    assert(decreases_to!(*pattern => *es));
                    assert(decreases_to!(*es => es@));
                    assert(decreases_to!(es@ => es@[i as int]));
                    assert(decreases_to!(es@[i as int] => es@[i as int].1));
                    assert(ves[i as int] == (es@[i as int].0@, es@[i as int].1@));
                }
                let field: &Json = match item.field(es[i].0.as_str()) {
                    Some(x) => x,
                    None => &null,
                };
                assert(field@ == field_or_null(item@, ves[i as int].0));
                if es[i].1.is_operator_object() {
                    let f = evaluate_body_assertion(&es[i].1, field, es[i].0.as_str());
                    proof {
                        law_no_failures_iff_holds(es[i as int].1@, field@, es[i as int].0@);
                    }
                    if f.len() != 0 {
                        return false;
                    }
                } else {
                    if !field.equals(&es[i].1) {
                        return false;
                    }
                }
                i = i + 1;
            }
            true
        },
        _ => item.equals(pattern),
    }
}

/// Evaluates `assertion` against `actual` and returns the messages of every
/// failed check (empty when all pass). `path` names the value in messages.
pub fn evaluate_body_assertion(assertion: &Json, actual: &Json, path: &str) -> (r: Vec<String>)
    ensures
        r.deep_view() == body_failures(assertion@, actual@, path@),
    decreases assertion, 3int,
{
    match assertion {
        Json::Object(es) => {
            let ghost ves = view_entries(es@);
            let mut failures: Vec<String> = Vec::new();
            if assertion.is_operator_object() {
                let mut i: usize = 0;
                while i < es.len()
                    invariant
                        *assertion == Json::Object(*es),
                        assertion@ == JsonV::Object(ves),
                        ves == view_entries(es@),
                        i <= es.len(),
                        failures.deep_view() == operator_failures(ves.take(i as int), actual@, path@),
                    decreases es.len() - i,
                {
                    proof {
                        assert(assertion->Object_0 == *es);
                        assert(decreases_to!(*assertion => *es));
                        assert(decreases_to!(*es => es@));
                        assert(decreases_to!(es@ => es@[i as int]));
                        assert(decreases_to!(es@[i as int] => es@[i as int].1));
                        assert(ves[i as int] == (es@[i as int].0@, es@[i as int].1@));
                    }
                    check_operator(es[i].0.as_str(), &es[i].1, actual, path, &mut failures);
                    proof {
                        let t = ves.take(i + 1);
                        assert(t.drop_last() =~= ves.take(i as int));
                        assert(t.last() == ves[i as int]);
                    }
                    i = i + 1;
                }
                assert(ves.take(i as int) =~= ves);
            } else {
                let null = Json::Null;
                let mut i: usize = 0;
                while i < es.len()
                    invariant
                        *assertion == Json::Object(*es),
                        assertion@ == JsonV::Object(ves),
                        ves == view_entries(es@),
                        i <= es.len(),
                        null == Json::Null,
                        failures.deep_view() == field_failures(ves.take(i as int), actual@, path@),
                    decreases es.len() - i,
                {
                    proof {
                        assert(assertion->Object_0 == *es);
                        assert(decreases_to!(*assertion => *es));
                        assert(decreases_to!(*es => es@));
                        assert(decreases_to!(es@ => es@[i as int]));
                        assert(decreases_to!(es@[i as int] => es@[i as int].1));
                        assert(ves[i as int] == (es@[i as int].0@, es@[i as int].1@));
                    }
                    let field: &Json = match actual.field(es[i].0.as_str()) {
                        Some(x) => x,
                        None => &null,
                    };
                    let mut field_path = String::from_str(path);
                    field_path.append(".");
                    field_path.append(es[i].0.as_str());
                    let f = evaluate_body_assertion(&es[i].1, field, field_path.as_str());
                    extend_strings(&mut failures, f);
                    proof {
                        let t = ves.take(i + 1);
                        assert(t.drop_last() =~= ves.take(i as int));
                        assert(t.last() == ves[i as int]);
                    }
                    i = i + 1;
                }
                assert(ves.take(i as int) =~= ves);
            }
            failures
        },
        _ => {
            let mut failures: Vec<String> = Vec::new();
            if !actual.equals(assertion) {
                let mut m = String::from_str(path);
                m.append(": expected ");
                m.append(crate::json::to_text(assertion).as_str());
                m.append(" got ");
                m.append(crate::json::to_text(actual).as_str());
                push_message(&mut failures, m);
            }
            assert(failures.deep_view() =~= body_failures(assertion@, actual@, path@));
            failures
        },
    }
}


/// `{"$length": n}` on an array passes exactly when the array has `n`
/// items; otherwise it gives the one message `<path>: expected length n got
/// <items>`, for a longer array as for a shorter one.
pub proof fn law_length_is_exact(num: crate::json::NumberV, n: u64, xs: Seq<JsonV>, path: Seq<char>)
    requires
        num.kind == NumKindV::PosInt(n),
    ensures
        body_failures(JsonV::Object(seq![("$length"@, JsonV::Number(num))]), JsonV::Array(xs), path) == (if xs.len()
            == n {
            Seq::<Seq<char>>::empty()
        } else {
            seq![path + ": expected length "@ + decimal(n as nat) + " got "@ + decimal(xs.len())]
        }),
{
    reveal_strlit("$length");
    reveal_strlit("$eq");
    reveal_strlit("$not_eq");
    reveal_strlit("$type");
    reveal_strlit("$exists");
    reveal_strlit("$gt");
    reveal_strlit("$gte");
    reveal_strlit("$lt");
    reveal_strlit("$lte");
    reveal_strlit("$contains_string");
    reveal_strlit("$matches");
    reveal_strlit("$is_array");
    let op = "$length"@;
    assert(op != "$not_eq"@) by {
        assert(op[1] != "$not_eq"@[1]);
    }
    assert(op != "$exists"@) by {
        assert(op[1] != "$exists"@[1]);
    }
    let es = seq![(op, JsonV::Number(num))];
    assert(crate::json::starts_with_dollar(es[0].0));
    assert(has_operator(es));
    assert(es.drop_last() =~= Seq::<(Seq<char>, JsonV)>::empty());
    assert(operator_failures(es.drop_last(), JsonV::Array(xs), path) == Seq::<Seq<char>>::empty());
    let expected = JsonV::Number(num);
    assert(u64_or_zero(expected) == n);
    assert(op_holds(op, expected, JsonV::Array(xs)) == (xs.len() == n));
    assert(body_failures(JsonV::Object(es), JsonV::Array(xs), path) =~= op_failures(op, expected, JsonV::Array(xs), path));
}

} // verus!
