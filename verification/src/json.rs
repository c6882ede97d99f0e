//! A JSON value model with the equality and textual rendering that the
//! assertion engine relies on.

use vstd::prelude::*;
use crate::text::{decimal, digit_char, signed_decimal, str_equal, push_char, u64_text, i64_text, chars_of};

verus! {

/// How a JSON number was written: a non-negative integer, a negative
/// integer, or a finite floating-point number (carried by its compact text).
pub enum NumKind {
    PosInt(u64),
    NegInt(i64),
    Float(String),
}

/// A JSON number. Besides its kind it carries the IEEE-754 bits of its
/// value as a double (`f64_bits`) and the decimal text of that double
/// (`f64_text`), which is what ordering comparisons and their messages use.
pub struct JsonNumber {
    pub kind: NumKind,
    pub f64_bits: u64,
    pub f64_text: String,
}

/// A JSON value. An object's entries come in key order, each key once, as
/// a parsed JSON object holds them; setting a member keeps that order (see
/// `progress::law_put_keeps_keys_sorted`).
pub enum Json {
    Null,
    Bool(bool),
    Number(JsonNumber),
    Str(String),
    Array(Vec<Json>),
    Object(Vec<(String, Json)>),
}

pub enum NumKindV {
    PosInt(u64),
    NegInt(i64),
    Float(Seq<char>),
}

pub struct NumberV {
    pub kind: NumKindV,
    pub f64_bits: u64,
    pub f64_text: Seq<char>,
}

/// Mathematical view of a JSON value.
pub enum JsonV {
    Null,
    Bool(bool),
    Number(NumberV),
    Str(Seq<char>),
    Array(Seq<JsonV>),
    Object(Seq<(Seq<char>, JsonV)>),
}

impl View for JsonNumber {
    type V = NumberV;

    open spec fn view(&self) -> NumberV {
        NumberV {
            kind: match self.kind {
                NumKind::PosInt(n) => NumKindV::PosInt(n),
                NumKind::NegInt(n) => NumKindV::NegInt(n),
                NumKind::Float(t) => NumKindV::Float(t@),
            },
            f64_bits: self.f64_bits,
            f64_text: self.f64_text@,
        }
    }
}

pub open spec fn view_items(items: Seq<Json>) -> Seq<JsonV>
    decreases items,
{
    Seq::new(items.len(), |i: int| if 0 <= i < items.len() { view_json(items[i]) } else { JsonV::Null })
}

pub open spec fn view_entries(entries: Seq<(String, Json)>) -> Seq<(Seq<char>, JsonV)>
    decreases entries,
{
    Seq::new(entries.len(), |i: int| if 0 <= i < entries.len() { (entries[i].0@, view_json(entries[i].1)) } else { (Seq::empty(), JsonV::Null) })
}

pub open spec fn view_json(j: Json) -> JsonV
    decreases j,
{
    match j {
        Json::Null => JsonV::Null,
        Json::Bool(b) => JsonV::Bool(b),
        Json::Number(n) => JsonV::Number(n@),
        Json::Str(s) => JsonV::Str(s@),
        Json::Array(items) => JsonV::Array(view_items(items@)),
        Json::Object(entries) => JsonV::Object(view_entries(entries@)),
    }
}

impl View for Json {
    type V = JsonV;

    open spec fn view(&self) -> JsonV {
        view_json(*self)
    }
}


// ── Equality ────────────────────────────────────────────────────────────────

/// Position of a finite double in the order of doubles, read from its bits:
/// the magnitude for a cleared sign bit, its negation for a set one (so both
/// zeros share position 0).
pub open spec fn float_key(bits: u64) -> int {
    let mag = (bits % 0x8000_0000_0000_0000u64) as int;
    if bits >= 0x8000_0000_0000_0000u64 {
        -mag
    } else {
        mag
    }
}

/// Equality of two numbers: same kind and same value.
pub open spec fn num_eq(a: NumberV, b: NumberV) -> bool {
    match (a.kind, b.kind) {
        (NumKindV::PosInt(x), NumKindV::PosInt(y)) => x == y,
        (NumKindV::NegInt(x), NumKindV::NegInt(y)) => x == y,
        (NumKindV::Float(_), NumKindV::Float(_)) => float_key(a.f64_bits) == float_key(b.f64_bits),
        _ => false,
    }
}

/// Equality of two JSON values: same shape, equal scalars, equal members.
pub open spec fn json_eq(a: JsonV, b: JsonV) -> bool
    decreases a,
{
    match a {
        JsonV::Null => b is Null,
        JsonV::Bool(x) => b matches JsonV::Bool(y) && x == y,
        JsonV::Number(x) => b matches JsonV::Number(y) && num_eq(x, y),
        JsonV::Str(x) => b matches JsonV::Str(y) && x == y,
        JsonV::Array(xs) => b matches JsonV::Array(ys) && xs.len() == ys.len() && forall|i: int|
            0 <= i < xs.len() ==> json_eq(#[trigger] xs[i], ys[i]),
        JsonV::Object(xs) => b matches JsonV::Object(ys) && xs.len() == ys.len() && forall|i: int|
            0 <= i < xs.len() ==> (#[trigger] xs[i]).0 == ys[i].0 && json_eq(xs[i].1, ys[i].1),
    }
}

// ── Accessors ───────────────────────────────────────────────────────────────

/// The value stored under `key` in a list of entries (the last such entry).
pub open spec fn lookup(es: Seq<(Seq<char>, JsonV)>, key: Seq<char>) -> Option<JsonV>
    decreases es.len(),
{
    if es.len() == 0 {
        None
    } else if es.last().0 == key {
        Some(es.last().1)
    } else {
        lookup(es.drop_last(), key)
    }
}

/// `v[key]` for an object, `None` for anything else.
pub open spec fn get_field(v: JsonV, key: Seq<char>) -> Option<JsonV> {
    match v {
        JsonV::Object(es) => lookup(es, key),
        _ => None,
    }
}

/// `v[key]`, or null when absent.
pub open spec fn field_or_null(v: JsonV, key: Seq<char>) -> JsonV {
    match get_field(v, key) {
        Some(x) => x,
        None => JsonV::Null,
    }
}

/// The string content of a string value, or the empty string otherwise.
pub open spec fn str_or_empty(v: JsonV) -> Seq<char> {
    match v {
        JsonV::Str(s) => s,
        _ => Seq::empty(),
    }
}

/// The boolean of a boolean value, or `true` otherwise.
pub open spec fn bool_or_true(v: JsonV) -> bool {
    match v {
        JsonV::Bool(b) => b,
        _ => true,
    }
}

/// The value of a non-negative integer, or 0 otherwise.
pub open spec fn u64_or_zero(v: JsonV) -> u64 {
    match v {
        JsonV::Number(n) => match n.kind {
            NumKindV::PosInt(x) => x,
            _ => 0,
        },
        _ => 0,
    }
}

/// Name of the kind of a JSON value.
pub open spec fn kind_name(v: JsonV) -> Seq<char> {
    match v {
        JsonV::Null => "null"@,
        JsonV::Bool(_) => "boolean"@,
        JsonV::Number(_) => "number"@,
        JsonV::Str(_) => "string"@,
        JsonV::Array(_) => "array"@,
        JsonV::Object(_) => "object"@,
    }
}

// ── Compact text ────────────────────────────────────────────────────────────

pub open spec fn hex_digit(d: nat) -> char {
    if d < 10 {
        digit_char(d)
    } else {
        (87 + d) as char
    }
}

/// How one character of a string is written inside JSON quotes.
pub open spec fn escape_char(c: char) -> Seq<char> {
    if c == '"' {
        seq!['\\', '"']
    } else if c == '\\' {
        seq!['\\', '\\']
    } else if c == '\u{8}' {
        seq!['\\', 'b']
    } else if c == '\t' {
        seq!['\\', 't']
    } else if c == '\n' {
        seq!['\\', 'n']
    } else if c == '\u{c}' {
        seq!['\\', 'f']
    } else if c == '\r' {
        seq!['\\', 'r']
    } else if (c as u32) < 32 {
        seq!['\\', 'u', '0', '0', hex_digit((c as u32 as nat) / 16), hex_digit((c as u32 as nat) % 16)]
    } else {
        seq![c]
    }
}

pub open spec fn escape(s: Seq<char>) -> Seq<char>
    decreases s.len(),
{
    if s.len() == 0 {
        Seq::empty()
    } else {
        escape(s.drop_last()) + escape_char(s.last())
    }
}

/// A string written as a JSON string literal.
pub open spec fn quoted(s: Seq<char>) -> Seq<char> {
    seq!['"'] + escape(s) + seq!['"']
}

/// Text of a number as JSON writes it.
pub open spec fn number_text(n: NumberV) -> Seq<char> {
    match n.kind {
        NumKindV::PosInt(x) => decimal(x as nat),
        NumKindV::NegInt(x) => signed_decimal(x as int),
        NumKindV::Float(t) => t,
    }
}

/// Compact JSON text of a value (no whitespace).
pub open spec fn json_text(v: JsonV) -> Seq<char>
    decreases v, 1int,
{
    match v {
        JsonV::Null => "null"@,
        JsonV::Bool(b) => if b { "true"@ } else { "false"@ },
        JsonV::Number(n) => number_text(n),
        JsonV::Str(s) => quoted(s),
        JsonV::Array(xs) => seq!['['] + items_text(xs) + seq![']'],
        JsonV::Object(es) => seq!['{'] + entries_text(es) + seq!['}'],
    }
}

pub open spec fn items_text(xs: Seq<JsonV>) -> Seq<char>
    decreases xs, 0int,
{
    if xs.len() == 0 {
        Seq::empty()
    } else if xs.len() == 1 {
        json_text(xs[0])
    } else {
        items_text(xs.drop_last()) + seq![','] + json_text(xs.last())
    }
}

pub open spec fn entry_text(e: (Seq<char>, JsonV)) -> Seq<char>
    decreases e, 0int,
{
    quoted(e.0) + seq![':'] + json_text(e.1)
}

pub open spec fn entries_text(es: Seq<(Seq<char>, JsonV)>) -> Seq<char>
    decreases es, 0int,
{
    if es.len() == 0 {
        Seq::empty()
    } else if es.len() == 1 {
        entry_text(es[0])
    } else {
        entries_text(es.drop_last()) + seq![','] + entry_text(es.last())
    }
}


// ── Executable operations ──────────────────────────────────────────────────

proof fn lemma_lookup_skip_tail(es: Seq<(Seq<char>, JsonV)>, key: Seq<char>, i: int)
    requires
        0 <= i <= es.len(),
        forall|j: int| i <= j < es.len() ==> (#[trigger] es[j]).0 != key,
    ensures
        lookup(es, key) == lookup(es.take(i), key),
    decreases es.len(),
{
    if es.len() > i {
        assert(es.drop_last().take(i) =~= es.take(i));
        lemma_lookup_skip_tail(es.drop_last(), key, i);
    } else {
        assert(es.take(i) =~= es);
    }
}

impl JsonNumber {
    /// Numeric equality of two numbers.
    pub fn same_as(&self, other: &JsonNumber) -> (r: bool)
        ensures
            r == num_eq(self@, other@),
    {
        match (&self.kind, &other.kind) {
            (NumKind::PosInt(x), NumKind::PosInt(y)) => *x == *y,
            (NumKind::NegInt(x), NumKind::NegInt(y)) => *x == *y,
            (NumKind::Float(_), NumKind::Float(_)) => float_position(self.f64_bits) == float_position(other.f64_bits),
            _ => false,
        }
    }

    /// A copy of this number.
    pub fn duplicate(&self) -> (r: JsonNumber)
        ensures
            r@ == self@,
    {
        JsonNumber {
            kind: match &self.kind {
                NumKind::PosInt(x) => NumKind::PosInt(*x),
                NumKind::NegInt(x) => NumKind::NegInt(*x),
                NumKind::Float(t) => NumKind::Float(t.clone()),
            },
            f64_bits: self.f64_bits,
            f64_text: self.f64_text.clone(),
        }
    }

    /// A non-negative integer number.
    pub fn from_u64(n: u64, f64_bits: u64, f64_text: String) -> (r: JsonNumber)
        ensures
            r@.kind == NumKindV::PosInt(n),
            r@.f64_bits == f64_bits,
            r@.f64_text == f64_text@,
    {
        JsonNumber { kind: NumKind::PosInt(n), f64_bits, f64_text }
    }
}

/// The order position of a double's bits (see `float_key`).
pub fn float_position(bits: u64) -> (r: i128)
    ensures
        r == float_key(bits),
{
    let mag: u64 = bits % 0x8000_0000_0000_0000u64;
    if bits >= 0x8000_0000_0000_0000u64 {
        -(mag as i128)
    } else {
        mag as i128
    }
}

impl Json {
    /// Structural equality of two values.
    pub fn equals(&self, other: &Json) -> (r: bool)
        ensures
            r == json_eq(self@, other@),
        decreases self,
    {
        match (self, other) {
            (Json::Null, Json::Null) => {
                assert(json_eq(self@, other@));
                true
            },
            (Json::Bool(x), Json::Bool(y)) => {
                let r = *x == *y;
                assert(r == json_eq(self@, other@));
                r
            },
            (Json::Number(x), Json::Number(y)) => {
                let r = x.same_as(y);
                assert(r == json_eq(self@, other@));
                r
            },
            (Json::Str(x), Json::Str(y)) => {
                let r = *x == *y;
                assert(r == json_eq(self@, other@));
                r
            },
            (Json::Array(xs), Json::Array(ys)) => {
                if xs.len() != ys.len() {
                    return false;
                }
                let mut i: usize = 0;
                while i < xs.len()
                    invariant
                        xs.len() == ys.len(),
                        i <= xs.len(),
                        *self == Json::Array(*xs),
                        *other == Json::Array(*ys),
                        forall|j: int| 0 <= j < i ==> json_eq(#[trigger] view_items(xs@)[j], view_items(ys@)[j]),
                    decreases xs.len() - i,
                {
                    proof {
                        assert(decreases_to!(*xs => xs@));
                        assert(decreases_to!(xs@ => xs@[i as int]));
                        assert((*self)->Array_0 == *xs);
                        assert(decreases_to!(*self => *xs));
                        assert(decreases_to!(*self => xs@[i as int]));
                    }
                    if !xs[i].equals(&ys[i]) {
                        assert(view_items(xs@)[i as int] == xs@[i as int]@);
                        assert(view_items(ys@)[i as int] == ys@[i as int]@);
                        return false;
                    }
                    i = i + 1;
                }
                assert(self@ == JsonV::Array(view_items(xs@)));
                assert(other@ == JsonV::Array(view_items(ys@)));
                assert(json_eq(self@, other@));
                true
            },
            (Json::Object(xs), Json::Object(ys)) => {
                if xs.len() != ys.len() {
                    return false;
                }
                let mut i: usize = 0;
                while i < xs.len()
                    invariant
                        xs.len() == ys.len(),
                        i <= xs.len(),
                        *self == Json::Object(*xs),
                        *other == Json::Object(*ys),
                        forall|j: int| 0 <= j < i ==> (#[trigger] view_entries(xs@)[j]).0 == view_entries(ys@)[j].0
                            && json_eq(view_entries(xs@)[j].1, view_entries(ys@)[j].1),
                    decreases xs.len() - i,
                {
                    assert(view_entries(xs@)[i as int] == (xs@[i as int].0@, xs@[i as int].1@));
                    assert(view_entries(ys@)[i as int] == (ys@[i as int].0@, ys@[i as int].1@));
                    if !(xs[i].0 == ys[i].0) {
                        return false;
                    }
                    if !xs[i].1.equals(&ys[i].1) {
                        return false;
                    }
                    i = i + 1;
                }
                assert(self@ == JsonV::Object(view_entries(xs@)));
                assert(other@ == JsonV::Object(view_entries(ys@)));
                true
            },
            _ => {
                assert(!json_eq(self@, other@));
                false
            },
        }
    }

    /// The member stored under `key` when this is an object holding it.
    pub fn field(&self, key: &str) -> (r: Option<&Json>)
        ensures
            match r {
                Some(x) => get_field(self@, key@) == Some(x@),
                None => get_field(self@, key@) is None,
            },
    {
        match self {
            Json::Object(es) => {
                let ghost ves = view_entries(es@);
                let mut i: usize = es.len();
                while i > 0
                    invariant
                        i <= es.len(),
                        ves == view_entries(es@),
                        self@ == JsonV::Object(ves),
                        forall|j: int| i <= j < es.len() ==> (#[trigger] ves[j]).0 != key@,
                    decreases i,
                {
                    i = i - 1;
                    if str_equal(es[i].0.as_str(), key) {
                        proof {
                            lemma_lookup_skip_tail(ves, key@, i + 1);
                            assert(ves.take(i + 1).last() == ves[i as int]);
                        }
                        return Some(&es[i].1);
                    }
                }
                proof {
                    lemma_lookup_skip_tail(ves, key@, 0);
                }
                None
            },
            _ => None,
        }
    }

    /// `self[key]`, or null when absent.
    pub fn field_or_null(&self, key: &str) -> (r: Json)
        ensures
            r@ == field_or_null(self@, key@),
    {
        match self.field(key) {
            Some(x) => x.duplicate(),
            None => Json::Null,
        }
    }

    /// A copy of this value.
    pub fn duplicate(&self) -> (r: Json)
        ensures
            r@ == self@,
        decreases self,
    {
        match self {
            Json::Null => Json::Null,
            Json::Bool(b) => Json::Bool(*b),
            Json::Number(n) => Json::Number(n.duplicate()),
            Json::Str(s) => Json::Str(s.clone()),
            Json::Array(xs) => {
                let mut out: Vec<Json> = Vec::new();
                let mut i: usize = 0;
                while i < xs.len()
                    invariant
                        *self == Json::Array(*xs),
                        i <= xs.len(),
                        out.len() == i,
                        forall|j: int| 0 <= j < i ==> (#[trigger] out@[j])@ == xs@[j]@,
                    decreases xs.len() - i,
                {
                    proof {
                        assert(decreases_to!(*xs => xs@));
                        assert(decreases_to!(xs@ => xs@[i as int]));
                        assert((*self)->Array_0 == *xs);
                        assert(decreases_to!(*self => *xs));
                        assert(decreases_to!(*self => xs@[i as int]));
                    }
                    out.push(xs[i].duplicate());
                    i = i + 1;
                }
                let r = Json::Array(out);
                assert(view_items(out@) =~= view_items(xs@));
                r
            },
            Json::Object(es) => {
                let mut out: Vec<(String, Json)> = Vec::new();
                let mut i: usize = 0;
                while i < es.len()
                    invariant
                        *self == Json::Object(*es),
                        i <= es.len(),
                        out.len() == i,
                        forall|j: int| 0 <= j < i ==> (#[trigger] out@[j]).0@ == es@[j].0@ && out@[j].1@ == es@[j].1@,
                    decreases es.len() - i,
                {
                    proof {
                        assert(decreases_to!(*es => es@));
                        assert(decreases_to!(es@ => es@[i as int]));
                        assert(decreases_to!(es@[i as int] => es@[i as int].1));
                        assert((*self)->Object_0 == *es);
                        assert(decreases_to!(*self => *es));
                        assert(decreases_to!(*self => es@[i as int].1));
                    }
                    out.push((es[i].0.clone(), es[i].1.duplicate()));
                    i = i + 1;
                }
                let r = Json::Object(out);
                assert(view_entries(out@) =~= view_entries(es@));
                r
            },
        }
    }

    /// The string content of a string value, or the empty string otherwise.
    pub fn str_or_empty(&self) -> (r: String)
        ensures
            r@ == str_or_empty(self@),
    {
        match self {
            Json::Str(s) => s.clone(),
            _ => String::new(),
        }
    }

    /// The boolean of a boolean value, or `true` otherwise.
    pub fn bool_or_true(&self) -> (r: bool)
        ensures
            r == bool_or_true(self@),
    {
        match self {
            Json::Bool(b) => *b,
            _ => true,
        }
    }

    /// The value of a non-negative integer, or 0 otherwise.
    pub fn u64_or_zero(&self) -> (r: u64)
        ensures
            r == u64_or_zero(self@),
    {
        match self {
            Json::Number(n) => match &n.kind {
                NumKind::PosInt(x) => *x,
                _ => 0,
            },
            _ => 0,
        }
    }

    /// Name of the kind of this value.
    pub fn kind_name(&self) -> (r: &'static str)
        ensures
            r@ == kind_name(self@),
    {
        proof {
            reveal_strlit("null");
            reveal_strlit("boolean");
            reveal_strlit("number");
            reveal_strlit("string");
            reveal_strlit("array");
            reveal_strlit("object");
        }
        match self {
            Json::Null => "null",
            Json::Bool(_) => "boolean",
            Json::Number(_) => "number",
            Json::Str(_) => "string",
            Json::Array(_) => "array",
            Json::Object(_) => "object",
        }
    }

    /// Whether this value is an object with a key that starts with `$`.
    pub fn is_operator_object(&self) -> (r: bool)
        ensures
            r == is_operator_object(self@),
    {
        match self {
            Json::Object(es) => {
                let ghost ves = view_entries(es@);
                let mut i: usize = 0;
                while i < es.len()
                    invariant
                        i <= es.len(),
                        ves == view_entries(es@),
                        self@ == JsonV::Object(ves),
                        forall|j: int| 0 <= j < i ==> !starts_with_dollar(#[trigger] ves[j].0),
                    decreases es.len() - i,
                {
                    if first_char_is_dollar(es[i].0.as_str()) {
                        assert(starts_with_dollar(ves[i as int].0));
                        return true;
                    }
                    i = i + 1;
                }
                false
            },
            _ => false,
        }
    }
}

/// Whether a key names an operator (starts with `$`).
pub open spec fn starts_with_dollar(k: Seq<char>) -> bool {
    k.len() > 0 && k[0] == '$'
}

/// Whether some key of the entries names an operator.
pub open spec fn has_operator(es: Seq<(Seq<char>, JsonV)>) -> bool {
    exists|j: int| 0 <= j < es.len() && starts_with_dollar(#[trigger] es[j].0)
}

/// Whether a value is an object with an operator key.
pub open spec fn is_operator_object(v: JsonV) -> bool {
    match v {
        JsonV::Object(es) => has_operator(es),
        _ => false,
    }
}

fn first_char_is_dollar(s: &str) -> (r: bool)
    ensures
        r == starts_with_dollar(s@),
{
    if s.unicode_len() == 0 {
        false
    } else {
        s.get_char(0) == '$'
    }
}


// ── Writing compact text ───────────────────────────────────────────────────

fn hex_char(d: u32) -> (c: char)
    requires
        d < 16,
    ensures
        c == hex_digit(d as nat),
{
    if d < 10 {
        ((48 + d) as u8) as char
    } else {
        ((87 + d) as u8) as char
    }
}

fn push_str(out: &mut String, s: &str)
    ensures
        final(out)@ == old(out)@ + s@,
{
    out.append(s);
}

fn write_escaped_char(c: char, out: &mut String)
    ensures
        final(out)@ == old(out)@ + escape_char(c),
{
    let ghost o = out@;
    if c == '"' {
        push_char(out, '\\');
        push_char(out, '"');
    } else if c == '\\' {
        push_char(out, '\\');
        push_char(out, '\\');
    } else if c == '\u{8}' {
        push_char(out, '\\');
        push_char(out, 'b');
    } else if c == '\t' {
        push_char(out, '\\');
        push_char(out, 't');
    } else if c == '\n' {
        push_char(out, '\\');
        push_char(out, 'n');
    } else if c == '\u{c}' {
        push_char(out, '\\');
        push_char(out, 'f');
    } else if c == '\r' {
        push_char(out, '\\');
        push_char(out, 'r');
    } else if (c as u32) < 32 {
        let code: u32 = c as u32;
        push_char(out, '\\');
        push_char(out, 'u');
        push_char(out, '0');
        push_char(out, '0');
        push_char(out, hex_char(code / 16));
        push_char(out, hex_char(code % 16));
    } else {
        push_char(out, c);
    }
    assert(out@ =~= o + escape_char(c));
}

/// Appends a string written as a JSON string literal.
pub fn write_quoted(s: &str, out: &mut String)
    ensures
        final(out)@ == old(out)@ + quoted(s@),
{
    let ghost o = out@;
    let cs = chars_of(s);
    push_char(out, '"');
    let mut i: usize = 0;
    while i < cs.len()
        invariant
            cs@ == s@,
            i <= cs.len(),
            out@ == o + seq!['"'] + escape(cs@.take(i as int)),
        decreases cs.len() - i,
    {
        write_escaped_char(cs[i], out);
        proof {
            assert(cs@.take(i + 1).drop_last() =~= cs@.take(i as int));
        }
        i = i + 1;
        assert(out@ =~= o + seq!['"'] + escape(cs@.take(i as int)));
    }
    assert(cs@.take(i as int) =~= s@);
    push_char(out, '"');
    assert(out@ =~= o + quoted(s@));
}

/// Text of a number as JSON writes it.
pub fn write_number_text(n: &JsonNumber) -> (r: String)
    ensures
        r@ == number_text(n@),
{
    match &n.kind {
        NumKind::PosInt(x) => u64_text(*x),
        NumKind::NegInt(x) => i64_text(*x),
        NumKind::Float(t) => t.clone(),
    }
}

/// Appends the compact JSON text of a value.
pub fn write_json(v: &Json, out: &mut String)
    ensures
        final(out)@ == old(out)@ + json_text(v@),
    decreases v,
{
    let ghost o = out@;
    match v {
        Json::Null => {
            push_str(out, "null");
        },
        Json::Bool(b) => {
            if *b {
                push_str(out, "true");
            } else {
                push_str(out, "false");
            }
        },
        Json::Number(n) => {
            let t = write_number_text(n);
            push_str(out, t.as_str());
        },
        Json::Str(s) => {
            write_quoted(s.as_str(), out);
        },
        Json::Array(xs) => {
            let ghost vs = view_items(xs@);
            push_char(out, '[');
            let mut i: usize = 0;
            while i < xs.len()
                invariant
                    *v == Json::Array(*xs),
                    vs == view_items(xs@),
                    i <= xs.len(),
                    out@ == o + seq!['['] + items_text(vs.take(i as int)),
                decreases xs.len() - i,
            {
                proof {
                    assert(v->Array_0 == *xs);
                    assert(decreases_to!(*v => *xs));
                    assert(decreases_to!(*xs => xs@));
                    assert(decreases_to!(xs@ => xs@[i as int]));
                }
                if i > 0 {
                    push_char(out, ',');
                }
                write_json(&xs[i], out);
                proof {
                    let t = vs.take(i + 1);
                    assert(t.drop_last() =~= vs.take(i as int));
                    assert(t.last() == xs@[i as int]@);
                    if i == 0 {
                        assert(vs.take(0) =~= Seq::<JsonV>::empty());
                    }
                }
                i = i + 1;
                assert(out@ =~= o + seq!['['] + items_text(vs.take(i as int)));
            }
            assert(vs.take(i as int) =~= vs);
            push_char(out, ']');
            assert(out@ =~= o + json_text(v@));
        },
        Json::Object(es) => {
            let ghost vs = view_entries(es@);
            push_char(out, '{');
            let mut i: usize = 0;
            while i < es.len()
                invariant
                    *v == Json::Object(*es),
                    vs == view_entries(es@),
                    i <= es.len(),
                    out@ == o + seq!['{'] + entries_text(vs.take(i as int)),
                decreases es.len() - i,
            {
                proof {
                    assert(v->Object_0 == *es);
                    assert(decreases_to!(*v => *es));
                    assert(decreases_to!(*es => es@));
                    assert(decreases_to!(es@ => es@[i as int]));
                    assert(decreases_to!(es@[i as int] => es@[i as int].1));
                }
                let ghost before = out@;
                if i > 0 {
                    push_char(out, ',');
                }
                let ghost mid = out@;
                write_quoted(es[i].0.as_str(), out);
                push_char(out, ':');
                write_json(&es[i].1, out);
                proof {
                    assert(out@ =~= mid + entry_text(vs[i as int]));
                    let t = vs.take(i + 1);
                    assert(t.drop_last() =~= vs.take(i as int));
                    assert(t.last() == vs[i as int]);
                    if i == 0 {
                        assert(vs.take(0) =~= Seq::<(Seq<char>, JsonV)>::empty());
                    }
                }
                i = i + 1;
                assert(out@ =~= o + seq!['{'] + entries_text(vs.take(i as int)));
            }
            assert(vs.take(i as int) =~= vs);
            push_char(out, '}');
            assert(out@ =~= o + json_text(v@));
        },
    }
}

/// The compact JSON text of a value.
pub fn to_text(v: &Json) -> (r: String)
    ensures
        r@ == json_text(v@),
{
    let mut out = String::new();
    write_json(v, &mut out);
    assert(out@ =~= json_text(v@));
    out
}


// ── Counts as numbers ───────────────────────────────────────────────────────

/// Two to the power `e`.
pub open spec fn two_pow(e: nat) -> nat
    decreases e,
{
    if e == 0 {
        1
    } else {
        2 * two_pow((e - 1) as nat)
    }
}

proof fn lemma_two_pow_mono(a: nat, b: nat)
    requires
        a < b,
    ensures
        two_pow(a) < two_pow(b),
    decreases b,
{
    if a + 1 < b {
        lemma_two_pow_mono(a, (b - 1) as nat);
    }
    lemma_two_pow_pos(a);
}

proof fn lemma_two_pow_pos(a: nat)
    ensures
        two_pow(a) >= 1,
    decreases a,
{
    if a > 0 {
        lemma_two_pow_pos((a - 1) as nat);
    }
}

/// The IEEE-754 double encoding of a positive integer below 2^53, whose
/// highest set bit is bit `e`: biased exponent `1023 + e`, and the bits
/// below the highest one as the fraction.
pub open spec fn double_bits_with_exponent(n: nat, e: nat) -> int {
    (1023 + e) * two_pow(52) + (n - two_pow(e)) * two_pow((52 - e) as nat)
}

/// The IEEE-754 double encoding of an integer below 2^53 (exactly
/// representable): 0 for 0.
pub open spec fn small_int_double_bits(n: nat) -> int {
    if n == 0 {
        0
    } else {
        let e = choose|e: nat| #[trigger] two_pow(e) <= n < two_pow(e + 1);
        double_bits_with_exponent(n, e)
    }
}

proof fn lemma_two_pow_52()
    ensures
        two_pow(52) == 0x10_0000_0000_0000,
{
    reveal_with_fuel(two_pow, 53);
}

proof fn lemma_exponent_unique(n: nat, e1: nat, e2: nat)
    requires
        two_pow(e1) <= n < two_pow(e1 + 1),
        two_pow(e2) <= n < two_pow(e2 + 1),
    ensures
        e1 == e2,
{
    if e1 < e2 {
        if e1 + 1 < e2 {
            lemma_two_pow_mono(e1 + 1, e2);
        }
    } else if e2 < e1 {
        if e2 + 1 < e1 {
            lemma_two_pow_mono(e2 + 1, e1);
        }
    }
}

/// The encoding of an integer below 2^53 as a double (see
/// `small_int_double_bits`).
pub fn small_int_bits(n: u64) -> (r: u64)
    requires
        n < 0x20_0000_0000_0000,
    ensures
        r == small_int_double_bits(n as nat),
{
    if n == 0 {
        return 0;
    }
    assert(two_pow(0) == 1);
    let mut e: u64 = 0;
    let mut p: u64 = 1;
    while p <= n / 2
        invariant
            p == two_pow(e as nat),
            1 <= p <= n,
            n < 0x20_0000_0000_0000,
            e <= 52,
        decreases n - p,
    {
        proof {
            assert(two_pow((e + 1) as nat) == 2 * two_pow(e as nat));
            if e >= 52 {
                lemma_two_pow_mono(52, (e + 1) as nat);
                lemma_two_pow_52();
            }
        }
        p = p * 2;
        e = e + 1;
    }
    assert(two_pow((e + 1) as nat) == 2 * two_pow(e as nat));
    assert(n < two_pow((e + 1) as nat));
    proof {
        if e > 52 {
        }
        if n >= 0x10_0000_0000_0000 {
        }
    }
    let mut q: u64 = 1;
    let mut k: u64 = 0;
    assert(two_pow(0) == 1);
    while k < 52 - e
        invariant
            e <= 52,
            k <= 52 - e,
            q == two_pow(k as nat),
            q * p == two_pow((k + e) as nat),
            p == two_pow(e as nat),
        decreases 52 - e - k,
    {
        proof {
            assert(two_pow((k + 1) as nat) == 2 * two_pow(k as nat));
            assert(two_pow((k + 1 + e) as nat) == 2 * two_pow((k + e) as nat));
            assert((q * 2) * p == 2 * (q * p)) by (nonlinear_arith);
            lemma_two_pow_52();
            if k + 1 + e < 52 {
                lemma_two_pow_mono((k + 1 + e) as nat, 52);
            }
            lemma_two_pow_pos(e as nat);
            assert(q * 2 <= 0x10_0000_0000_0000) by (nonlinear_arith)
                requires
                    (q * 2) * p <= 0x10_0000_0000_0000,
                    p >= 1,
            ;
        }
        q = q * 2;
        k = k + 1;
    }
    proof {
        lemma_two_pow_52();
        lemma_two_pow_pos(k as nat);
        assert((n - p) * q < p * q) by (nonlinear_arith)
            requires
                n - p < p,
                q >= 1,
        ;
        lemma_two_pow_pos(k as nat);
        let ch = choose|x: nat| #[trigger] two_pow(x) <= n < two_pow(x + 1);
        assert(two_pow(e as nat) <= n < two_pow((e + 1) as nat));
        lemma_exponent_unique(n as nat, ch, e as nat);
    }
    let mant: u64 = (n - p) * q;
    let top: u64 = (1023 + e) * 0x10_0000_0000_0000u64;
    top + mant
}

/// A count as a JSON number: a non-negative integer whose double is exact
/// and written as its decimal digits.
pub fn count_number(n: u64) -> (r: JsonNumber)
    requires
        n < 0x20_0000_0000_0000,
    ensures
        r@.kind == NumKindV::PosInt(n),
        r@.f64_bits == small_int_double_bits(n as nat),
        r@.f64_text == decimal(n as nat),
{
    JsonNumber { kind: NumKind::PosInt(n), f64_bits: small_int_bits(n), f64_text: u64_text(n) }
}


// ── Text order ──────────────────────────────────────────────────────────────

/// Whether `a` sorts before `b`: character by character by code point, a
/// proper prefix first (the order of `str`'s `cmp`).
pub open spec fn text_less(a: Seq<char>, b: Seq<char>) -> bool
    decreases a.len(),
{
    if a.len() == 0 {
        b.len() > 0
    } else if b.len() == 0 {
        false
    } else if a[0] != b[0] {
        (a[0] as u32) < (b[0] as u32)
    } else {
        text_less(a.drop_first(), b.drop_first())
    }
}

/// Whether `a` sorts before `b` (see `text_less`).
pub fn text_before(a: &str, b: &str) -> (r: bool)
    ensures
        r == text_less(a@, b@),
{
    let x = chars_of(a);
    let y = chars_of(b);
    let mut i: usize = 0;
    assert(x@.skip(0) =~= a@);
    assert(y@.skip(0) =~= b@);
    while i < x.len() && i < y.len()
        invariant
            i <= x.len(),
            i <= y.len(),
            x@ == a@,
            y@ == b@,
            text_less(a@, b@) == text_less(x@.skip(i as int), y@.skip(i as int)),
        decreases x.len() - i,
    {
        let c = x[i];
        let d = y[i];
        assert(x@.skip(i as int)[0] == c);
        assert(y@.skip(i as int)[0] == d);
        if c != d {
            return (c as u32) < (d as u32);
        }
        assert(x@.skip(i as int).drop_first() =~= x@.skip(i + 1));
        assert(y@.skip(i as int).drop_first() =~= y@.skip(i + 1));
        i = i + 1;
    }
    i == x.len() && i < y.len()
}

pub proof fn lemma_text_less_irreflexive(a: Seq<char>)
    ensures
        !text_less(a, a),
    decreases a.len(),
{
    if a.len() > 0 {
        lemma_text_less_irreflexive(a.drop_first());
    }
}

pub proof fn lemma_text_less_transitive(a: Seq<char>, b: Seq<char>, c: Seq<char>)
    requires
        text_less(a, b),
        text_less(b, c),
    ensures
        text_less(a, c),
    decreases a.len(),
{
    if a.len() > 0 && b.len() > 0 && c.len() > 0 && a[0] == b[0] && b[0] == c[0] {
        lemma_text_less_transitive(a.drop_first(), b.drop_first(), c.drop_first());
    }
}

pub proof fn lemma_text_less_total(a: Seq<char>, b: Seq<char>)
    ensures
        text_less(a, b) || text_less(b, a) || a == b,
    decreases a.len(),
{
    if a.len() > 0 && b.len() > 0 {
        if a[0] == b[0] {
            lemma_text_less_total(a.drop_first(), b.drop_first());
            if a.drop_first() == b.drop_first() {
                assert(a =~= seq![a[0]] + a.drop_first());
                assert(b =~= seq![b[0]] + b.drop_first());
            }
        } else {
            assert((a[0] as u32) != (b[0] as u32)) by {
                let x = a[0];
                let y = b[0];
                vstd::utf8::char_u32_cast(x, x as u32);
                vstd::utf8::char_u32_cast(y, y as u32);
            }
        }
    } else if a.len() == 0 && b.len() == 0 {
        assert(a =~= b);
    }
}

/// Whether the keys of the entries are strictly increasing (so each key
/// occurs once), as in a parsed JSON object.
pub open spec fn keys_sorted(es: Seq<(Seq<char>, JsonV)>) -> bool {
    forall|i: int, j: int| 0 <= i < j < es.len() ==> text_less(#[trigger] es[i].0, #[trigger] es[j].0)
}

/// Whether a JSON value is as a parser produces it: every object's keys
/// strictly increasing (so each once), every negative-integer number below
/// zero, and every integer below 2^53 carrying its exact double.
pub open spec fn well_formed_json(v: JsonV) -> bool
    decreases v,
{
    match v {
        JsonV::Number(n) => match n.kind {
            NumKindV::NegInt(x) => x < 0,
            NumKindV::PosInt(x) => x < 0x20_0000_0000_0000 ==> n.f64_bits == small_int_double_bits(x as nat),
            _ => true,
        },
        JsonV::Array(xs) => forall|i: int| 0 <= i < xs.len() ==> well_formed_json(#[trigger] xs[i]),
        JsonV::Object(es) => keys_sorted(es) && forall|i: int| 0 <= i < es.len() ==> well_formed_json(#[trigger] es[i].1),
        _ => true,
    }
}

/// A member found in a list of entries is one of its entries' values.
pub proof fn lemma_lookup_member(es: Seq<(Seq<char>, JsonV)>, key: Seq<char>)
    ensures
        lookup(es, key) matches Some(v) ==> exists|i: int| 0 <= i < es.len() && #[trigger] es[i].1 == v,
    decreases es.len(),
{
    if es.len() > 0 {
        lemma_lookup_member(es.drop_last(), key);
        if es.last().0 != key {
            if let Some(v) = lookup(es.drop_last(), key) {
                let i = choose|i: int| 0 <= i < es.drop_last().len() && #[trigger] es.drop_last()[i].1 == v;
                assert(es[i].1 == v);
            }
        } else {
            assert(es[es.len() - 1].1 == es.last().1);
        }
    }
}


// ── Object equality as map equality ─────────────────────────────────────────

/// Whether some entry has this key.
pub open spec fn has_key(es: Seq<(Seq<char>, JsonV)>, key: Seq<char>) -> bool {
    exists|i: int| 0 <= i < es.len() && (#[trigger] es[i]).0 == key
}

/// Two lists of entries hold the same keys, with equal values under each.
pub open spec fn members_match(xs: Seq<(Seq<char>, JsonV)>, ys: Seq<(Seq<char>, JsonV)>) -> bool {
    &&& forall|k: Seq<char>| #![trigger lookup(xs, k)] #![trigger lookup(ys, k)] (lookup(xs, k) is Some <==> lookup(ys, k) is Some)
    &&& forall|k: Seq<char>| #![trigger lookup(xs, k), lookup(ys, k)] (lookup(xs, k) is Some && lookup(ys, k) is Some)
        ==> json_eq(lookup(xs, k)->Some_0, lookup(ys, k)->Some_0)
}

proof fn lemma_sorted_drop_last(es: Seq<(Seq<char>, JsonV)>)
    requires
        keys_sorted(es),
        es.len() > 0,
    ensures
        keys_sorted(es.drop_last()),
{
    let d = es.drop_last();
    assert forall|i: int, j: int| 0 <= i < j < d.len() implies text_less(#[trigger] d[i].0, #[trigger] d[j].0) by {
        assert(d[i] == es[i] && d[j] == es[j]);
    }
}

/// In sorted entries, a lookup of an entry's key finds that entry's value.
proof fn lemma_lookup_sorted_at(es: Seq<(Seq<char>, JsonV)>, i: int)
    requires
        keys_sorted(es),
        0 <= i < es.len(),
    ensures
        lookup(es, es[i].0) == Some(es[i].1),
    decreases es.len(),
{
    if i < es.len() - 1 {
        assert(text_less(es[i].0, es[es.len() - 1].0));
        lemma_text_less_irreflexive(es[i].0);
        lemma_sorted_drop_last(es);
        assert(es.drop_last()[i] == es[i]);
        lemma_lookup_sorted_at(es.drop_last(), i);
    }
}

/// A lookup finds a value exactly when some entry has the key.
proof fn lemma_lookup_has_key(es: Seq<(Seq<char>, JsonV)>, key: Seq<char>)
    ensures
        lookup(es, key) is Some <==> has_key(es, key),
        lookup(es, key) matches Some(v) ==> exists|i: int| 0 <= i < es.len() && #[trigger] es[i] == (key, v),
    decreases es.len(),
{
    if es.len() > 0 {
        let d = es.drop_last();
        lemma_lookup_has_key(d, key);
        if es.last().0 == key {
            assert(es[es.len() - 1] == (key, es.last().1));
        } else {
            if has_key(es, key) {
                let i = choose|i: int| 0 <= i < es.len() && (#[trigger] es[i]).0 == key;
                assert(i < es.len() - 1);
                assert(d[i] == es[i]);
            }
            if let Some(v) = lookup(d, key) {
                let i = choose|i: int| 0 <= i < d.len() && #[trigger] d[i] == (key, v);
                assert(es[i] == d[i]);
            }
            if has_key(d, key) {
                let i = choose|i: int| 0 <= i < d.len() && (#[trigger] d[i]).0 == key;
                assert(es[i] == d[i]);
            }
        }
    }
}

/// Two sorted lists of entries with the same keys have them in the same
/// places.
proof fn lemma_same_keys_same_places(xs: Seq<(Seq<char>, JsonV)>, ys: Seq<(Seq<char>, JsonV)>)
    requires
        keys_sorted(xs),
        keys_sorted(ys),
        forall|k: Seq<char>| has_key(xs, k) <==> has_key(ys, k),
    ensures
        xs.len() == ys.len(),
        forall|i: int| 0 <= i < xs.len() ==> (#[trigger] xs[i]).0 == ys[i].0,
    decreases xs.len() + ys.len(),
{
    if xs.len() == 0 {
        if ys.len() > 0 {
            assert(has_key(ys, ys[0].0));
        }
    } else if ys.len() == 0 {
        assert(has_key(xs, xs[0].0));
    } else {
        let a = xs.last().0;
        let b = ys.last().0;
        let nx = xs.len() - 1;
        let ny = ys.len() - 1;
        assert(xs[nx].0 == a && ys[ny].0 == b);
        assert(has_key(xs, a));
        assert(has_key(ys, b));
        let j = choose|j: int| 0 <= j < ys.len() && (#[trigger] ys[j]).0 == a;
        let i = choose|i: int| 0 <= i < xs.len() && (#[trigger] xs[i]).0 == b;
        if a != b {
            lemma_text_less_total(a, b);
            if text_less(a, b) {
                assert(i < nx);
                assert(text_less(xs[i].0, xs[nx].0));
                lemma_text_less_transitive(a, b, a);
            } else {
                assert(j < ny);
                assert(text_less(ys[j].0, ys[ny].0));
                lemma_text_less_transitive(b, a, b);
            }
            lemma_text_less_irreflexive(a);
            lemma_text_less_irreflexive(b);
        }
        let dx = xs.drop_last();
        let dy = ys.drop_last();
        lemma_sorted_drop_last(xs);
        lemma_sorted_drop_last(ys);
        assert forall|k: Seq<char>| has_key(dx, k) <==> has_key(dy, k) by {
            if has_key(dx, k) {
                let m = choose|m: int| 0 <= m < dx.len() && (#[trigger] dx[m]).0 == k;
                assert(xs[m] == dx[m]);
                assert(text_less(xs[m].0, xs[nx].0));
                lemma_text_less_irreflexive(k);
                assert(has_key(xs, k));
                assert(has_key(ys, k));
                let q = choose|q: int| 0 <= q < ys.len() && (#[trigger] ys[q]).0 == k;
                assert(q != ny);
                assert(dy[q] == ys[q]);
            }
            if has_key(dy, k) {
                let m = choose|m: int| 0 <= m < dy.len() && (#[trigger] dy[m]).0 == k;
                assert(ys[m] == dy[m]);
                assert(text_less(ys[m].0, ys[ny].0));
                lemma_text_less_irreflexive(k);
                assert(has_key(ys, k));
                assert(has_key(xs, k));
                let q = choose|q: int| 0 <= q < xs.len() && (#[trigger] xs[q]).0 == k;
                assert(q != nx);
                assert(dx[q] == xs[q]);
            }
        }
        lemma_same_keys_same_places(dx, dy);
        assert forall|m: int| 0 <= m < xs.len() implies (#[trigger] xs[m]).0 == ys[m].0 by {
            if m < nx {
                assert(dx[m] == xs[m] && dy[m] == ys[m]);
            }
        }
    }
}

/// For objects as a parser produces them (keys sorted, each once),
/// comparing entries in order is comparing them as maps: the same keys,
/// with equal values under each.
pub proof fn law_object_eq_is_map_eq(xs: Seq<(Seq<char>, JsonV)>, ys: Seq<(Seq<char>, JsonV)>)
    requires
        keys_sorted(xs),
        keys_sorted(ys),
    ensures
        json_eq(JsonV::Object(xs), JsonV::Object(ys)) <==> members_match(xs, ys),
{
    if json_eq(JsonV::Object(xs), JsonV::Object(ys)) {
        assert forall|k: Seq<char>| #![trigger lookup(xs, k)] #![trigger lookup(ys, k)]
            (lookup(xs, k) is Some <==> lookup(ys, k) is Some) by {
            lemma_lookup_has_key(xs, k);
            lemma_lookup_has_key(ys, k);
            if has_key(xs, k) {
                let i = choose|i: int| 0 <= i < xs.len() && (#[trigger] xs[i]).0 == k;
                assert(ys[i].0 == k);
            }
            if has_key(ys, k) {
                let i = choose|i: int| 0 <= i < ys.len() && (#[trigger] ys[i]).0 == k;
                assert(xs[i].0 == k);
            }
        }
        assert forall|k: Seq<char>| #![trigger lookup(xs, k), lookup(ys, k)]
            (lookup(xs, k) is Some && lookup(ys, k) is Some) implies json_eq(lookup(xs, k)->Some_0, lookup(ys, k)->Some_0) by {
            lemma_lookup_has_key(xs, k);
            let v = lookup(xs, k)->Some_0;
            let i = choose|i: int| 0 <= i < xs.len() && #[trigger] xs[i] == (k, v);
            assert(xs[i].0 == ys[i].0 && json_eq(xs[i].1, ys[i].1));
            lemma_lookup_sorted_at(ys, i);
        }
    }
    if members_match(xs, ys) {
        assert forall|k: Seq<char>| has_key(xs, k) <==> has_key(ys, k) by {
            lemma_lookup_has_key(xs, k);
            lemma_lookup_has_key(ys, k);
        }
        lemma_same_keys_same_places(xs, ys);
        assert forall|i: int| 0 <= i < xs.len() implies (#[trigger] xs[i]).0 == ys[i].0 && json_eq(xs[i].1, ys[i].1) by {
            lemma_lookup_sorted_at(xs, i);
            lemma_lookup_sorted_at(ys, i);
            let k = xs[i].0;
            assert(lookup(xs, k) is Some && lookup(ys, k) is Some);
        }
    }
}

} // verus!
