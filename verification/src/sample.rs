//! Minimal JSON samples derived from OpenAPI schemas.
//!
//! Explicit values win (`const`, `example`, `default`, then `examples`, then
//! `enum`). Otherwise the smallest useful JSON value is built: required object
//! properties when any are listed, otherwise every property.
use vstd::prelude::*;

use serde_json::Number as JsonNumber;

use crate::decode::{exec_ref_target, ref_target};
use crate::document::{
    cyclic, cyclic_error, deref, exec_present, json_res, lemma_deref_strings, opt_view, pointer,
    present, stack_has, texts_view,
};
use crate::error::{Error, ErrorV};
use crate::json::{entries_view, items_view, Json, JsonV, NumV, Number};
use crate::json_ops::{
    compact, copy_json, entries_get, entries_has, entries_insert, get_field, get_field_chars,
    has_key, json_get, num_text, number_text, object_insert, to_compact,
};
use crate::refs::{lemma_ref_measure_decreases, ref_measure};
use crate::text::{
    chars_eq_str, chars_lt, chars_of, copy_chars, ends_with, find_char_from, has_prefix,
    has_suffix, index_of_from, lemma_index_of_from, lower_chars, lower_text, push_all, push_str,
    slice_chars, starts_with, text_lt, trim, trim_chars,
};

verus! {

broadcast use {vstd::std_specs::vec::group_vec_axioms, crate::json::group_json_view};

// ---------------------------------------------------------------------------
// Floating-point steps, done by `serde_json` and the standard library.
//
// A JSON number is taken as the `f64` that `JsonNumber::as_f64` gives:
// an integer converted to `f64`, or a float text read back as the float it
// denotes (the texts are the shortest ones that read back exactly).

/// `as_f64` of a JSON number, floored and cast to `i64` (saturating).
pub uninterp spec fn num_floor(n: NumV) -> i64;

/// `as_f64` of a JSON number, rounded up and cast to `i64` (saturating).
pub uninterp spec fn num_ceil(n: NumV) -> i64;

/// The text `serde_json` prints for `as_f64` of a JSON number, as a float (empty
/// when that float is not finite).
pub uninterp spec fn num_float(n: NumV) -> Seq<char>;

/// The text `serde_json` prints for the sum of `as_f64` of two JSON numbers, as
/// a float (empty when the sum is not finite).
pub uninterp spec fn num_sum(a: NumV, b: NumV) -> Seq<char>;

/// Whether `as_f64` of the first number is greater than that of the second.
pub uninterp spec fn num_greater(a: NumV, b: NumV) -> bool;

/// The integer a JSON number holds, when `as_f64` converts it exactly (its
/// magnitude is at most 2^53).
pub open spec fn exact_int(n: NumV) -> Option<i64> {
    match n {
        NumV::PosInt(u) => if u <= 0x20_0000_0000_0000 {
            Some(u as i64)
        } else {
            None
        },
        NumV::NegInt(i) => if -0x20_0000_0000_0000 <= i <= 0x20_0000_0000_0000 {
            Some(i)
        } else {
            None
        },
        NumV::Float(_) => None,
    }
}

/// A number floored to an `i64`: an exact integer is itself.
pub open spec fn floor_of(n: NumV) -> i64 {
    match exact_int(n) {
        Some(i) => i,
        None => num_floor(n),
    }
}

/// A number rounded up to an `i64`: an exact integer is itself.
pub open spec fn ceil_of(n: NumV) -> i64 {
    match exact_int(n) {
        Some(i) => i,
        None => num_ceil(n),
    }
}

/// `JsonNumber::as_f64` (a float text read with `str::parse`), then
/// `f64::floor` and an `as i64` cast (which saturates). The result is named by
/// `num_floor`; an integer of magnitude at most 2^53 converts to `f64` exactly,
/// so it comes back unchanged. Nothing more is stated.
#[verifier::external_body]
fn floor_i64(n: &Number) -> (r: i64)
    ensures
        r == num_floor(crate::json::num_view(*n)),
        exact_int(crate::json::num_view(*n)) matches Some(i) ==> r == i,
{
    (match n {
        Number::PosInt(u) => JsonNumber::from(*u).as_f64(),
        Number::NegInt(i) => JsonNumber::from(*i).as_f64(),
        Number::Float(t) => t.iter().collect::<String>().parse().ok(),
    }).map(|f| f.floor() as i64).unwrap_or(0)
}

/// `JsonNumber::as_f64` (a float text read with `str::parse`), then
/// `f64::ceil` and an `as i64` cast (which saturates). The result is named by
/// `num_ceil`; an integer of magnitude at most 2^53 converts to `f64` exactly,
/// so it comes back unchanged. Nothing more is stated.
#[verifier::external_body]
fn ceil_i64(n: &Number) -> (r: i64)
    ensures
        r == num_ceil(crate::json::num_view(*n)),
        exact_int(crate::json::num_view(*n)) matches Some(i) ==> r == i,
{
    (match n {
        Number::PosInt(u) => JsonNumber::from(*u).as_f64(),
        Number::NegInt(i) => JsonNumber::from(*i).as_f64(),
        Number::Float(t) => t.iter().collect::<String>().parse().ok(),
    }).map(|f| f.ceil() as i64).unwrap_or(0)
}

/// `JsonNumber::as_f64` (a float text read with `str::parse`), then
/// `Number::from_f64` and `to_string`: the float text of a JSON number's binary
/// value, empty when it is not finite. Nothing is stated of the text beyond its
/// name.
#[verifier::external_body]
fn float_text(n: &Number) -> (r: Vec<char>)
    ensures
        r@ == num_float(crate::json::num_view(*n)),
{
    (match n {
        Number::PosInt(u) => JsonNumber::from(*u).as_f64(),
        Number::NegInt(i) => JsonNumber::from(*i).as_f64(),
        Number::Float(t) => t.iter().collect::<String>().parse().ok(),
    }).and_then(JsonNumber::from_f64).map(|x| x.to_string()).unwrap_or_default().chars().collect()
}

/// The sum of `JsonNumber::as_f64` of two numbers (float texts read with
/// `str::parse`), then `Number::from_f64` and `to_string`: empty when the sum is
/// not finite. Nothing is stated of the text beyond its name.
#[verifier::external_body]
fn float_sum(a: &Number, b: &Number) -> (r: Vec<char>)
    ensures
        r@ == num_sum(crate::json::num_view(*a), crate::json::num_view(*b)),
{
    let x = match a {
        Number::PosInt(u) => JsonNumber::from(*u).as_f64(),
        Number::NegInt(i) => JsonNumber::from(*i).as_f64(),
        Number::Float(t) => t.iter().collect::<String>().parse().ok(),
    };
    let y = match b {
        Number::PosInt(u) => JsonNumber::from(*u).as_f64(),
        Number::NegInt(i) => JsonNumber::from(*i).as_f64(),
        Number::Float(t) => t.iter().collect::<String>().parse().ok(),
    };
    x.zip(y).and_then(|(x, y)| JsonNumber::from_f64(x + y)).map(|n| n.to_string()).unwrap_or_default().chars().collect()
}

/// `JsonNumber::as_f64` of two numbers (float texts read with
/// `str::parse`), compared with `>`: the result is named by `num_greater`, and
/// nothing more is stated.
#[verifier::external_body]
fn float_greater(a: &Number, b: &Number) -> (r: bool)
    ensures
        r == num_greater(crate::json::num_view(*a), crate::json::num_view(*b)),
{
    let x = match a {
        Number::PosInt(u) => JsonNumber::from(*u).as_f64(),
        Number::NegInt(i) => JsonNumber::from(*i).as_f64(),
        Number::Float(t) => t.iter().collect::<String>().parse().ok(),
    };
    let y = match b {
        Number::PosInt(u) => JsonNumber::from(*u).as_f64(),
        Number::NegInt(i) => JsonNumber::from(*i).as_f64(),
        Number::Float(t) => t.iter().collect::<String>().parse().ok(),
    };
    x > y
}

// ---------------------------------------------------------------------------
// Reading schema keywords.

/// `get(key)` on a schema.
pub open spec fn kw(schema: JsonV, key: Seq<char>) -> Option<JsonV> {
    json_get(schema, key)
}

/// `as_str` of a keyword.
pub open spec fn kw_str(schema: JsonV, key: Seq<char>) -> Option<Seq<char>> {
    match kw(schema, key) {
        Some(JsonV::Str(s)) => Some(s),
        _ => None,
    }
}

/// `as_u64` of a keyword.
pub open spec fn kw_u64(schema: JsonV, key: Seq<char>) -> Option<u64> {
    match kw(schema, key) {
        Some(JsonV::Number(NumV::PosInt(u))) => Some(u),
        _ => None,
    }
}

/// A keyword that is a number (what `as_f64` accepts).
pub open spec fn kw_num(schema: JsonV, key: Seq<char>) -> Option<NumV> {
    match kw(schema, key) {
        Some(JsonV::Number(n)) => Some(n),
        _ => None,
    }
}

/// `as_bool` of a keyword, `false` when absent or not a boolean.
pub open spec fn kw_true(schema: JsonV, key: Seq<char>) -> bool {
    kw(schema, key) == Some(JsonV::Bool(true))
}

fn exec_kw_u64(schema: &Json, key: &str) -> (r: Option<u64>)
    ensures
        r == kw_u64(schema@, key@),
{
    match get_field(schema, key) {
        Some(Json::Number(Number::PosInt(u))) => Some(*u),
        _ => None,
    }
}

fn exec_kw_num<'a>(schema: &'a Json, key: &str) -> (r: Option<&'a Number>)
    ensures
        match kw_num(schema@, key@) {
            Some(n) => r is Some && crate::json::num_view(*r->0) == n,
            None => r is None,
        },
{
    match get_field(schema, key) {
        Some(Json::Number(n)) => Some(n),
        _ => None,
    }
}

pub fn exec_kw_true(schema: &Json, key: &str) -> (r: bool)
    ensures
        r == kw_true(schema@, key@),
{
    match get_field(schema, key) {
        Some(Json::Bool(b)) => *b,
        _ => false,
    }
}

// ---------------------------------------------------------------------------
// Numbers.

/// An integer sample: one above an `exclusiveMinimum` number, else the
/// `minimum` rounded up (plus one under a boolean `exclusiveMinimum`), else 0;
/// then no more than the floored `maximum`.
pub open spec fn sample_integer(schema: JsonV) -> i64 {
    match kw_num(schema, "exclusiveMinimum"@) {
        Some(m) => clamp_integer(wrapping_inc(floor_of(m)), schema),
        None => {
            let base = match kw_num(schema, "minimum"@) {
                Some(m) => ceil_of(m),
                None => 0,
            };
            let value = if kw_true(schema, "exclusiveMinimum"@) && kw(schema, "minimum"@) is Some {
                if base == i64::MAX {
                    base
                } else {
                    (base + 1) as i64
                }
            } else {
                base
            };
            clamp_integer(value, schema)
        },
    }
}

/// `x + 1` as release builds compute it (wrapping at `i64::MAX`).
pub open spec fn wrapping_inc(x: i64) -> i64 {
    if x == i64::MAX {
        i64::MIN
    } else {
        (x + 1) as i64
    }
}

/// No more than the floored `maximum`, when there is one.
pub open spec fn clamp_integer(value: i64, schema: JsonV) -> i64 {
    match kw_num(schema, "maximum"@) {
        Some(m) => if value > floor_of(m) {
            floor_of(m)
        } else {
            value
        },
        None => value,
    }
}

fn exec_clamp_integer(value: i64, schema: &Json) -> (r: i64)
    ensures
        r == clamp_integer(value, schema@),
{
    match exec_kw_num(schema, "maximum") {
        Some(m) => {
            let max = floor_i64(m);
            if value > max {
                max
            } else {
                value
            }
        },
        None => value,
    }
}

fn exec_sample_integer(schema: &Json) -> (r: i64)
    ensures
        r == sample_integer(schema@),
{
    if let Some(m) = exec_kw_num(schema, "exclusiveMinimum") {
        let f = floor_i64(m);
        let next = if f == i64::MAX {
            i64::MIN
        } else {
            f + 1
        };
        return exec_clamp_integer(next, schema);
    }
    let base = match exec_kw_num(schema, "minimum") {
        Some(m) => ceil_i64(m),
        None => 0,
    };
    let value = if exec_kw_true(schema, "exclusiveMinimum") && get_field(schema, "minimum").is_some() {
        if base == i64::MAX {
            base
        } else {
            base + 1
        }
    } else {
        base
    };
    exec_clamp_integer(value, schema)
}

/// A number sample, as `serde_json` prints the float: one above an
/// `exclusiveMinimum` number, else the `minimum` (plus one under a boolean
/// `exclusiveMinimum`) or 0, then the `maximum` when that is smaller.
pub open spec fn sample_float(schema: JsonV) -> Seq<char> {
    match kw_num(schema, "exclusiveMinimum"@) {
        Some(m) => num_sum(m, NumV::PosInt(1)),
        None => {
            let raised = kw_true(schema, "exclusiveMinimum"@) && kw(schema, "minimum"@) is Some;
            let base: NumV = match kw_num(schema, "minimum"@) {
                Some(m) => m,
                None => NumV::PosInt(0),
            };
            let value_text = if raised {
                num_sum(base, NumV::PosInt(1))
            } else {
                num_float(base)
            };
            match kw_num(schema, "maximum"@) {
                Some(max) => if num_greater(NumV::Float(value_text), max) {
                    num_float(max)
                } else {
                    value_text
                },
                None => value_text,
            }
        },
    }
}

fn exec_sample_float(schema: &Json) -> (r: Vec<char>)
    ensures
        r@ == sample_float(schema@),
{
    let one = Number::PosInt(1);
    if let Some(m) = exec_kw_num(schema, "exclusiveMinimum") {
        return float_sum(m, &one);
    }
    let raised = exec_kw_true(schema, "exclusiveMinimum") && get_field(schema, "minimum").is_some();
    let zero = Number::PosInt(0);
    let base: &Number = match exec_kw_num(schema, "minimum") {
        Some(m) => m,
        None => &zero,
    };
    let value_text = if raised {
        float_sum(base, &one)
    } else {
        float_text(base)
    };
    match exec_kw_num(schema, "maximum") {
        Some(max) => {
            let v = Number::Float(copy_chars(&value_text));
            if float_greater(&v, max) {
                float_text(max)
            } else {
                value_text
            }
        },
        None => value_text,
    }
}

// ---------------------------------------------------------------------------
// Strings.

/// The base sample for a string `format`.
pub open spec fn format_text(format: Option<Seq<char>>) -> Seq<char> {
    match format {
        Some(f) => if f == "date-time"@ {
            "2020-01-01T00:00:00Z"@
        } else if f == "date"@ {
            "2020-01-01"@
        } else if f == "uuid"@ {
            "00000000-0000-0000-0000-000000000000"@
        } else if f == "email"@ {
            "user@example.com"@
        } else if f == "uri"@ || f == "url"@ || f == "uri-reference"@ {
            "https://example.com"@
        } else if f == "byte"@ {
            "YQ=="@
        } else if f == "ipv4"@ {
            "127.0.0.1"@
        } else if f == "ipv6"@ {
            "::1"@
        } else {
            "string"@
        },
        None => "string"@,
    }
}

/// `n` copies of `a`.
pub open spec fn a_repeat(n: nat) -> Seq<char> {
    Seq::new(n, |i: int| 'a')
}

/// A string sample: the format's text, replaced by `a` repeated `minLength`
/// times when shorter than that, then cut to `maxLength` characters.
pub open spec fn sample_string(schema: JsonV) -> Seq<char> {
    let base = format_text(kw_str(schema, "format"@));
    let lengthened = match kw_u64(schema, "minLength"@) {
        Some(min) => {
            let min = if min > usize::MAX {
                usize::MAX as nat
            } else {
                min as nat
            };
            if base.len() < min {
                a_repeat(min)
            } else {
                base
            }
        },
        None => base,
    };
    match kw_u64(schema, "maxLength"@) {
        Some(max) => {
            let max = if max > usize::MAX {
                0nat
            } else {
                max as nat
            };
            if lengthened.len() > max {
                lengthened.take(max as int)
            } else {
                lengthened
            }
        },
        None => lengthened,
    }
}

fn exec_format_text(schema: &Json) -> (r: Vec<char>)
    ensures
        r@ == format_text(kw_str(schema@, "format"@)),
{
    match get_field(schema, "format") {
        Some(Json::Str(f)) => {
            if chars_eq_str(f, "date-time") {
                chars_of("2020-01-01T00:00:00Z")
            } else if chars_eq_str(f, "date") {
                chars_of("2020-01-01")
            } else if chars_eq_str(f, "uuid") {
                chars_of("00000000-0000-0000-0000-000000000000")
            } else if chars_eq_str(f, "email") {
                chars_of("user@example.com")
            } else if chars_eq_str(f, "uri") || chars_eq_str(f, "url") || chars_eq_str(
                f,
                "uri-reference",
            ) {
                chars_of("https://example.com")
            } else if chars_eq_str(f, "byte") {
                chars_of("YQ==")
            } else if chars_eq_str(f, "ipv4") {
                chars_of("127.0.0.1")
            } else if chars_eq_str(f, "ipv6") {
                chars_of("::1")
            } else {
                chars_of("string")
            }
        },
        _ => chars_of("string"),
    }
}

fn exec_sample_string(schema: &Json) -> (r: Vec<char>)
    ensures
        r@ == sample_string(schema@),
{
    let mut text = exec_format_text(schema);
    if let Some(min) = exec_kw_u64(schema, "minLength") {
        let min: usize = if min > usize::MAX as u64 {
            usize::MAX
        } else {
            min as usize
        };
        if text.len() < min {
            let mut t: Vec<char> = Vec::new();
            let mut i: usize = 0;
            while i < min
                invariant
                    i <= min,
                    t@ == a_repeat(i as nat),
                decreases min - i,
            {
                t.push('a');
                i += 1;
                assert(t@ =~= a_repeat(i as nat));
            }
            text = t;
        }
    }
    if let Some(max) = exec_kw_u64(schema, "maxLength") {
        let max: usize = if max > usize::MAX as u64 {
            0
        } else {
            max as usize
        };
        if text.len() > max {
            text = crate::text::slice_chars(&text, 0, max);
        }
    }
    text
}

// ---------------------------------------------------------------------------
// Explicit values and types.

/// The error for a schema that is not an object.
pub open spec fn schema_error() -> ErrorV {
    ErrorV::Spec { message: "schema must be an object (boolean schemas are not supported in v0.1)"@ }
}

/// `const`, `example` or `default` (the first present), else the first of `examples`.
pub open spec fn explicit_value(schema: JsonV) -> Option<JsonV> {
    if kw(schema, "const"@) is Some {
        kw(schema, "const"@)
    } else if kw(schema, "example"@) is Some {
        kw(schema, "example"@)
    } else if kw(schema, "default"@) is Some {
        kw(schema, "default"@)
    } else {
        match kw(schema, "examples"@) {
            Some(JsonV::Array(items)) => if items.len() > 0 {
                Some(items[0])
            } else {
                None
            },
            _ => None,
        }
    }
}

/// The first value of an `enum` array.
pub open spec fn first_enum(schema: JsonV) -> Option<JsonV> {
    match kw(schema, "enum"@) {
        Some(JsonV::Array(items)) => if items.len() > 0 {
            Some(items[0])
        } else {
            None
        },
        _ => None,
    }
}

/// The first string among `items[k..]` that is not `"null"`.
pub open spec fn first_non_null(items: Seq<JsonV>, k: int) -> Option<Seq<char>>
    decreases items.len() - k,
{
    if k < 0 || k >= items.len() {
        None
    } else {
        match items[k] {
            JsonV::Str(t) => if t != "null"@ {
                Some(t)
            } else {
                first_non_null(items, k + 1)
            },
            _ => first_non_null(items, k + 1),
        }
    }
}

/// The schema's type: a `type` string, or the first non-`null` string of a `type`
/// list (the first entry when that is a string and all strings are `null`).
pub open spec fn primary_type(schema: JsonV) -> Option<Seq<char>> {
    match kw(schema, "type"@) {
        Some(JsonV::Str(t)) => Some(t),
        Some(JsonV::Array(items)) => match first_non_null(items, 0) {
            Some(t) => Some(t),
            None => if items.len() > 0 && items[0] is Str {
                Some(items[0]->Str_0)
            } else {
                None
            },
        },
        _ => None,
    }
}

/// An `i64` as a JSON number, as `serde_json::Number::from` stores it.
pub open spec fn int_number(i: i64) -> JsonV {
    if i < 0 {
        JsonV::Number(NumV::NegInt(i))
    } else {
        JsonV::Number(NumV::PosInt(i as u64))
    }
}

/// A float sample as JSON: the number, or `null` when it is not finite (empty text).
pub open spec fn float_json(text: Seq<char>) -> JsonV {
    if text.len() == 0 {
        JsonV::Null
    } else {
        JsonV::Number(NumV::Float(text))
    }
}

// ---------------------------------------------------------------------------
// Objects: which properties are sampled.

/// The strings of a list, in order.
pub open spec fn str_items(items: Seq<JsonV>) -> Seq<Seq<char>>
    decreases items.len(),
{
    if items.len() == 0 {
        Seq::empty()
    } else {
        match items.last() {
            JsonV::Str(t) => str_items(items.drop_last()).push(t),
            _ => str_items(items.drop_last()),
        }
    }
}

/// The names listed under `required`.
pub open spec fn required_names(schema: JsonV) -> Seq<Seq<char>> {
    match kw(schema, "required"@) {
        Some(JsonV::Array(items)) => str_items(items),
        _ => Seq::empty(),
    }
}

/// The keys of object entries, in order.
pub open spec fn entry_keys(m: Seq<(Seq<char>, JsonV)>) -> Seq<Seq<char>> {
    m.map_values(|e: (Seq<char>, JsonV)| e.0)
}

/// The names that are keys of `props`, in order.
pub open spec fn keys_present(names: Seq<Seq<char>>, props: Seq<(Seq<char>, JsonV)>) -> Seq<
    Seq<char>,
>
    decreases names.len(),
{
    if names.len() == 0 {
        Seq::empty()
    } else if entries_has(props, names.last()) {
        keys_present(names.drop_last(), props).push(names.last())
    } else {
        keys_present(names.drop_last(), props)
    }
}

/// The property schema under a key (`null` when there is none).
pub open spec fn prop(props: Seq<(Seq<char>, JsonV)>, key: Seq<char>) -> JsonV {
    match entries_get(props, key) {
        Some(v) => v,
        None => JsonV::Null,
    }
}

/// Whether a schema is `readOnly: true`, itself or through its `$ref` chain (a
/// cycle or an unresolved reference counts as not read-only).
pub open spec fn schema_is_read_only(doc: JsonV, schema: JsonV, stack: Seq<Seq<char>>) -> bool
    decreases ref_measure(doc, schema, stack),
{
    if kw_true(schema, "readOnly"@) {
        true
    } else {
        match ref_target(schema) {
            None => false,
            Some(r) => if stack.contains(r) {
                false
            } else {
                match deref(doc, r, "schema"@) {
                    Err(_) => false,
                    Ok(x) => {
                        proof {
                            lemma_deref_strings(doc, r, "schema"@);
                            lemma_ref_measure_decreases(doc, schema, stack, x);
                        }
                        schema_is_read_only(doc, x, stack.push(r))
                    },
                }
            },
        }
    }
}

/// The keys whose property schema is not read-only, in order.
pub open spec fn writable_keys(doc: JsonV, props: Seq<(Seq<char>, JsonV)>, keys: Seq<Seq<char>>) -> Seq<
    Seq<char>,
>
    decreases keys.len(),
{
    if keys.len() == 0 {
        Seq::empty()
    } else if !schema_is_read_only(doc, prop(props, keys.last()), Seq::empty()) {
        writable_keys(doc, props, keys.drop_last()).push(keys.last())
    } else {
        writable_keys(doc, props, keys.drop_last())
    }
}

/// The index of the first text in `s[k..]` that is greater than `x`.
pub open spec fn first_greater(s: Seq<Seq<char>>, x: Seq<char>, k: int) -> int
    decreases s.len() - k,
{
    if k < 0 || k >= s.len() {
        s.len() as int
    } else if text_lt(x, s[k]) {
        k
    } else {
        first_greater(s, x, k + 1)
    }
}

/// `x` inserted into `s` before the first greater text.
pub open spec fn sorted_insert(s: Seq<Seq<char>>, x: Seq<char>) -> Seq<Seq<char>> {
    s.insert(first_greater(s, x, 0), x)
}

/// The texts in ascending order (insertion sort).
pub open spec fn sort_texts(s: Seq<Seq<char>>) -> Seq<Seq<char>>
    decreases s.len(),
{
    if s.len() == 0 {
        Seq::empty()
    } else {
        sorted_insert(sort_texts(s.drop_last()), s.last())
    }
}

/// The keys sampled for an object: the required properties that exist (every
/// property when none is required), without read-only ones; when that leaves
/// nothing, every property that is not read-only; sorted.
pub open spec fn sampled_keys(doc: JsonV, schema: JsonV, props: Seq<(Seq<char>, JsonV)>) -> Seq<
    Seq<char>,
> {
    let required = required_names(schema);
    let chosen = if required.len() == 0 {
        entry_keys(props)
    } else {
        keys_present(required, props)
    };
    let writable = writable_keys(doc, props, chosen);
    if writable.len() == 0 {
        sort_texts(writable_keys(doc, props, entry_keys(props)))
    } else {
        sort_texts(writable)
    }
}

/// Required names that are neither properties nor already sampled, added with
/// the value `"string"`.
pub open spec fn add_missing_required(
    obj: Seq<(Seq<char>, JsonV)>,
    props: Seq<(Seq<char>, JsonV)>,
    required: Seq<Seq<char>>,
) -> Seq<(Seq<char>, JsonV)>
    decreases required.len(),
{
    if required.len() == 0 {
        obj
    } else {
        let prev = add_missing_required(obj, props, required.drop_last());
        let name = required.last();
        if !entries_has(props, name) && !entries_has(prev, name) {
            entries_insert(prev, name, JsonV::Str("string"@))
        } else {
            prev
        }
    }
}

/// Object entries merged into others, later ones replacing earlier ones.
pub open spec fn merge_entries(m: Seq<(Seq<char>, JsonV)>, fields: Seq<(Seq<char>, JsonV)>) -> Seq<
    (Seq<char>, JsonV),
>
    decreases fields.len(),
{
    if fields.len() == 0 {
        m
    } else {
        entries_insert(merge_entries(m, fields.drop_last()), fields.last().0, fields.last().1)
    }
}

/// The number of copies of the item sample in an array sample: `minItems` (at
/// least one, one when it does not fit in `usize`), at most five.
pub open spec fn array_count(schema: JsonV) -> nat {
    let min: u64 = match kw_u64(schema, "minItems"@) {
        Some(m) => m,
        None => 1,
    };
    let min: u64 = if min >= 1 {
        min
    } else {
        1
    };
    if min > usize::MAX {
        1
    } else if min < 5 {
        min as nat
    } else {
        5
    }
}

// ---------------------------------------------------------------------------
// The sampler. Each nested schema is sampled one level deeper; past depth 16
// the sample is `null`.

/// The sample of a schema, or the error for a schema that cannot be sampled.
/// `stack` holds the `$ref`s being followed; a reference met again samples as `null`.
pub open spec fn sample_schema(doc: JsonV, schema: JsonV, depth: nat, stack: Seq<Seq<char>>) -> Result<
    JsonV,
    ErrorV,
>
    decreases 17 - depth, 4int, 0int,
{
    if !(schema is Object) {
        Err(schema_error())
    } else if depth > 16 {
        Ok(JsonV::Null)
    } else {
        match explicit_value(schema) {
            Some(v) => Ok(v),
            None => match first_enum(schema) {
                Some(v) => Ok(v),
                None => match ref_target(schema) {
                    Some(r) => if stack.contains(r) {
                        Ok(JsonV::Null)
                    } else {
                        match deref(doc, r, "schema"@) {
                            Err(e) => Err(e),
                            Ok(x) => sample_schema(doc, x, depth + 1, stack.push(r)),
                        }
                    },
                    None => match sample_composition(doc, schema, depth, stack) {
                        Err(e) => Err(e),
                        Ok(Some(v)) => Ok(v),
                        Ok(None) => sample_typed(doc, schema, depth, stack),
                    },
                },
            },
        }
    }
}

/// The samples of `allOf` branches merged: the object fields in order, and the
/// last sample that was not an object.
pub open spec fn all_of_fold(doc: JsonV, branches: Seq<JsonV>, depth: nat, stack: Seq<Seq<char>>) -> Result<
    (Seq<(Seq<char>, JsonV)>, Option<JsonV>),
    ErrorV,
>
    decreases 17 - depth, 0int, branches.len() as int,
{
    if depth > 16 || branches.len() == 0 {
        Ok((Seq::empty(), None))
    } else {
        match all_of_fold(doc, branches.drop_last(), depth, stack) {
            Err(e) => Err(e),
            Ok((merged, fallback)) => match sample_schema(doc, branches.last(), depth + 1, stack) {
                Err(e) => Err(e),
                Ok(JsonV::Object(fields)) => Ok((merge_entries(merged, fields), fallback)),
                Ok(other) => Ok((merged, Some(other))),
            },
        }
    }
}

/// `oneOf`, or `anyOf` when there is no `oneOf`.
pub open spec fn alternatives(schema: JsonV) -> Option<JsonV> {
    if kw(schema, "oneOf"@) is Some {
        kw(schema, "oneOf"@)
    } else {
        kw(schema, "anyOf"@)
    }
}

/// The sample of a composed schema: a non-empty `allOf` merges its branches (and
/// the schema's own `properties`) into one object, or gives the last non-object
/// branch sample; `oneOf`/`anyOf` give the sample of their first branch. `None`
/// when the schema is not composed.
pub open spec fn sample_composition(doc: JsonV, schema: JsonV, depth: nat, stack: Seq<Seq<char>>) -> Result<
    Option<JsonV>,
    ErrorV,
>
    decreases 17 - depth, 3int, 0int,
{
    if depth > 16 {
        Ok(None)
    } else {
        match kw(schema, "allOf"@) {
            Some(JsonV::Array(branches)) if branches.len() > 0 => match all_of_fold(doc, branches, depth, stack) {
                Err(e) => Err(e),
                Ok((merged, fallback)) => {
                    let own: Result<Seq<(Seq<char>, JsonV)>, ErrorV> = if kw(schema, "properties"@) is Some {
                        match sample_typed(doc, schema, depth, stack) {
                            Err(e) => Err(e),
                            Ok(JsonV::Object(fields)) => Ok(merge_entries(merged, fields)),
                            Ok(_) => Ok(merged),
                        }
                    } else {
                        Ok(merged)
                    };
                    match own {
                        Err(e) => Err(e),
                        Ok(m) => if m.len() > 0 {
                            Ok(Some(JsonV::Object(m)))
                        } else {
                            Ok(fallback)
                        },
                    }
                },
            },
            Some(JsonV::Array(_)) => Ok(None),
            _ => match alternatives(schema) {
                Some(JsonV::Array(bs)) if bs.len() > 0 => match sample_schema(doc, bs[0], depth + 1, stack) {
                    Err(e) => Err(e),
                    Ok(v) => Ok(Some(v)),
                },
                _ => Ok(None),
            },
        }
    }
}

/// The sample of a schema by its type (or, without one, by its keywords).
pub open spec fn sample_typed(doc: JsonV, schema: JsonV, depth: nat, stack: Seq<Seq<char>>) -> Result<
    JsonV,
    ErrorV,
>
    decreases 17 - depth, 2int, 0int,
{
    if depth > 16 {
        Ok(JsonV::Null)
    } else {
        match primary_type(schema) {
            Some(t) => if t == "object"@ {
                sample_object(doc, schema, depth, stack)
            } else if t == "array"@ {
                sample_array(doc, schema, depth, stack)
            } else if t == "string"@ {
                Ok(JsonV::Str(sample_string(schema)))
            } else if t == "integer"@ {
                Ok(int_number(sample_integer(schema)))
            } else if t == "number"@ {
                Ok(float_json(sample_float(schema)))
            } else if t == "boolean"@ {
                Ok(JsonV::Bool(true))
            } else if t == "null"@ {
                Ok(JsonV::Null)
            } else {
                Ok(JsonV::Str("string"@))
            },
            None => if kw(schema, "properties"@) is Some || kw(schema, "additionalProperties"@) is Some {
                sample_object(doc, schema, depth, stack)
            } else if kw(schema, "items"@) is Some {
                sample_array(doc, schema, depth, stack)
            } else if kw(schema, "format"@) is Some || kw(schema, "minLength"@) is Some || kw(
                schema,
                "maxLength"@,
            ) is Some || kw(schema, "pattern"@) is Some {
                Ok(JsonV::Str(sample_string(schema)))
            } else if kw(schema, "minimum"@) is Some || kw(schema, "maximum"@) is Some {
                Ok(float_json(sample_float(schema)))
            } else {
                Ok(JsonV::Object(Seq::empty()))
            },
        }
    }
}

/// The samples of the given properties, each inserted under its key.
pub open spec fn object_fold(
    doc: JsonV,
    props: Seq<(Seq<char>, JsonV)>,
    keys: Seq<Seq<char>>,
    depth: nat,
    stack: Seq<Seq<char>>,
) -> Result<Seq<(Seq<char>, JsonV)>, ErrorV>
    decreases 17 - depth, 0int, keys.len() as int,
{
    if depth > 16 || keys.len() == 0 {
        Ok(Seq::empty())
    } else {
        match object_fold(doc, props, keys.drop_last(), depth, stack) {
            Err(e) => Err(e),
            Ok(obj) => match sample_schema(doc, prop(props, keys.last()), depth + 1, stack) {
                Err(e) => Err(e),
                Ok(v) => Ok(entries_insert(obj, keys.last(), v)),
            },
        }
    }
}

/// The sample of an object schema: its sampled properties, plus `"string"` for
/// each required name that is not a property.
pub open spec fn sample_object(doc: JsonV, schema: JsonV, depth: nat, stack: Seq<Seq<char>>) -> Result<
    JsonV,
    ErrorV,
>
    decreases 17 - depth, 1int, 0int,
{
    if depth > 16 {
        Ok(JsonV::Object(Seq::empty()))
    } else {
        match kw(schema, "properties"@) {
            Some(JsonV::Object(props)) => match object_fold(
                doc,
                props,
                sampled_keys(doc, schema, props),
                depth,
                stack,
            ) {
                Err(e) => Err(e),
                Ok(obj) => Ok(JsonV::Object(add_missing_required(obj, props, required_names(schema)))),
            },
            _ => Ok(JsonV::Object(Seq::empty())),
        }
    }
}

/// The sample of an array schema: `array_count` copies of the item sample; empty
/// when `maxItems` is 0, or `items` is missing or a boolean.
pub open spec fn sample_array(doc: JsonV, schema: JsonV, depth: nat, stack: Seq<Seq<char>>) -> Result<
    JsonV,
    ErrorV,
>
    decreases 17 - depth, 1int, 0int,
{
    if depth > 16 || kw_u64(schema, "maxItems"@) == Some(0u64) {
        Ok(JsonV::Array(Seq::empty()))
    } else {
        match kw(schema, "items"@) {
            None => Ok(JsonV::Array(Seq::empty())),
            Some(JsonV::Bool(_)) => Ok(JsonV::Array(Seq::empty())),
            Some(items) => match sample_schema(doc, items, depth + 1, stack) {
                Err(e) => Err(e),
                Ok(item) => Ok(JsonV::Array(Seq::new(array_count(schema), |i: int| item))),
            },
        }
    }
}

// ---------------------------------------------------------------------------
// Executable sampler.

fn exec_explicit_value(schema: &Json) -> (r: Option<Json>)
    ensures
        opt_view(r) == explicit_value(schema@),
{
    if let Some(v) = get_field(schema, "const") {
        return Some(copy_json(v));
    }
    if let Some(v) = get_field(schema, "example") {
        return Some(copy_json(v));
    }
    if let Some(v) = get_field(schema, "default") {
        return Some(copy_json(v));
    }
    match get_field(schema, "examples") {
        Some(Json::Array(items)) => if items.len() > 0 {
            assert(items_view(items@)[0] == items@[0]@);
            Some(copy_json(&items[0]))
        } else {
            None
        },
        _ => None,
    }
}

fn exec_first_enum(schema: &Json) -> (r: Option<Json>)
    ensures
        opt_view(r) == first_enum(schema@),
{
    match get_field(schema, "enum") {
        Some(Json::Array(items)) => if items.len() > 0 {
            assert(items_view(items@)[0] == items@[0]@);
            Some(copy_json(&items[0]))
        } else {
            None
        },
        _ => None,
    }
}

fn exec_primary_type(schema: &Json) -> (r: Option<Vec<char>>)
    ensures
        match primary_type(schema@) {
            Some(t) => r is Some && r->0@ == t,
            None => r is None,
        },
{
    match get_field(schema, "type") {
        Some(Json::Str(t)) => Some(copy_chars(t)),
        Some(Json::Array(items)) => {
            let ghost iv = items_view(items@);
            let mut k: usize = 0;
            while k < items.len()
                invariant
                    k <= items.len(),
                    iv == items_view(items@),
                    kw(schema@, "type"@) == Some(JsonV::Array(iv)),
                    first_non_null(iv, 0) == first_non_null(iv, k as int),
                decreases items.len() - k,
            {
                assert(iv[k as int] == items@[k as int]@);
                if let Json::Str(t) = &items[k] {
                    if !chars_eq_str(t, "null") {
                        return Some(copy_chars(t));
                    }
                }
                k += 1;
            }
            if items.len() > 0 {
                assert(iv[0] == items@[0]@);
                match &items[0] {
                    Json::Str(t) => Some(copy_chars(t)),
                    _ => None,
                }
            } else {
                None
            }
        },
        _ => None,
    }
}

fn int_json(i: i64) -> (r: Json)
    ensures
        r@ == int_number(i),
{
    if i < 0 {
        Json::Number(Number::NegInt(i))
    } else {
        Json::Number(Number::PosInt(i as u64))
    }
}

fn exec_float_json(text: Vec<char>) -> (r: Json)
    ensures
        r@ == float_json(text@),
{
    if text.len() == 0 {
        Json::Null
    } else {
        Json::Number(Number::Float(text))
    }
}

fn exec_required_names(schema: &Json) -> (r: Vec<Vec<char>>)
    ensures
        texts_view(r@) == required_names(schema@),
{
    let mut out: Vec<Vec<char>> = Vec::new();
    if let Some(Json::Array(items)) = get_field(schema, "required") {
        let ghost iv = items_view(items@);
        let mut i: usize = 0;
        while i < items.len()
            invariant
                i <= items.len(),
                iv == items_view(items@),
                texts_view(out@) == str_items(iv.take(i as int)),
            decreases items.len() - i,
        {
            assert(iv.take(i + 1).drop_last() =~= iv.take(i as int));
            let ghost before = out@;
            if let Json::Str(t) = &items[i] {
                out.push(copy_chars(t));
                assert(texts_view(out@) =~= texts_view(before).push(t@));
            }
            i += 1;
        }
        assert(iv.take(i as int) =~= iv);
    } else {
        assert(texts_view(out@) =~= Seq::<Seq<char>>::empty());
    }
    out
}

fn exec_entry_keys(props: &Vec<(Vec<char>, Json)>) -> (r: Vec<Vec<char>>)
    ensures
        texts_view(r@) == entry_keys(entries_view(props@)),
{
    let mut out: Vec<Vec<char>> = Vec::new();
    let mut i: usize = 0;
    while i < props.len()
        invariant
            i <= props.len(),
            texts_view(out@) == entry_keys(entries_view(props@)).take(i as int),
        decreases props.len() - i,
    {
        let ghost before = out@;
        out.push(copy_chars(&props[i].0));
        assert(entries_view(props@)[i as int].0 == props@[i as int].0@);
        assert(entry_keys(entries_view(props@))[i as int] == props@[i as int].0@);
        assert(entry_keys(entries_view(props@)).take(i + 1) =~= entry_keys(entries_view(props@)).take(
            i as int,
        ).push(props@[i as int].0@));
        assert(texts_view(out@) =~= texts_view(before).push(props@[i as int].0@));
        i += 1;
    }
    assert(entry_keys(entries_view(props@)).take(i as int) =~= entry_keys(entries_view(props@)));
    out
}

fn exec_keys_present(names: &Vec<Vec<char>>, props: &Json) -> (r: Vec<Vec<char>>)
    requires
        props@ is Object,
    ensures
        texts_view(r@) == keys_present(texts_view(names@), props@->Object_0),
{
    let ghost nv = texts_view(names@);
    let mut out: Vec<Vec<char>> = Vec::new();
    let mut i: usize = 0;
    while i < names.len()
        invariant
            i <= names.len(),
            nv == texts_view(names@),
            props@ is Object,
            texts_view(out@) == keys_present(nv.take(i as int), props@->Object_0),
        decreases names.len() - i,
    {
        assert(nv.take(i + 1).drop_last() =~= nv.take(i as int));
        let ghost before = out@;
        if get_field_chars(props, &names[i]).is_some() {
            out.push(copy_chars(&names[i]));
            assert(texts_view(out@) =~= texts_view(before).push(names@[i as int]@));
        }
        i += 1;
    }
    assert(nv.take(i as int) =~= nv);
    out
}

fn exec_schema_is_read_only(doc: &Json, schema: &Json, stack: Vec<Vec<char>>) -> (r: bool)
    ensures
        r == schema_is_read_only(doc@, schema@, texts_view(stack@)),
    decreases ref_measure(doc@, schema@, texts_view(stack@)),
{
    if exec_kw_true(schema, "readOnly") {
        return true;
    }
    let reference = match exec_ref_target(schema) {
        None => {
            return false;
        },
        Some(r) => r,
    };
    if stack_has(&stack, &reference) {
        return false;
    }
    let x = match pointer(doc, &reference, "schema") {
        Ok(x) => x,
        Err(_) => {
            return false;
        },
    };
    proof {
        lemma_deref_strings(doc@, reference@, "schema"@);
        lemma_ref_measure_decreases(doc@, schema@, texts_view(stack@), x@);
    }
    let mut next = stack;
    let ghost before = next@;
    next.push(copy_chars(&reference));
    assert(texts_view(next@) =~= texts_view(before).push(reference@));
    exec_schema_is_read_only(doc, x, next)
}

fn exec_writable_keys(doc: &Json, props: &Json, keys: &Vec<Vec<char>>) -> (r: Vec<Vec<char>>)
    requires
        props@ is Object,
    ensures
        texts_view(r@) == writable_keys(doc@, props@->Object_0, texts_view(keys@)),
{
    let ghost kv = texts_view(keys@);
    let mut out: Vec<Vec<char>> = Vec::new();
    let mut i: usize = 0;
    while i < keys.len()
        invariant
            i <= keys.len(),
            kv == texts_view(keys@),
            props@ is Object,
            texts_view(out@) == writable_keys(doc@, props@->Object_0, kv.take(i as int)),
        decreases keys.len() - i,
    {
        assert(kv.take(i + 1).drop_last() =~= kv.take(i as int));
        let ghost before = out@;
        let empty: Vec<Vec<char>> = Vec::new();
        assert(texts_view(empty@) =~= Seq::<Seq<char>>::empty());
        let read_only = match get_field_chars(props, &keys[i]) {
            Some(p) => exec_schema_is_read_only(doc, p, empty),
            None => false,
        };
        if !read_only {
            out.push(copy_chars(&keys[i]));
            assert(texts_view(out@) =~= texts_view(before).push(keys@[i as int]@));
        }
        i += 1;
    }
    assert(kv.take(i as int) =~= kv);
    out
}

fn exec_first_greater(s: &Vec<Vec<char>>, x: &Vec<char>) -> (r: usize)
    ensures
        r == first_greater(texts_view(s@), x@, 0),
        r <= s.len(),
{
    let ghost sv = texts_view(s@);
    let mut k: usize = 0;
    while k < s.len()
        invariant
            k <= s.len(),
            sv == texts_view(s@),
            first_greater(sv, x@, 0) == first_greater(sv, x@, k as int),
        decreases s.len() - k,
    {
        if chars_lt(x, &s[k]) {
            return k;
        }
        k += 1;
    }
    k
}

pub fn exec_sort_texts(s: &Vec<Vec<char>>) -> (r: Vec<Vec<char>>)
    ensures
        texts_view(r@) == sort_texts(texts_view(s@)),
{
    let ghost sv = texts_view(s@);
    let mut out: Vec<Vec<char>> = Vec::new();
    let mut i: usize = 0;
    while i < s.len()
        invariant
            i <= s.len(),
            sv == texts_view(s@),
            texts_view(out@) == sort_texts(sv.take(i as int)),
        decreases s.len() - i,
    {
        assert(sv.take(i + 1).drop_last() =~= sv.take(i as int));
        let x = copy_chars(&s[i]);
        let pos = exec_first_greater(&out, &x);
        let ghost before = out@;
        out.insert(pos, x);
        assert(texts_view(out@) =~= texts_view(before).insert(pos as int, s@[i as int]@));
        i += 1;
    }
    assert(sv.take(i as int) =~= sv);
    out
}

fn merge_into(m: &mut Vec<(Vec<char>, Json)>, fields: &Vec<(Vec<char>, Json)>)
    ensures
        entries_view(final(m)@) == merge_entries(entries_view(old(m)@), entries_view(fields@)),
{
    let ghost fv = entries_view(fields@);
    let ghost m0 = entries_view(m@);
    let mut i: usize = 0;
    while i < fields.len()
        invariant
            i <= fields.len(),
            fv == entries_view(fields@),
            m0 == entries_view(old(m)@),
            entries_view(m@) == merge_entries(m0, fv.take(i as int)),
        decreases fields.len() - i,
    {
        assert(fv.take(i + 1).drop_last() =~= fv.take(i as int));
        assert(fv[i as int] == (fields@[i as int].0@, fields@[i as int].1@));
        object_insert(m, copy_chars(&fields[i].0), copy_json(&fields[i].1));
        i += 1;
    }
    assert(fv.take(i as int) =~= fv);
}

fn exec_array_count(schema: &Json) -> (r: usize)
    ensures
        r == array_count(schema@),
{
    let min: u64 = match exec_kw_u64(schema, "minItems") {
        Some(m) => m,
        None => 1,
    };
    let min: u64 = if min >= 1 {
        min
    } else {
        1
    };
    if min > usize::MAX as u64 {
        1
    } else if min < 5 {
        min as usize
    } else {
        5
    }
}

proof fn lemma_all_of_error(
    doc: JsonV,
    bs: Seq<JsonV>,
    depth: nat,
    stack: Seq<Seq<char>>,
    n: int,
    e: ErrorV,
)
    requires
        0 <= n <= bs.len(),
        depth <= 16,
        all_of_fold(doc, bs.take(n), depth, stack) == Err::<(Seq<(Seq<char>, JsonV)>, Option<JsonV>), ErrorV>(e),
    ensures
        all_of_fold(doc, bs, depth, stack) == Err::<(Seq<(Seq<char>, JsonV)>, Option<JsonV>), ErrorV>(e),
    decreases bs.len() - n,
{
    if n < bs.len() {
        assert(bs.take(n + 1).drop_last() =~= bs.take(n));
        lemma_all_of_error(doc, bs, depth, stack, n + 1, e);
    } else {
        assert(bs.take(n) =~= bs);
    }
}

proof fn lemma_object_fold_error(
    doc: JsonV,
    props: Seq<(Seq<char>, JsonV)>,
    keys: Seq<Seq<char>>,
    depth: nat,
    stack: Seq<Seq<char>>,
    n: int,
    e: ErrorV,
)
    requires
        0 <= n <= keys.len(),
        depth <= 16,
        object_fold(doc, props, keys.take(n), depth, stack) == Err::<Seq<(Seq<char>, JsonV)>, ErrorV>(e),
    ensures
        object_fold(doc, props, keys, depth, stack) == Err::<Seq<(Seq<char>, JsonV)>, ErrorV>(e),
    decreases keys.len() - n,
{
    if n < keys.len() {
        assert(keys.take(n + 1).drop_last() =~= keys.take(n));
        lemma_object_fold_error(doc, props, keys, depth, stack, n + 1, e);
    } else {
        assert(keys.take(n) =~= keys);
    }
}

/// Samples a schema; see [`sample_schema`].
pub fn exec_sample_schema(doc: &Json, schema: &Json, depth: usize, stack: &mut Vec<Vec<char>>) -> (r: Result<
    Json,
    Error,
>)
    ensures
        json_res(r) == sample_schema(doc@, schema@, depth as nat, texts_view(old(stack)@)),
        final(stack)@ == old(stack)@,
    decreases 17 - depth, 4int, 0int,
{
    if !(match schema {
        Json::Object(_) => true,
        _ => false,
    }) {
        return Err(Error::spec(&chars_of("schema must be an object (boolean schemas are not supported in v0.1)")));
    }
    if depth > 16 {
        return Ok(Json::Null);
    }
    if let Some(v) = exec_explicit_value(schema) {
        return Ok(v);
    }
    if let Some(v) = exec_first_enum(schema) {
        return Ok(v);
    }
    if let Some(reference) = exec_ref_target(schema) {
        if stack_has(stack, &reference) {
            return Ok(Json::Null);
        }
        let x = match pointer(doc, &reference, "schema") {
            Ok(x) => x,
            Err(e) => {
                return Err(e);
            },
        };
        let ghost before = stack@;
        let ghost rv = reference@;
        stack.push(reference);
        assert(texts_view(stack@) =~= texts_view(before).push(rv));
        let res = exec_sample_schema(doc, x, depth + 1, stack);
        stack.pop();
        assert(stack@ =~= before);
        return res;
    }
    match exec_sample_composition(doc, schema, depth, stack) {
        Err(e) => Err(e),
        Ok(Some(v)) => Ok(v),
        Ok(None) => exec_sample_typed(doc, schema, depth, stack),
    }
}

fn exec_sample_composition(doc: &Json, schema: &Json, depth: usize, stack: &mut Vec<Vec<char>>) -> (r: Result<
    Option<Json>,
    Error,
>)
    requires
        depth <= 16,
    ensures
        match sample_composition(doc@, schema@, depth as nat, texts_view(old(stack)@)) {
            Ok(o) => r is Ok && opt_view(r->Ok_0) == o,
            Err(e) => r is Err && r->Err_0@ == e,
        },
        final(stack)@ == old(stack)@,
    decreases 17 - depth, 3int, 0int,
{
    let ghost st = texts_view(stack@);
    if let Some(Json::Array(branches)) = get_field(schema, "allOf") {
        if branches.len() == 0 {
            return Ok(None);
        }
        let ghost bv = items_view(branches@);
        let mut merged: Vec<(Vec<char>, Json)> = Vec::new();
        let mut fallback: Option<Json> = None;
        let mut i: usize = 0;
        while i < branches.len()
            invariant
                i <= branches.len(),
                bv == items_view(branches@),
                depth <= 16,
                stack@ == old(stack)@,
                st == texts_view(old(stack)@),
                kw(schema@, "allOf"@) == Some(JsonV::Array(bv)),
                bv.len() > 0,
                all_of_fold(doc@, bv.take(i as int), depth as nat, st) == Ok::<
                    (Seq<(Seq<char>, JsonV)>, Option<JsonV>),
                    ErrorV,
                >((entries_view(merged@), opt_view(fallback))),
            decreases branches.len() - i,
        {
            assert(bv.take(i + 1).drop_last() =~= bv.take(i as int));
            match exec_sample_schema(doc, &branches[i], depth + 1, stack) {
                Err(e) => {
                    proof {
                        lemma_all_of_error(doc@, bv, depth as nat, st, i + 1, e@);
                    }
                    return Err(e);
                },
                Ok(Json::Object(fields)) => {
                    merge_into(&mut merged, &fields);
                },
                Ok(other) => {
                    fallback = Some(other);
                },
            }
            i += 1;
        }
        assert(bv.take(i as int) =~= bv);
        if get_field(schema, "properties").is_some() {
            match exec_sample_typed(doc, schema, depth, stack) {
                Err(e) => {
                    return Err(e);
                },
                Ok(Json::Object(fields)) => {
                    merge_into(&mut merged, &fields);
                },
                Ok(_) => {},
            }
        }
        if merged.len() > 0 {
            return Ok(Some(Json::Object(merged)));
        } else {
            return Ok(fallback);
        }
    }
    let alt = match get_field(schema, "oneOf") {
        Some(v) => Some(v),
        None => get_field(schema, "anyOf"),
    };
    match alt {
        Some(Json::Array(bs)) => if bs.len() > 0 {
            assert(items_view(bs@)[0] == bs@[0]@);
            match exec_sample_schema(doc, &bs[0], depth + 1, stack) {
                Err(e) => Err(e),
                Ok(v) => Ok(Some(v)),
            }
        } else {
            Ok(None)
        },
        _ => Ok(None),
    }
}

fn exec_sample_typed(doc: &Json, schema: &Json, depth: usize, stack: &mut Vec<Vec<char>>) -> (r: Result<
    Json,
    Error,
>)
    requires
        depth <= 16,
    ensures
        json_res(r) == sample_typed(doc@, schema@, depth as nat, texts_view(old(stack)@)),
        final(stack)@ == old(stack)@,
    decreases 17 - depth, 2int, 0int,
{
    match exec_primary_type(schema) {
        Some(t) => {
            if chars_eq_str(&t, "object") {
                exec_sample_object(doc, schema, depth, stack)
            } else if chars_eq_str(&t, "array") {
                exec_sample_array(doc, schema, depth, stack)
            } else if chars_eq_str(&t, "string") {
                Ok(Json::Str(exec_sample_string(schema)))
            } else if chars_eq_str(&t, "integer") {
                Ok(int_json(exec_sample_integer(schema)))
            } else if chars_eq_str(&t, "number") {
                Ok(exec_float_json(exec_sample_float(schema)))
            } else if chars_eq_str(&t, "boolean") {
                Ok(Json::Bool(true))
            } else if chars_eq_str(&t, "null") {
                Ok(Json::Null)
            } else {
                Ok(Json::Str(chars_of("string")))
            }
        },
        None => {
            if get_field(schema, "properties").is_some() || get_field(
                schema,
                "additionalProperties",
            ).is_some() {
                exec_sample_object(doc, schema, depth, stack)
            } else if get_field(schema, "items").is_some() {
                exec_sample_array(doc, schema, depth, stack)
            } else if get_field(schema, "format").is_some() || get_field(
                schema,
                "minLength",
            ).is_some() || get_field(schema, "maxLength").is_some() || get_field(
                schema,
                "pattern",
            ).is_some() {
                Ok(Json::Str(exec_sample_string(schema)))
            } else if get_field(schema, "minimum").is_some() || get_field(
                schema,
                "maximum",
            ).is_some() {
                Ok(exec_float_json(exec_sample_float(schema)))
            } else {
                Ok(Json::Object(Vec::new()))
            }
        },
    }
}

fn exec_sample_object(doc: &Json, schema: &Json, depth: usize, stack: &mut Vec<Vec<char>>) -> (r: Result<
    Json,
    Error,
>)
    requires
        depth <= 16,
    ensures
        json_res(r) == sample_object(doc@, schema@, depth as nat, texts_view(old(stack)@)),
        final(stack)@ == old(stack)@,
    decreases 17 - depth, 1int, 0int,
{
    let props_json = match get_field(schema, "properties") {
        Some(p) => p,
        None => {
            return Ok(Json::Object(Vec::new()));
        },
    };
    let props = match props_json {
        Json::Object(e) => e,
        _ => {
            return Ok(Json::Object(Vec::new()));
        },
    };
    let ghost pv = entries_view(props@);
    let ghost st = texts_view(stack@);
    assert(props_json@ == JsonV::Object(pv));
    let required = exec_required_names(schema);
    let chosen = if required.len() == 0 {
        exec_entry_keys(props)
    } else {
        exec_keys_present(&required, props_json)
    };
    let writable = exec_writable_keys(doc, props_json, &chosen);
    let keys = if writable.len() == 0 {
        let all = exec_entry_keys(props);
        let w = exec_writable_keys(doc, props_json, &all);
        exec_sort_texts(&w)
    } else {
        exec_sort_texts(&writable)
    };
    assert(texts_view(keys@) == sampled_keys(doc@, schema@, pv));
    let ghost kv = texts_view(keys@);
    let mut obj: Vec<(Vec<char>, Json)> = Vec::new();
    let mut i: usize = 0;
    while i < keys.len()
        invariant
            i <= keys.len(),
            kv == texts_view(keys@),
            depth <= 16,
            props_json@ == JsonV::Object(pv),
            kw(schema@, "properties"@) == Some(JsonV::Object(pv)),
            kv == sampled_keys(doc@, schema@, pv),
            stack@ == old(stack)@,
            st == texts_view(old(stack)@),
            object_fold(doc@, pv, kv.take(i as int), depth as nat, st) == Ok::<
                Seq<(Seq<char>, JsonV)>,
                ErrorV,
            >(entries_view(obj@)),
        decreases keys.len() - i,
    {
        assert(kv.take(i + 1).drop_last() =~= kv.take(i as int));
        let sample = match get_field_chars(props_json, &keys[i]) {
            Some(p) => exec_sample_schema(doc, p, depth + 1, stack),
            None => {
                let n = Json::Null;
                exec_sample_schema(doc, &n, depth + 1, stack)
            },
        };
        match sample {
            Err(e) => {
                proof {
                    lemma_object_fold_error(doc@, pv, kv, depth as nat, st, i + 1, e@);
                }
                return Err(e);
            },
            Ok(v) => {
                object_insert(&mut obj, copy_chars(&keys[i]), v);
            },
        }
        i += 1;
    }
    assert(kv.take(i as int) =~= kv);
    let ghost rv = texts_view(required@);
    let ghost base = entries_view(obj@);
    let mut j: usize = 0;
    while j < required.len()
        invariant
            j <= required.len(),
            rv == texts_view(required@),
            props_json@ == JsonV::Object(pv),
            kw(schema@, "properties"@) == Some(JsonV::Object(pv)),
            rv == required_names(schema@),
            object_fold(doc@, pv, sampled_keys(doc@, schema@, pv), depth as nat, st) == Ok::<
                Seq<(Seq<char>, JsonV)>,
                ErrorV,
            >(base),
            st == texts_view(old(stack)@),
            depth <= 16,
            entries_view(obj@) == add_missing_required(base, pv, rv.take(j as int)),
        decreases required.len() - j,
    {
        assert(rv.take(j + 1).drop_last() =~= rv.take(j as int));
        if get_field_chars(props_json, &required[j]).is_none() && !has_key(&obj, &required[j]) {
            object_insert(&mut obj, copy_chars(&required[j]), Json::Str(chars_of("string")));
        }
        j += 1;
    }
    assert(rv.take(j as int) =~= rv);
    Ok(Json::Object(obj))
}

fn exec_sample_array(doc: &Json, schema: &Json, depth: usize, stack: &mut Vec<Vec<char>>) -> (r: Result<
    Json,
    Error,
>)
    requires
        depth <= 16,
    ensures
        json_res(r) == sample_array(doc@, schema@, depth as nat, texts_view(old(stack)@)),
        final(stack)@ == old(stack)@,
    decreases 17 - depth, 1int, 0int,
{
    if let Some(0) = exec_kw_u64(schema, "maxItems") {
        return Ok(Json::Array(Vec::new()));
    }
    let count = exec_array_count(schema);
    match get_field(schema, "items") {
        None => Ok(Json::Array(Vec::new())),
        Some(Json::Bool(_)) => Ok(Json::Array(Vec::new())),
        Some(items) => match exec_sample_schema(doc, items, depth + 1, stack) {
            Err(e) => Err(e),
            Ok(item) => {
                let mut out: Vec<Json> = Vec::new();
                let mut k: usize = 0;
                while k < count
                    invariant
                        k <= count,
                        out@.len() == k,
                        forall|x: int| 0 <= x < k ==> (#[trigger] out@[x])@ == item@,
                    decreases count - k,
                {
                    out.push(copy_json(&item));
                    k += 1;
                }
                assert(items_view(out@) =~= Seq::new(count as nat, |x: int| item@)) by {
                    assert forall|x: int| 0 <= x < count implies #[trigger] items_view(out@)[x] == item@ by {
                        assert(items_view(out@)[x] == out@[x]@);
                    }
                }
                Ok(Json::Array(out))
            },
        },
    }
}

// ---------------------------------------------------------------------------
// Media types.

/// The part of a content type before its first `;`.
pub open spec fn before_semicolon(ct: Seq<char>) -> Seq<char> {
    match index_of_from(ct, ';', 0) {
        Some(i) => ct.take(i),
        None => ct,
    }
}

/// A content type without parameters, trimmed and lower-cased.
pub open spec fn base_content_type(ct: Seq<char>) -> Seq<char> {
    lower_text(trim(before_semicolon(ct)))
}

/// Whether a content type is JSON (`application/json` or a `+json` suffix).
pub open spec fn is_json_content_type(ct: Seq<char>) -> bool {
    let base = base_content_type(ct);
    base == "application/json"@ || ends_with(base, "+json"@)
}

/// How much a request body media type is preferred: JSON 0, URL-encoded form 1,
/// text or XML 2, anything else 3.
pub open spec fn media_rank(ct: Seq<char>) -> u8 {
    let base = base_content_type(ct);
    if base == "application/json"@ || ends_with(base, "+json"@) {
        0
    } else if base == "application/x-www-form-urlencoded"@ {
        1
    } else if starts_with(base, "text/"@) || base == "application/xml"@ || ends_with(base, "+xml"@) {
        2
    } else {
        3
    }
}

/// Whether media entry `a` comes before `b`: a lower rank, or the same rank and a
/// smaller name.
pub open spec fn media_before(a: Seq<char>, b: Seq<char>) -> bool {
    media_rank(a) < media_rank(b) || (media_rank(a) == media_rank(b) && text_lt(a, b))
}

/// The index of the preferred media type of a `content` map: the least by rank,
/// then by name (the earliest among equals).
pub open spec fn choose_media(content: Seq<(Seq<char>, JsonV)>) -> Option<int>
    decreases content.len(),
{
    if content.len() == 0 {
        None
    } else {
        let last = content.len() - 1;
        match choose_media(content.drop_last()) {
            None => Some(last),
            Some(best) => if media_before(content[last].0, content[best].0) {
                Some(last)
            } else {
                Some(best)
            },
        }
    }
}

/// The value of an example object, following `$ref`s; `None` when it has no `value`.
pub open spec fn example_value(doc: JsonV, example: JsonV, stack: Seq<Seq<char>>) -> Result<
    Option<JsonV>,
    ErrorV,
>
    decreases ref_measure(doc, example, stack),
{
    match ref_target(example) {
        Some(r) => if stack.contains(r) {
            Err(cyclic(r))
        } else {
            match deref(doc, r, "example"@) {
                Err(e) => Err(e),
                Ok(x) => {
                    proof {
                        lemma_deref_strings(doc, r, "example"@);
                        lemma_ref_measure_decreases(doc, example, stack, x);
                    }
                    example_value(doc, x, stack.push(r))
                },
            }
        },
        None => match kw(example, "value"@) {
            Some(v) => Ok(Some(v)),
            None => Ok(None),
        },
    }
}

/// The first example among `m[k..]` that has a value.
pub open spec fn first_example(doc: JsonV, m: Seq<(Seq<char>, JsonV)>, k: int) -> Result<
    Option<JsonV>,
    ErrorV,
>
    decreases m.len() - k,
{
    if k < 0 || k >= m.len() {
        Ok(None)
    } else {
        match example_value(doc, m[k].1, Seq::empty()) {
            Err(e) => Err(e),
            Ok(Some(v)) => Ok(Some(v)),
            Ok(None) => first_example(doc, m, k + 1),
        }
    }
}

/// The sample of a media type: its `example`, else the first of its `examples`
/// that has a value, else the sample of its `schema`; `None` without any.
pub open spec fn sample_media(doc: JsonV, media: JsonV) -> Result<Option<JsonV>, ErrorV> {
    match present(media, "example"@) {
        Some(x) => Ok(Some(x)),
        None => {
            let from_examples = match present(media, "examples"@) {
                Some(JsonV::Object(m)) => first_example(doc, m, 0),
                _ => Ok(None),
            };
            match from_examples {
                Err(e) => Err(e),
                Ok(Some(v)) => Ok(Some(v)),
                Ok(None) => match present(media, "schema"@) {
                    Some(schema) => match sample_schema(doc, schema, 0, Seq::empty()) {
                        Err(e) => Err(e),
                        Ok(v) => Ok(Some(v)),
                    },
                    None => Ok(None),
                },
            }
        },
    }
}

/// Whether a media type carries an `example` or a non-empty `examples` map.
pub open spec fn media_has_example(media: JsonV) -> bool {
    present(media, "example"@) is Some || match present(media, "examples"@) {
        Some(JsonV::Object(m)) => m.len() > 0,
        _ => false,
    }
}

/// Whether a schema gives a sample: `const`, `example`, `default`, or a
/// non-empty `examples` list.
pub open spec fn schema_has_sample(s: JsonV) -> bool {
    kw(s, "const"@) is Some || kw(s, "example"@) is Some || kw(s, "default"@) is Some || match kw(
        s,
        "examples"@,
    ) {
        Some(JsonV::Array(items)) => items.len() > 0,
        _ => false,
    }
}

/// Whether some media type among `content` entries has an example.
pub open spec fn entries_have_example(m: Seq<(Seq<char>, JsonV)>) -> bool {
    exists|i: int| 0 <= i < m.len() && media_has_example(#[trigger] m[i].1)
}

/// Whether a `content` map has a media type with an example.
pub open spec fn content_has_sample(content: JsonV) -> bool {
    match content {
        JsonV::Object(m) => entries_have_example(m),
        _ => false,
    }
}

/// Whether a parameter carries a sample its author wrote: an `example`, a schema
/// that gives one, or a `content` media type with an example.
pub open spec fn has_explicit_sample(
    schema: Option<JsonV>,
    example: Option<JsonV>,
    content: Option<JsonV>,
) -> bool {
    ||| example is Some
    ||| (schema is Some && schema_has_sample(schema->0))
    ||| (content is Some && content_has_sample(content->0))
}

/// Whether a value is neither an object nor an array.
pub open spec fn is_scalar(v: JsonV) -> bool {
    !(v is Object) && !(v is Array)
}

/// The wire text of a scalar: `null`, `true`/`false`, the number, or the string itself.
pub open spec fn scalar_wire(v: JsonV) -> Seq<char> {
    match v {
        JsonV::Null => "null"@,
        JsonV::Bool(b) => if b {
            "true"@
        } else {
            "false"@
        },
        JsonV::Number(n) => num_text(n),
        JsonV::Str(t) => t,
        _ => compact(v),
    }
}

/// The wire texts of scalars joined with commas.
pub open spec fn join_wire(items: Seq<JsonV>) -> Seq<char>
    decreases items.len(),
{
    if items.len() == 0 {
        Seq::empty()
    } else if items.len() == 1 {
        scalar_wire(items[0])
    } else {
        join_wire(items.drop_last()) + ","@ + scalar_wire(items.last())
    }
}

/// A value as it appears in a URL, header or query string: scalars as
/// `scalar_wire`, arrays of scalars comma-joined, anything else as compact JSON.
pub open spec fn value_to_wire_string(v: JsonV) -> Seq<char> {
    match v {
        JsonV::Array(items) => if forall|i: int| 0 <= i < items.len() ==> is_scalar(#[trigger] items[i]) {
            join_wire(items)
        } else {
            compact(v)
        },
        JsonV::Object(_) => compact(v),
        _ => scalar_wire(v),
    }
}

/// The part of a content type before its first `;`, trimmed and lower-cased.
pub fn exec_base_content_type(ct: &Vec<char>) -> (r: Vec<char>)
    ensures
        r@ == base_content_type(ct@),
{
    let head = match find_char_from(ct, ';', 0) {
        Some(i) => {
            proof {
                lemma_index_of_from(ct@, ';', 0);
            }
            slice_chars(ct, 0, i)
        },
        None => copy_chars(ct),
    };
    assert(head@ =~= before_semicolon(ct@));
    lower_chars(&trim_chars(&head))
}

/// Whether a content type is JSON.
pub fn exec_is_json_content_type(ct: &Vec<char>) -> (r: bool)
    ensures
        r == is_json_content_type(ct@),
{
    let base = exec_base_content_type(ct);
    chars_eq_str(&base, "application/json") || has_suffix(&base, "+json")
}

/// The preference rank of a request body media type.
pub fn exec_media_rank(ct: &Vec<char>) -> (r: u8)
    ensures
        r == media_rank(ct@),
{
    let base = exec_base_content_type(ct);
    if chars_eq_str(&base, "application/json") || has_suffix(&base, "+json") {
        0
    } else if chars_eq_str(&base, "application/x-www-form-urlencoded") {
        1
    } else if has_prefix(&base, "text/") || chars_eq_str(&base, "application/xml") || has_suffix(
        &base,
        "+xml",
    ) {
        2
    } else {
        3
    }
}

proof fn lemma_choose_media_range(content: Seq<(Seq<char>, JsonV)>)
    ensures
        match choose_media(content) {
            Some(i) => 0 <= i < content.len(),
            None => content.len() == 0,
        },
    decreases content.len(),
{
    if content.len() > 0 {
        lemma_choose_media_range(content.drop_last());
    }
}

/// The index of the preferred media type of a `content` map.
pub fn exec_choose_media(content: &Vec<(Vec<char>, Json)>) -> (r: Option<usize>)
    ensures
        match choose_media(entries_view(content@)) {
            Some(i) => r is Some && r->0 as int == i,
            None => r is None,
        },
        r is Some ==> r->0 < content.len(),
{
    let ghost cv = entries_view(content@);
    let mut best: Option<usize> = None;
    let mut i: usize = 0;
    while i < content.len()
        invariant
            i <= content.len(),
            cv == entries_view(content@),
            match choose_media(cv.take(i as int)) {
                Some(b) => best == Some(b as usize) && 0 <= b < i,
                None => best is None && i == 0,
            },
        decreases content.len() - i,
    {
        proof {
            lemma_choose_media_range(cv.take(i as int));
        }
        assert(cv.take(i + 1).drop_last() =~= cv.take(i as int));
        assert(cv.take(i + 1)[i as int] == cv[i as int]);
        assert(cv[i as int].0 == content@[i as int].0@);
        match best {
            None => {
                best = Some(i);
            },
            Some(b) => {
                assert(cv.take(i + 1)[b as int] == cv[b as int]);
                assert(cv[b as int].0 == content@[b as int].0@);
                let ri = exec_media_rank(&content[i].0);
                let rb = exec_media_rank(&content[b].0);
                if ri < rb || (ri == rb && chars_lt(&content[i].0, &content[b].0)) {
                    best = Some(i);
                }
            },
        }
        i += 1;
    }
    assert(cv.take(i as int) =~= cv);
    proof {
        lemma_choose_media_range(cv);
    }
    best
}

fn exec_example_value(doc: &Json, example: &Json, stack: Vec<Vec<char>>) -> (r: Result<
    Option<Json>,
    Error,
>)
    ensures
        match example_value(doc@, example@, texts_view(stack@)) {
            Ok(o) => r is Ok && opt_view(r->Ok_0) == o,
            Err(e) => r is Err && r->Err_0@ == e,
        },
    decreases ref_measure(doc@, example@, texts_view(stack@)),
{
    match exec_ref_target(example) {
        Some(reference) => {
            if stack_has(&stack, &reference) {
                return Err(cyclic_error(&reference));
            }
            let x = match pointer(doc, &reference, "example") {
                Ok(x) => x,
                Err(e) => {
                    return Err(e);
                },
            };
            proof {
                lemma_deref_strings(doc@, reference@, "example"@);
                lemma_ref_measure_decreases(doc@, example@, texts_view(stack@), x@);
            }
            let mut next = stack;
            let ghost before = next@;
            next.push(copy_chars(&reference));
            assert(texts_view(next@) =~= texts_view(before).push(reference@));
            exec_example_value(doc, x, next)
        },
        None => match get_field(example, "value") {
            Some(v) => Ok(Some(copy_json(v))),
            None => Ok(None),
        },
    }
}

/// Samples a media type; see [`sample_media`].
pub fn exec_sample_media(doc: &Json, media: &Json) -> (r: Result<Option<Json>, Error>)
    ensures
        match sample_media(doc@, media@) {
            Ok(o) => r is Ok && opt_view(r->Ok_0) == o,
            Err(e) => r is Err && r->Err_0@ == e,
        },
{
    if let Some(x) = exec_present(media, "example") {
        return Ok(Some(copy_json(x)));
    }
    if let Some(Json::Object(m)) = exec_present(media, "examples") {
        let ghost mv = entries_view(m@);
        let mut k: usize = 0;
        while k < m.len()
            invariant
                k <= m.len(),
                mv == entries_view(m@),
                present(media@, "example"@) is None,
                present(media@, "examples"@) == Some(JsonV::Object(mv)),
                first_example(doc@, mv, 0) == first_example(doc@, mv, k as int),
            decreases m.len() - k,
        {
            assert(mv[k as int].1 == m@[k as int].1@);
            let empty: Vec<Vec<char>> = Vec::new();
            assert(texts_view(empty@) =~= Seq::<Seq<char>>::empty());
            match exec_example_value(doc, &m[k].1, empty) {
                Err(e) => {
                    return Err(e);
                },
                Ok(Some(v)) => {
                    return Ok(Some(v));
                },
                Ok(None) => {},
            }
            k += 1;
        }
    }
    match exec_present(media, "schema") {
        Some(schema) => {
            let mut stack: Vec<Vec<char>> = Vec::new();
            assert(texts_view(stack@) =~= Seq::<Seq<char>>::empty());
            match exec_sample_schema(doc, schema, 0, &mut stack) {
                Err(e) => Err(e),
                Ok(v) => Ok(Some(v)),
            }
        },
        None => Ok(None),
    }
}

fn exec_media_has_example(media: &Json) -> (r: bool)
    ensures
        r == media_has_example(media@),
{
    if exec_present(media, "example").is_some() {
        return true;
    }
    match exec_present(media, "examples") {
        Some(Json::Object(m)) => m.len() > 0,
        _ => false,
    }
}

/// Whether a parameter carries a sample its author wrote.
pub fn exec_has_explicit_sample(
    schema: Option<&Json>,
    example: Option<&Json>,
    content: Option<&Json>,
) -> (r: bool)
    ensures
        r == has_explicit_sample(
            match schema {
                Some(s) => Some(s@),
                None => None,
            },
            match example {
                Some(x) => Some(x@),
                None => None,
            },
            match content {
                Some(c) => Some(c@),
                None => None,
            },
        ),
{
    if example.is_some() {
        return true;
    }
    if let Some(s) = schema {
        if get_field(s, "const").is_some() || get_field(s, "example").is_some() || get_field(
            s,
            "default",
        ).is_some() {
            return true;
        }
        if let Some(Json::Array(items)) = get_field(s, "examples") {
            if items.len() > 0 {
                return true;
            }
        }
    }
    match content {
        Some(Json::Object(m)) => {
            let r = any_media_example(m);
            assert(content.unwrap()@ == JsonV::Object(entries_view(m@)));
            r
        },
        _ => false,
    }
}

fn any_media_example(m: &Vec<(Vec<char>, Json)>) -> (r: bool)
    ensures
        r == content_has_sample(JsonV::Object(entries_view(m@))),
{
    let ghost mv = entries_view(m@);
    let mut i: usize = 0;
    while i < m.len()
        invariant
            i <= m.len(),
            mv == entries_view(m@),
            forall|j: int| 0 <= j < i ==> !media_has_example(#[trigger] mv[j].1),
        decreases m.len() - i,
    {
        assert(mv[i as int].1 == m@[i as int].1@);
        if exec_media_has_example(&m[i].1) {
            assert(media_has_example(mv[i as int].1));
            return true;
        }
        i += 1;
    }
    false
}

fn exec_scalar_wire(v: &Json) -> (r: Vec<char>)
    ensures
        r@ == scalar_wire(v@),
{
    match v {
        Json::Null => chars_of("null"),
        Json::Bool(b) => if *b {
            chars_of("true")
        } else {
            chars_of("false")
        },
        Json::Number(n) => number_text(n),
        Json::Str(t) => copy_chars(t),
        _ => to_compact(v),
    }
}

/// A value as it appears in a URL, header or query string.
pub fn exec_value_to_wire_string(v: &Json) -> (r: Vec<char>)
    ensures
        r@ == value_to_wire_string(v@),
{
    match v {
        Json::Array(items) => {
            let ghost iv = items_view(items@);
            let mut i: usize = 0;
            let mut out: Vec<char> = Vec::new();
            while i < items.len()
                invariant
                    i <= items.len(),
                    iv == items_view(items@),
                    v@ == JsonV::Array(iv),
                    forall|j: int| 0 <= j < i ==> is_scalar(#[trigger] iv[j]),
                    out@ == join_wire(iv.take(i as int)),
                decreases items.len() - i,
            {
                assert(iv[i as int] == items@[i as int]@);
                assert(iv.take(i + 1).drop_last() =~= iv.take(i as int));
                match &items[i] {
                    Json::Object(_) => {
                        return to_compact(v);
                    },
                    Json::Array(_) => {
                        return to_compact(v);
                    },
                    _ => {},
                }
                if i > 0 {
                    push_str(&mut out, ",");
                }
                let w = exec_scalar_wire(&items[i]);
                push_all(&mut out, &w);
                i += 1;
                assert(out@ =~= join_wire(iv.take(i as int)));
            }
            assert(iv.take(i as int) =~= iv);
            out
        },
        Json::Object(_) => to_compact(v),
        _ => exec_scalar_wire(v),
    }
}

} // verus!
