//! Checks that a JSON value has the shape of the OpenAPI subset that is read,
//! with the messages `serde`'s derived deserializers give for the first problem.
//!
//! Fields are visited in key order, the order in which an object holds them;
//! unknown fields are ignored; a missing required field is reported after the
//! present ones were checked, in declaration order.
use vstd::prelude::*;

use crate::json::{items_view, entries_view, Json, JsonV, NumV, Number};
use crate::json_ops::{entries_get, get_field};
use crate::text::{chars_of, decimal, i64_text, int_text, push_all, push_str, u64_text};

verus! {

broadcast use {vstd::std_specs::vec::group_vec_axioms, crate::json::group_json_view};

/// The `Debug` text of a string (`format!("{:?}", s)`).
pub uninterp spec fn debug_str(s: Seq<char>) -> Seq<char>;

/// The `Display` text of the float that `serde_json` prints as `json_text`.
pub uninterp spec fn float_display(json_text: Seq<char>) -> Seq<char>;

/// `format!("{:?}", s)` for a string: the quoted, escaped form.
#[verifier::external_body]
fn debug_string(s: &Vec<char>) -> (r: Vec<char>)
    ensures
        r@ == debug_str(s@),
{
    format!("{:?}", s.iter().collect::<String>()).chars().collect()
}

/// The `Display` text (`to_string()`) of the `f64` that a `serde_json` float text
/// denotes (read with `str::parse`, then held as a `serde_json::Number` and read
/// back with `as_f64`), such as `1` for `1.0` or `100000000000000000000` for
/// `1e+20`.
#[verifier::external_body]
pub(crate) fn display_float(json_text: &Vec<char>) -> (r: Vec<char>)
    ensures
        r@ == float_display(json_text@),
{
    json_text.iter().collect::<String>().parse().ok().and_then(serde_json::Number::from_f64).and_then(
        |n| n.as_f64(),
    ).map(|f| f.to_string()).unwrap_or_default().chars().collect()
}

/// How `serde` describes a JSON value it did not expect.
pub open spec fn unexpected(v: JsonV) -> Seq<char> {
    match v {
        JsonV::Null => "null"@,
        JsonV::Bool(b) => "boolean `"@ + (if b {
            "true"@
        } else {
            "false"@
        }) + "`"@,
        JsonV::Number(NumV::PosInt(u)) => "integer `"@ + decimal(u as nat) + "`"@,
        JsonV::Number(NumV::NegInt(i)) => "integer `"@ + int_text(i as int) + "`"@,
        JsonV::Number(NumV::Float(t)) => "floating point `"@ + t + "`"@,
        JsonV::Str(s) => "string "@ + debug_str(s),
        JsonV::Array(_) => "sequence"@,
        JsonV::Object(_) => "map"@,
    }
}

/// `invalid type: <unexpected>, expected <what>`.
pub open spec fn invalid(v: JsonV, expected: Seq<char>) -> Seq<char> {
    "invalid type: "@ + unexpected(v) + ", expected "@ + expected
}

/// `missing field `<name>``.
pub open spec fn missing(name: Seq<char>) -> Seq<char> {
    "missing field `"@ + name + "`"@
}

/// The message of an untagged `RefOr` that matched neither form.
pub open spec fn untagged_msg() -> Seq<char> {
    "data did not match any variant of untagged enum RefOr"@
}

/// The first error among checks, in order.
pub open spec fn first(a: Option<Seq<char>>, b: Option<Seq<char>>) -> Option<Seq<char>> {
    if a is Some {
        a
    } else {
        b
    }
}

/// The first error of a check over the items of an array, in order.
pub open spec fn first_err(s: Seq<JsonV>, f: spec_fn(JsonV) -> Option<Seq<char>>) -> Option<
    Seq<char>,
>
    decreases s.len(),
{
    if s.len() == 0 {
        None
    } else {
        first(first_err(s.drop_last(), f), f(s.last()))
    }
}

/// The first error of a check over the values of an object, in key order.
pub open spec fn first_err_entries(
    m: Seq<(Seq<char>, JsonV)>,
    f: spec_fn(JsonV) -> Option<Seq<char>>,
) -> Option<Seq<char>>
    decreases m.len(),
{
    if m.len() == 0 {
        None
    } else {
        first(first_err_entries(m.drop_last(), f), f(m.last().1))
    }
}

/// A check applied to a field when it is present.
pub open spec fn field_check(
    m: Seq<(Seq<char>, JsonV)>,
    name: Seq<char>,
    f: spec_fn(JsonV) -> Option<Seq<char>>,
) -> Option<Seq<char>> {
    match entries_get(m, name) {
        Some(x) => f(x),
        None => None,
    }
}

/// The error for a required field that is absent.
pub open spec fn required(m: Seq<(Seq<char>, JsonV)>, name: Seq<char>) -> Option<Seq<char>> {
    if entries_get(m, name) is None {
        Some(missing(name))
    } else {
        None
    }
}

/// `String`.
pub open spec fn check_string(v: JsonV) -> Option<Seq<char>> {
    if v is Str {
        None
    } else {
        Some(invalid(v, "a string"@))
    }
}

/// `bool`.
pub open spec fn check_bool(v: JsonV) -> Option<Seq<char>> {
    if v is Bool {
        None
    } else {
        Some(invalid(v, "a boolean"@))
    }
}

/// `Option<String>`.
pub open spec fn check_opt_string(v: JsonV) -> Option<Seq<char>> {
    if v is Null {
        None
    } else {
        check_string(v)
    }
}

/// A string or a number (`openapi` and `info.version`).
pub open spec fn check_string_or_number(v: JsonV) -> Option<Seq<char>> {
    if v is Str || v is Number {
        None
    } else {
        Some(invalid(v, "a string or number"@))
    }
}

/// `Vec<String>`.
pub open spec fn check_strings(v: JsonV) -> Option<Seq<char>> {
    match v {
        JsonV::Array(items) => first_err(items, |x: JsonV| check_string(x)),
        _ => Some(invalid(v, "a sequence"@)),
    }
}

/// `Option<BTreeMap<String, Value>>` (a media type's `examples`).
pub open spec fn check_opt_any_map(v: JsonV) -> Option<Seq<char>> {
    if v is Null || v is Object {
        None
    } else {
        Some(invalid(v, "a map"@))
    }
}

/// An OpenAPI media type object.
pub open spec fn check_media(v: JsonV) -> Option<Seq<char>> {
    match v {
        JsonV::Object(m) => field_check(m, "examples"@, |x: JsonV| check_opt_any_map(x)),
        _ => Some(invalid(v, "struct MediaType"@)),
    }
}

/// A map of media types.
pub open spec fn check_media_map(v: JsonV) -> Option<Seq<char>> {
    match v {
        JsonV::Object(m) => first_err_entries(m, |x: JsonV| check_media(x)),
        _ => Some(invalid(v, "a map"@)),
    }
}

/// An optional map of media types.
pub open spec fn check_opt_media_map(v: JsonV) -> Option<Seq<char>> {
    if v is Null {
        None
    } else {
        check_media_map(v)
    }
}

/// An OpenAPI parameter object.
pub open spec fn check_parameter(v: JsonV) -> Option<Seq<char>> {
    match v {
        JsonV::Object(m) => first(
            field_check(m, "content"@, |x: JsonV| check_opt_media_map(x)),
            first(
                field_check(m, "in"@, |x: JsonV| check_string(x)),
                first(
                    field_check(m, "name"@, |x: JsonV| check_string(x)),
                    first(
                        field_check(m, "required"@, |x: JsonV| check_bool(x)),
                        first(required(m, "name"@), required(m, "in"@)),
                    ),
                ),
            ),
        ),
        _ => Some(invalid(v, "struct Parameter"@)),
    }
}

/// An OpenAPI request body object.
pub open spec fn check_request_body(v: JsonV) -> Option<Seq<char>> {
    match v {
        JsonV::Object(m) => first(
            field_check(m, "content"@, |x: JsonV| check_media_map(x)),
            field_check(m, "required"@, |x: JsonV| check_bool(x)),
        ),
        _ => Some(invalid(v, "struct RequestBody"@)),
    }
}

/// An OpenAPI response object.
pub open spec fn check_response(v: JsonV) -> Option<Seq<char>> {
    match v {
        JsonV::Object(m) => field_check(m, "content"@, |x: JsonV| check_opt_media_map(x)),
        _ => Some(invalid(v, "struct Response"@)),
    }
}

/// The target of a `$ref` object: an object whose `$ref` is a string.
pub open spec fn ref_target(v: JsonV) -> Option<Seq<char>> {
    match v {
        JsonV::Object(m) => match entries_get(m, "$ref"@) {
            Some(JsonV::Str(r)) => Some(r),
            _ => None,
        },
        _ => None,
    }
}

/// Which object kind a `RefOr` wraps.
pub enum Kind {
    Parameter,
    RequestBody,
    Response,
}

/// The check for an object of the given kind.
pub open spec fn check_kind(k: Kind, v: JsonV) -> Option<Seq<char>> {
    match k {
        Kind::Parameter => check_parameter(v),
        Kind::RequestBody => check_request_body(v),
        Kind::Response => check_response(v),
    }
}

/// An untagged `RefOr`: a `$ref` object, or else the object itself.
pub open spec fn check_ref_or(k: Kind, v: JsonV) -> Option<Seq<char>> {
    if ref_target(v) is Some || check_kind(k, v) is None {
        None
    } else {
        Some(untagged_msg())
    }
}

/// A list of `RefOr`s.
pub open spec fn check_ref_list(k: Kind, v: JsonV) -> Option<Seq<char>> {
    match v {
        JsonV::Array(items) => first_err(items, |x: JsonV| check_ref_or(k, x)),
        _ => Some(invalid(v, "a sequence"@)),
    }
}

/// An optional `RefOr`.
pub open spec fn check_opt_ref_or(k: Kind, v: JsonV) -> Option<Seq<char>> {
    if v is Null {
        None
    } else {
        check_ref_or(k, v)
    }
}

/// A map of `RefOr`s.
pub open spec fn check_ref_map(k: Kind, v: JsonV) -> Option<Seq<char>> {
    match v {
        JsonV::Object(m) => first_err_entries(m, |x: JsonV| check_ref_or(k, x)),
        _ => Some(invalid(v, "a map"@)),
    }
}

/// An OpenAPI operation object.
pub open spec fn check_operation(v: JsonV) -> Option<Seq<char>> {
    match v {
        JsonV::Object(m) => first(
            field_check(m, "deprecated"@, |x: JsonV| check_bool(x)),
            first(
                field_check(m, "description"@, |x: JsonV| check_opt_string(x)),
                first(
                    field_check(m, "operationId"@, |x: JsonV| check_opt_string(x)),
                    first(
                        field_check(m, "parameters"@, |x: JsonV| check_ref_list(Kind::Parameter, x)),
                        first(
                            field_check(
                                m,
                                "requestBody"@,
                                |x: JsonV| check_opt_ref_or(Kind::RequestBody, x),
                            ),
                            first(
                                field_check(
                                    m,
                                    "responses"@,
                                    |x: JsonV| check_ref_map(Kind::Response, x),
                                ),
                                first(
                                    field_check(m, "summary"@, |x: JsonV| check_opt_string(x)),
                                    field_check(m, "tags"@, |x: JsonV| check_strings(x)),
                                ),
                            ),
                        ),
                    ),
                ),
            ),
        ),
        _ => Some(invalid(v, "struct RawOperation"@)),
    }
}

/// An optional operation.
pub open spec fn check_opt_operation(v: JsonV) -> Option<Seq<char>> {
    if v is Null {
        None
    } else {
        check_operation(v)
    }
}

/// An OpenAPI path item object.
pub open spec fn check_path_item(v: JsonV) -> Option<Seq<char>> {
    match v {
        JsonV::Object(m) => first(
            field_check(m, "$ref"@, |x: JsonV| check_opt_string(x)),
            first(
                field_check(m, "delete"@, |x: JsonV| check_opt_operation(x)),
                first(
                    field_check(m, "get"@, |x: JsonV| check_opt_operation(x)),
                    first(
                        field_check(m, "head"@, |x: JsonV| check_opt_operation(x)),
                        first(
                            field_check(m, "options"@, |x: JsonV| check_opt_operation(x)),
                            first(
                                field_check(
                                    m,
                                    "parameters"@,
                                    |x: JsonV| check_ref_list(Kind::Parameter, x),
                                ),
                                first(
                                    field_check(m, "patch"@, |x: JsonV| check_opt_operation(x)),
                                    first(
                                        field_check(m, "post"@, |x: JsonV| check_opt_operation(x)),
                                        first(
                                            field_check(
                                                m,
                                                "put"@,
                                                |x: JsonV| check_opt_operation(x),
                                            ),
                                            field_check(
                                                m,
                                                "trace"@,
                                                |x: JsonV| check_opt_operation(x),
                                            ),
                                        ),
                                    ),
                                ),
                            ),
                        ),
                    ),
                ),
            ),
        ),
        _ => Some(invalid(v, "struct PathItem"@)),
    }
}

/// An OpenAPI server object.
pub open spec fn check_server(v: JsonV) -> Option<Seq<char>> {
    match v {
        JsonV::Object(m) => first(
            field_check(m, "url"@, |x: JsonV| check_string(x)),
            required(m, "url"@),
        ),
        _ => Some(invalid(v, "struct Server"@)),
    }
}

/// The `servers` list.
pub open spec fn check_servers(v: JsonV) -> Option<Seq<char>> {
    match v {
        JsonV::Array(items) => first_err(items, |x: JsonV| check_server(x)),
        _ => Some(invalid(v, "a sequence"@)),
    }
}

/// The `info` object.
pub open spec fn check_info(v: JsonV) -> Option<Seq<char>> {
    match v {
        JsonV::Object(m) => first(
            field_check(m, "title"@, |x: JsonV| check_string(x)),
            first(
                field_check(m, "version"@, |x: JsonV| check_string_or_number(x)),
                first(required(m, "title"@), required(m, "version"@)),
            ),
        ),
        _ => Some(invalid(v, "struct Info"@)),
    }
}

/// The `paths` map.
pub open spec fn check_paths(v: JsonV) -> Option<Seq<char>> {
    match v {
        JsonV::Object(m) => first_err_entries(m, |x: JsonV| check_path_item(x)),
        _ => Some(invalid(v, "a map"@)),
    }
}

/// The whole document.
pub open spec fn check_document(v: JsonV) -> Option<Seq<char>> {
    match v {
        JsonV::Object(m) => first(
            field_check(m, "info"@, |x: JsonV| check_info(x)),
            first(
                field_check(m, "openapi"@, |x: JsonV| check_string_or_number(x)),
                first(
                    field_check(m, "paths"@, |x: JsonV| check_paths(x)),
                    first(
                        field_check(m, "servers"@, |x: JsonV| check_servers(x)),
                        first(
                            required(m, "openapi"@),
                            first(required(m, "info"@), required(m, "paths"@)),
                        ),
                    ),
                ),
            ),
        ),
        _ => Some(invalid(v, "struct Spec"@)),
    }
}

// ---------------------------------------------------------------------------
// Executable checks.

/// The view of an optional message.
pub open spec fn msg_view(o: Option<Vec<char>>) -> Option<Seq<char>> {
    match o {
        Some(m) => Some(m@),
        None => None,
    }
}

/// The text `serde` uses for an unexpected value.
pub fn unexpected_text(v: &Json) -> (r: Vec<char>)
    ensures
        r@ == unexpected(v@),
{
    let mut out: Vec<char> = Vec::new();
    match v {
        Json::Null => push_str(&mut out, "null"),
        Json::Bool(b) => {
            push_str(&mut out, "boolean `");
            if *b {
                push_str(&mut out, "true");
            } else {
                push_str(&mut out, "false");
            }
            push_str(&mut out, "`");
        },
        Json::Number(Number::PosInt(u)) => {
            push_str(&mut out, "integer `");
            let t = u64_text(*u);
            push_all(&mut out, &t);
            push_str(&mut out, "`");
        },
        Json::Number(Number::NegInt(i)) => {
            push_str(&mut out, "integer `");
            let t = i64_text(*i);
            push_all(&mut out, &t);
            push_str(&mut out, "`");
        },
        Json::Number(Number::Float(t)) => {
            push_str(&mut out, "floating point `");
            push_all(&mut out, t);
            push_str(&mut out, "`");
        },
        Json::Str(s) => {
            push_str(&mut out, "string ");
            let d = debug_string(s);
            push_all(&mut out, &d);
        },
        Json::Array(_) => push_str(&mut out, "sequence"),
        Json::Object(_) => push_str(&mut out, "map"),
    }
    assert(out@ =~= unexpected(v@));
    out
}

/// The `invalid type` message.
pub fn invalid_text(v: &Json, expected: &str) -> (r: Vec<char>)
    ensures
        r@ == invalid(v@, expected@),
{
    let mut out = chars_of("invalid type: ");
    let u = unexpected_text(v);
    push_all(&mut out, &u);
    push_str(&mut out, ", expected ");
    push_str(&mut out, expected);
    out
}

fn missing_text(name: &str) -> (r: Vec<char>)
    ensures
        r@ == missing(name@),
{
    let mut out = chars_of("missing field `");
    push_str(&mut out, name);
    push_str(&mut out, "`");
    out
}

fn exec_check_string(v: &Json) -> (r: Option<Vec<char>>)
    ensures
        msg_view(r) == check_string(v@),
{
    match v {
        Json::Str(_) => None,
        _ => Some(invalid_text(v, "a string")),
    }
}

fn exec_check_bool(v: &Json) -> (r: Option<Vec<char>>)
    ensures
        msg_view(r) == check_bool(v@),
{
    match v {
        Json::Bool(_) => None,
        _ => Some(invalid_text(v, "a boolean")),
    }
}

fn exec_check_opt_string(v: &Json) -> (r: Option<Vec<char>>)
    ensures
        msg_view(r) == check_opt_string(v@),
{
    match v {
        Json::Null => None,
        _ => exec_check_string(v),
    }
}

fn exec_check_string_or_number(v: &Json) -> (r: Option<Vec<char>>)
    ensures
        msg_view(r) == check_string_or_number(v@),
{
    match v {
        Json::Str(_) => None,
        Json::Number(_) => None,
        _ => Some(invalid_text(v, "a string or number")),
    }
}

fn exec_check_strings(v: &Json) -> (r: Option<Vec<char>>)
    ensures
        msg_view(r) == check_strings(v@),
{
    match v {
        Json::Array(items) => {
            let ghost s = items_view(items@);
            let ghost f = |x: JsonV| check_string(x);
            let mut i: usize = 0;
            while i < items.len()
                invariant
                    f == (|x: JsonV| check_string(x)),
                    i <= items.len(),
                    s == items_view(items@),
                    v@ == JsonV::Array(s),
                    first_err(s.subrange(0, i as int), f) is None,
                decreases items.len() - i,
            {
                assert(s.subrange(0, i + 1).drop_last() =~= s.subrange(0, i as int));
                let e = exec_check_string(&items[i]);
                assert(first_err(s.subrange(0, i + 1), f) == first(first_err(s.subrange(0, i as int), f), f(s[i as int])));
                if e.is_some() {
                    proof {
                        lemma_first_err_prefix(s, f, i as int + 1);
                    }
                    return e;
                }
                i += 1;
            }
            assert(s.subrange(0, i as int) =~= s);
            None
        },
        _ => Some(invalid_text(v, "a sequence")),
    }
}

/// Once a prefix of a list has an error, the whole list has that error.
pub proof fn lemma_first_err_prefix(s: Seq<JsonV>, f: spec_fn(JsonV) -> Option<Seq<char>>, n: int)
    requires
        0 <= n <= s.len(),
        first_err(s.subrange(0, n), f) is Some,
    ensures
        first_err(s, f) == first_err(s.subrange(0, n), f),
    decreases s.len() - n,
{
    if n < s.len() {
        assert(s.subrange(0, n + 1).drop_last() =~= s.subrange(0, n));
        lemma_first_err_prefix(s, f, n + 1);
    } else {
        assert(s.subrange(0, n) =~= s);
    }
}

/// Once a prefix of an entry list has an error, the whole list has that error.
pub proof fn lemma_first_err_entries_prefix(
    m: Seq<(Seq<char>, JsonV)>,
    f: spec_fn(JsonV) -> Option<Seq<char>>,
    n: int,
)
    requires
        0 <= n <= m.len(),
        first_err_entries(m.subrange(0, n), f) is Some,
    ensures
        first_err_entries(m, f) == first_err_entries(m.subrange(0, n), f),
    decreases m.len() - n,
{
    if n < m.len() {
        assert(m.subrange(0, n + 1).drop_last() =~= m.subrange(0, n));
        lemma_first_err_entries_prefix(m, f, n + 1);
    } else {
        assert(m.subrange(0, n) =~= m);
    }
}

fn exec_check_opt_any_map(v: &Json) -> (r: Option<Vec<char>>)
    ensures
        msg_view(r) == check_opt_any_map(v@),
{
    match v {
        Json::Null => None,
        Json::Object(_) => None,
        _ => Some(invalid_text(v, "a map")),
    }
}

fn exec_check_media(v: &Json) -> (r: Option<Vec<char>>)
    ensures
        msg_view(r) == check_media(v@),
{
    match v {
        Json::Object(_) => match get_field(v, "examples") {
            Some(x) => exec_check_opt_any_map(x),
            None => None,
        },
        _ => Some(invalid_text(v, "struct MediaType")),
    }
}

fn exec_check_media_map(v: &Json) -> (r: Option<Vec<char>>)
    ensures
        msg_view(r) == check_media_map(v@),
{
    match v {
        Json::Object(entries) => {
            let ghost m = entries_view(entries@);
            let ghost f = |x: JsonV| check_media(x);
            let mut i: usize = 0;
            while i < entries.len()
                invariant
                    f == (|x: JsonV| check_media(x)),
                    i <= entries.len(),
                    m == entries_view(entries@),
                    v@ == JsonV::Object(m),
                    first_err_entries(m.subrange(0, i as int), f) is None,
                decreases entries.len() - i,
            {
                assert(m.subrange(0, i + 1).drop_last() =~= m.subrange(0, i as int));
                let e = exec_check_media(&entries[i].1);
                assert(first_err_entries(m.subrange(0, i + 1), f) == first(first_err_entries(m.subrange(0, i as int), f), f(m[i as int].1)));
                if e.is_some() {
                    proof {
                        lemma_first_err_entries_prefix(m, f, i as int + 1);
                    }
                    return e;
                }
                i += 1;
            }
            assert(m.subrange(0, i as int) =~= m);
            None
        },
        _ => Some(invalid_text(v, "a map")),
    }
}

fn exec_check_opt_media_map(v: &Json) -> (r: Option<Vec<char>>)
    ensures
        msg_view(r) == check_opt_media_map(v@),
{
    match v {
        Json::Null => None,
        _ => exec_check_media_map(v),
    }
}

fn exec_check_parameter(v: &Json) -> (r: Option<Vec<char>>)
    ensures
        msg_view(r) == check_parameter(v@),
{
    match v {
        Json::Object(_) => {
            if let Some(x) = get_field(v, "content") {
                let e = exec_check_opt_media_map(x);
                if e.is_some() {
                    return e;
                }
            }
            if let Some(x) = get_field(v, "in") {
                let e = exec_check_string(x);
                if e.is_some() {
                    return e;
                }
            }
            let name = get_field(v, "name");
            if let Some(x) = name {
                let e = exec_check_string(x);
                if e.is_some() {
                    return e;
                }
            }
            if let Some(x) = get_field(v, "required") {
                let e = exec_check_bool(x);
                if e.is_some() {
                    return e;
                }
            }
            if name.is_none() {
                return Some(missing_text("name"));
            }
            if get_field(v, "in").is_none() {
                return Some(missing_text("in"));
            }
            None
        },
        _ => Some(invalid_text(v, "struct Parameter")),
    }
}

fn exec_check_request_body(v: &Json) -> (r: Option<Vec<char>>)
    ensures
        msg_view(r) == check_request_body(v@),
{
    match v {
        Json::Object(_) => {
            if let Some(x) = get_field(v, "content") {
                let e = exec_check_media_map(x);
                if e.is_some() {
                    return e;
                }
            }
            if let Some(x) = get_field(v, "required") {
                let e = exec_check_bool(x);
                if e.is_some() {
                    return e;
                }
            }
            None
        },
        _ => Some(invalid_text(v, "struct RequestBody")),
    }
}

fn exec_check_response(v: &Json) -> (r: Option<Vec<char>>)
    ensures
        msg_view(r) == check_response(v@),
{
    match v {
        Json::Object(_) => match get_field(v, "content") {
            Some(x) => exec_check_opt_media_map(x),
            None => None,
        },
        _ => Some(invalid_text(v, "struct Response")),
    }
}

/// The string that a `$ref` object points at.
pub fn exec_ref_target(v: &Json) -> (r: Option<Vec<char>>)
    ensures
        msg_view(r) == ref_target(v@),
{
    match v {
        Json::Object(_) => match get_field(v, "$ref") {
            Some(Json::Str(s)) => Some(crate::text::copy_chars(s)),
            _ => None,
        },
        _ => None,
    }
}

/// The check for a `RefOr` of the given kind.
pub fn exec_check_ref_or(k: Kind, v: &Json) -> (r: Option<Vec<char>>)
    ensures
        msg_view(r) == check_ref_or(k, v@),
{
    if exec_ref_target(v).is_some() {
        return None;
    }
    let e = match k {
        Kind::Parameter => exec_check_parameter(v),
        Kind::RequestBody => exec_check_request_body(v),
        Kind::Response => exec_check_response(v),
    };
    if e.is_none() {
        None
    } else {
        Some(chars_of("data did not match any variant of untagged enum RefOr"))
    }
}

fn copy_kind(k: &Kind) -> (r: Kind)
    ensures
        r == *k,
{
    match k {
        Kind::Parameter => Kind::Parameter,
        Kind::RequestBody => Kind::RequestBody,
        Kind::Response => Kind::Response,
    }
}

fn exec_check_ref_list(k: Kind, v: &Json) -> (r: Option<Vec<char>>)
    ensures
        msg_view(r) == check_ref_list(k, v@),
{
    match v {
        Json::Array(items) => {
            let ghost s = items_view(items@);
            let ghost f = |x: JsonV| check_ref_or(k, x);
            let mut i: usize = 0;
            while i < items.len()
                invariant
                    f == (|x: JsonV| check_ref_or(k, x)),
                    i <= items.len(),
                    s == items_view(items@),
                    v@ == JsonV::Array(s),
                    f == (|x: JsonV| check_ref_or(k, x)),
                    first_err(s.subrange(0, i as int), f) is None,
                decreases items.len() - i,
            {
                assert(s.subrange(0, i + 1).drop_last() =~= s.subrange(0, i as int));
                let e = exec_check_ref_or(copy_kind(&k), &items[i]);
                assert(first_err(s.subrange(0, i + 1), f) == first(first_err(s.subrange(0, i as int), f), f(s[i as int])));
                if e.is_some() {
                    proof {
                        lemma_first_err_prefix(s, f, i as int + 1);
                    }
                    return e;
                }
                i += 1;
            }
            assert(s.subrange(0, i as int) =~= s);
            None
        },
        _ => Some(invalid_text(v, "a sequence")),
    }
}

fn exec_check_ref_map(k: Kind, v: &Json) -> (r: Option<Vec<char>>)
    ensures
        msg_view(r) == check_ref_map(k, v@),
{
    match v {
        Json::Object(entries) => {
            let ghost m = entries_view(entries@);
            let ghost f = |x: JsonV| check_ref_or(k, x);
            let mut i: usize = 0;
            while i < entries.len()
                invariant
                    f == (|x: JsonV| check_ref_or(k, x)),
                    i <= entries.len(),
                    m == entries_view(entries@),
                    v@ == JsonV::Object(m),
                    f == (|x: JsonV| check_ref_or(k, x)),
                    first_err_entries(m.subrange(0, i as int), f) is None,
                decreases entries.len() - i,
            {
                assert(m.subrange(0, i + 1).drop_last() =~= m.subrange(0, i as int));
                let e = exec_check_ref_or(copy_kind(&k), &entries[i].1);
                assert(first_err_entries(m.subrange(0, i + 1), f) == first(first_err_entries(m.subrange(0, i as int), f), f(m[i as int].1)));
                if e.is_some() {
                    proof {
                        lemma_first_err_entries_prefix(m, f, i as int + 1);
                    }
                    return e;
                }
                i += 1;
            }
            assert(m.subrange(0, i as int) =~= m);
            None
        },
        _ => Some(invalid_text(v, "a map")),
    }
}

fn exec_check_operation(v: &Json) -> (r: Option<Vec<char>>)
    ensures
        msg_view(r) == check_operation(v@),
{
    match v {
        Json::Object(_) => {
            if let Some(x) = get_field(v, "deprecated") {
                let e = exec_check_bool(x);
                if e.is_some() {
                    return e;
                }
            }
            if let Some(x) = get_field(v, "description") {
                let e = exec_check_opt_string(x);
                if e.is_some() {
                    return e;
                }
            }
            if let Some(x) = get_field(v, "operationId") {
                let e = exec_check_opt_string(x);
                if e.is_some() {
                    return e;
                }
            }
            if let Some(x) = get_field(v, "parameters") {
                let e = exec_check_ref_list(Kind::Parameter, x);
                if e.is_some() {
                    return e;
                }
            }
            if let Some(x) = get_field(v, "requestBody") {
                let e = match x {
                    Json::Null => None,
                    _ => exec_check_ref_or(Kind::RequestBody, x),
                };
                if e.is_some() {
                    return e;
                }
            }
            if let Some(x) = get_field(v, "responses") {
                let e = exec_check_ref_map(Kind::Response, x);
                if e.is_some() {
                    return e;
                }
            }
            if let Some(x) = get_field(v, "summary") {
                let e = exec_check_opt_string(x);
                if e.is_some() {
                    return e;
                }
            }
            if let Some(x) = get_field(v, "tags") {
                let e = exec_check_strings(x);
                if e.is_some() {
                    return e;
                }
            }
            None
        },
        _ => Some(invalid_text(v, "struct RawOperation")),
    }
}

fn exec_check_opt_operation(v: &Json) -> (r: Option<Vec<char>>)
    ensures
        msg_view(r) == check_opt_operation(v@),
{
    match v {
        Json::Null => None,
        _ => exec_check_operation(v),
    }
}

fn exec_check_path_item(v: &Json) -> (r: Option<Vec<char>>)
    ensures
        msg_view(r) == check_path_item(v@),
{
    match v {
        Json::Object(_) => {
            if let Some(x) = get_field(v, "$ref") {
                let e = exec_check_opt_string(x);
                if e.is_some() {
                    return e;
                }
            }
            if let Some(x) = get_field(v, "delete") {
                let e = exec_check_opt_operation(x);
                if e.is_some() {
                    return e;
                }
            }
            if let Some(x) = get_field(v, "get") {
                let e = exec_check_opt_operation(x);
                if e.is_some() {
                    return e;
                }
            }
            if let Some(x) = get_field(v, "head") {
                let e = exec_check_opt_operation(x);
                if e.is_some() {
                    return e;
                }
            }
            if let Some(x) = get_field(v, "options") {
                let e = exec_check_opt_operation(x);
                if e.is_some() {
                    return e;
                }
            }
            if let Some(x) = get_field(v, "parameters") {
                let e = exec_check_ref_list(Kind::Parameter, x);
                if e.is_some() {
                    return e;
                }
            }
            if let Some(x) = get_field(v, "patch") {
                let e = exec_check_opt_operation(x);
                if e.is_some() {
                    return e;
                }
            }
            if let Some(x) = get_field(v, "post") {
                let e = exec_check_opt_operation(x);
                if e.is_some() {
                    return e;
                }
            }
            if let Some(x) = get_field(v, "put") {
                let e = exec_check_opt_operation(x);
                if e.is_some() {
                    return e;
                }
            }
            if let Some(x) = get_field(v, "trace") {
                let e = exec_check_opt_operation(x);
                if e.is_some() {
                    return e;
                }
            }
            None
        },
        _ => Some(invalid_text(v, "struct PathItem")),
    }
}

/// Checks a value decoded from a `$ref` as a path item.
pub fn check_path_item_value(v: &Json) -> (r: Option<Vec<char>>)
    ensures
        msg_view(r) == check_path_item(v@),
{
    exec_check_path_item(v)
}

fn exec_check_server(v: &Json) -> (r: Option<Vec<char>>)
    ensures
        msg_view(r) == check_server(v@),
{
    match v {
        Json::Object(_) => {
            let url = get_field(v, "url");
            match url {
                Some(x) => exec_check_string(x),
                None => Some(missing_text("url")),
            }
        },
        _ => Some(invalid_text(v, "struct Server")),
    }
}

fn exec_check_servers(v: &Json) -> (r: Option<Vec<char>>)
    ensures
        msg_view(r) == check_servers(v@),
{
    match v {
        Json::Array(items) => {
            let ghost s = items_view(items@);
            let ghost f = |x: JsonV| check_server(x);
            let mut i: usize = 0;
            while i < items.len()
                invariant
                    f == (|x: JsonV| check_server(x)),
                    i <= items.len(),
                    s == items_view(items@),
                    v@ == JsonV::Array(s),
                    first_err(s.subrange(0, i as int), f) is None,
                decreases items.len() - i,
            {
                assert(s.subrange(0, i + 1).drop_last() =~= s.subrange(0, i as int));
                let e = exec_check_server(&items[i]);
                assert(first_err(s.subrange(0, i + 1), f) == first(first_err(s.subrange(0, i as int), f), f(s[i as int])));
                if e.is_some() {
                    proof {
                        lemma_first_err_prefix(s, f, i as int + 1);
                    }
                    return e;
                }
                i += 1;
            }
            assert(s.subrange(0, i as int) =~= s);
            None
        },
        _ => Some(invalid_text(v, "a sequence")),
    }
}

fn exec_check_info(v: &Json) -> (r: Option<Vec<char>>)
    ensures
        msg_view(r) == check_info(v@),
{
    match v {
        Json::Object(_) => {
            let title = get_field(v, "title");
            if let Some(x) = title {
                let e = exec_check_string(x);
                if e.is_some() {
                    return e;
                }
            }
            let version = get_field(v, "version");
            if let Some(x) = version {
                let e = exec_check_string_or_number(x);
                if e.is_some() {
                    return e;
                }
            }
            if title.is_none() {
                return Some(missing_text("title"));
            }
            if version.is_none() {
                return Some(missing_text("version"));
            }
            None
        },
        _ => Some(invalid_text(v, "struct Info")),
    }
}

fn exec_check_paths(v: &Json) -> (r: Option<Vec<char>>)
    ensures
        msg_view(r) == check_paths(v@),
{
    match v {
        Json::Object(entries) => {
            let ghost m = entries_view(entries@);
            let ghost f = |x: JsonV| check_path_item(x);
            let mut i: usize = 0;
            while i < entries.len()
                invariant
                    f == (|x: JsonV| check_path_item(x)),
                    i <= entries.len(),
                    m == entries_view(entries@),
                    v@ == JsonV::Object(m),
                    first_err_entries(m.subrange(0, i as int), f) is None,
                decreases entries.len() - i,
            {
                assert(m.subrange(0, i + 1).drop_last() =~= m.subrange(0, i as int));
                let e = exec_check_path_item(&entries[i].1);
                assert(first_err_entries(m.subrange(0, i + 1), f) == first(first_err_entries(m.subrange(0, i as int), f), f(m[i as int].1)));
                if e.is_some() {
                    proof {
                        lemma_first_err_entries_prefix(m, f, i as int + 1);
                    }
                    return e;
                }
                i += 1;
            }
            assert(m.subrange(0, i as int) =~= m);
            None
        },
        _ => Some(invalid_text(v, "a map")),
    }
}

/// The first problem that deserializing the whole document would report.
pub fn check_document_value(v: &Json) -> (r: Option<Vec<char>>)
    ensures
        msg_view(r) == check_document(v@),
{
    match v {
        Json::Object(_) => {
            let info = get_field(v, "info");
            if let Some(x) = info {
                let e = exec_check_info(x);
                if e.is_some() {
                    return e;
                }
            }
            let openapi = get_field(v, "openapi");
            if let Some(x) = openapi {
                let e = exec_check_string_or_number(x);
                if e.is_some() {
                    return e;
                }
            }
            let paths = get_field(v, "paths");
            if let Some(x) = paths {
                let e = exec_check_paths(x);
                if e.is_some() {
                    return e;
                }
            }
            if let Some(x) = get_field(v, "servers") {
                let e = exec_check_servers(x);
                if e.is_some() {
                    return e;
                }
            }
            if openapi.is_none() {
                return Some(missing_text("openapi"));
            }
            if info.is_none() {
                return Some(missing_text("info"));
            }
            if paths.is_none() {
                return Some(missing_text("paths"));
            }
            None
        },
        _ => Some(invalid_text(v, "struct Spec")),
    }
}

/// Checks a value decoded from a `$ref` as a `RefOr` of the given kind.
pub fn check_ref_or_value(k: Kind, v: &Json) -> (r: Option<Vec<char>>)
    ensures
        msg_view(r) == check_ref_or(k, v@),
{
    exec_check_ref_or(k, v)
}

} // verus!
