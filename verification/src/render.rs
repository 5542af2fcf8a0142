//! Hurl rendering: one file per operation, and a README for the suite.
//!
//! A file holds comment lines naming the operation, the request (path
//! parameters filled in and percent-encoded, headers, `[Query]`, the body), a
//! blank line, and the expected response (`HTTP` status and `[Asserts]`).
use vstd::prelude::*;

use crate::document::{
    exec_param_in, exec_param_name, exec_present, json_res, opt_view, param_in, param_name,
    ops_view, present, texts_view, Document, DocumentV, Operation, OperationV,
};
use crate::error::{with_context, Error, ErrorV};
use crate::json::{entries_view, items_view, Json, JsonV};
use crate::json_ops::{copy_json, get_field, json_get, pretty, to_pretty};
use crate::sample::{
    base_content_type, choose_media, exec_base_content_type, exec_choose_media,
    exec_has_explicit_sample, exec_kw_true, exec_media_rank,
    exec_sample_media, exec_sample_schema, exec_value_to_wire_string, has_explicit_sample, kw_str,
    kw_true, media_rank, sample_media, sample_schema, value_to_wire_string,
};
use crate::text::{
    chars_eq, chars_eq_str, chars_of, copy_chars, decimal, find_char_from, has_char,
    has_prefix,
    is_ascii_alnum,
    lower_chars, lower_text, push_all, push_str, slice_chars, starts_with, trim, trim_chars,
};

verus! {

broadcast use {vstd::std_specs::vec::group_vec_axioms, crate::json::group_json_view};

// ---------------------------------------------------------------------------
// Text helpers.

/// A character kept on one line: line breaks become spaces.
pub open spec fn flat_char(c: char) -> char {
    if c == '\n' || c == '\r' {
        ' '
    } else {
        c
    }
}

/// Text kept on one line, for comments and Markdown.
pub open spec fn one_line(s: Seq<char>) -> Seq<char> {
    s.map_values(|c: char| flat_char(c))
}

/// How a character is written in a Hurl value: `\`, `#` and control characters
/// are escaped.
pub open spec fn value_char(c: char) -> Seq<char> {
    if c == '\\' {
        seq!['\\', '\\']
    } else if c == '#' {
        seq!['\\', '#']
    } else if c == '\n' {
        seq!['\\', 'n']
    } else if c == '\r' {
        seq!['\\', 'r']
    } else if c == '\t' {
        seq!['\\', 't']
    } else {
        seq![c]
    }
}

/// A Hurl header, query or form value.
pub open spec fn escape_value(s: Seq<char>) -> Seq<char>
    decreases s.len(),
{
    if s.len() == 0 {
        Seq::empty()
    } else {
        escape_value(s.drop_last()) + value_char(s.last())
    }
}

/// How a character is written in a Hurl key: as in a value, and `:` escaped.
pub open spec fn key_char(c: char) -> Seq<char> {
    if c == ':' {
        seq!['\\', ':']
    } else {
        value_char(c)
    }
}

/// A Hurl header, query or form key.
pub open spec fn escape_key(s: Seq<char>) -> Seq<char>
    decreases s.len(),
{
    if s.len() == 0 {
        Seq::empty()
    } else {
        escape_key(s.drop_last()) + key_char(s.last())
    }
}

/// How a character is written inside a quoted Hurl string or a one-line body.
pub open spec fn quoted_char(c: char, quote: char) -> Seq<char> {
    if c == '\\' {
        seq!['\\', '\\']
    } else if c == quote {
        seq!['\\', quote]
    } else if c == '\n' {
        seq!['\\', 'n']
    } else if c == '\r' {
        seq!['\\', 'r']
    } else if c == '\t' {
        seq!['\\', 't']
    } else {
        seq![c]
    }
}

/// Text escaped for a Hurl string delimited by `quote`.
pub open spec fn escape_quoted(s: Seq<char>, quote: char) -> Seq<char>
    decreases s.len(),
{
    if s.len() == 0 {
        Seq::empty()
    } else {
        escape_quoted(s.drop_last(), quote) + quoted_char(s.last(), quote)
    }
}

/// Texts joined with `", "`.
pub open spec fn join_comma(s: Seq<Seq<char>>) -> Seq<char>
    decreases s.len(),
{
    if s.len() == 0 {
        Seq::empty()
    } else if s.len() == 1 {
        s[0]
    } else {
        join_comma(s.drop_last()) + ", "@ + s.last()
    }
}

// ---------------------------------------------------------------------------
// Percent-encoding of path values (RFC 3986 unreserved characters kept).

/// Whether a character is kept as it is in a URL path segment.
pub open spec fn is_unreserved(c: char) -> bool {
    is_ascii_alnum(c) || c == '-' || c == '.' || c == '_' || c == '~'
}

/// An upper-case hexadecimal digit.
pub open spec fn hex_upper(d: nat) -> char {
    if d < 10 {
        (('0' as u32) + d) as char
    } else {
        (('A' as u32) + (d - 10)) as char
    }
}

/// One byte as `%XX`.
pub open spec fn percent_byte(b: nat) -> Seq<char> {
    seq!['%', hex_upper(b / 16), hex_upper(b % 16)]
}

/// A character percent-encoded: unreserved characters as they are, others as
/// the `%XX` forms of their UTF-8 bytes.
pub open spec fn percent_char(c: char) -> Seq<char> {
    let u = c as nat;
    if is_unreserved(c) {
        seq![c]
    } else if u < 0x80 {
        percent_byte(u)
    } else if u < 0x800 {
        percent_byte(0xC0 + u / 64) + percent_byte(0x80 + u % 64)
    } else if u < 0x10000 {
        percent_byte(0xE0 + u / 4096) + percent_byte(0x80 + (u / 64) % 64) + percent_byte(
            0x80 + u % 64,
        )
    } else {
        percent_byte(0xF0 + (u / 262144) % 8) + percent_byte(0x80 + (u / 4096) % 64) + percent_byte(
            0x80 + (u / 64) % 64,
        ) + percent_byte(0x80 + u % 64)
    }
}

/// Text percent-encoded for a URL path segment.
pub open spec fn percent_encode(s: Seq<char>) -> Seq<char>
    decreases s.len(),
{
    if s.len() == 0 {
        Seq::empty()
    } else {
        percent_encode(s.drop_last()) + percent_char(s.last())
    }
}

// ---------------------------------------------------------------------------
// Parameters.

/// The value of the first pair named `name`.
pub open spec fn lookup(values: Seq<(Seq<char>, Seq<char>)>, name: Seq<char>) -> Option<Seq<char>>
    decreases values.len(),
{
    if values.len() == 0 {
        None
    } else if values[0].0 == name {
        Some(values[0].1)
    } else {
        lookup(values.drop_first(), name)
    }
}

/// The path from position `k` on, each `{name}` replaced by the percent-encoded
/// value of that path parameter (left as it is when there is none).
pub open spec fn fill_path_from(path: Seq<char>, k: int, values: Seq<(Seq<char>, Seq<char>)>) -> Seq<
    char,
>
    decreases path.len() - k,
{
    if k < 0 || k >= path.len() {
        Seq::empty()
    } else if path[k] == '{' {
        match crate::text::index_of_from(path, '}', k + 1) {
            Some(e) => {
                proof {
                    crate::text::lemma_index_of_from(path, '}', k + 1);
                }
                let name = path.subrange(k + 1, e);
                let replaced = match lookup(values, name) {
                    Some(v) => percent_encode(v),
                    None => "{"@ + name + "}"@,
                };
                replaced + fill_path_from(path, e + 1, values)
            },
            None => path.subrange(k, path.len() as int),
        }
    } else {
        seq![path[k]] + fill_path_from(path, k + 1, values)
    }
}

/// Whether a parameter is `required: true`.
pub open spec fn is_required(p: JsonV) -> bool {
    json_get(p, "required"@) == Some(JsonV::Bool(true))
}

/// Header names that OpenAPI says to ignore as parameters.
pub open spec fn ignored_header(name: Seq<char>) -> bool {
    let n = lower_text(name);
    n == "accept"@ || n == "content-type"@ || n == "authorization"@
}

/// Whether a parameter at `location` is rendered: path parameters always;
/// header and query parameters when required or given a sample (ignored header
/// names never); cookie parameters never.
pub open spec fn param_rendered(p: JsonV, location: Seq<char>) -> bool {
    &&& param_in(p) == location
    &&& location != "cookie"@
    &&& (location == "header"@ ==> !ignored_header(param_name(p)))
    &&& (location == "path"@ || is_required(p) || has_explicit_sample(
        present(p, "schema"@),
        present(p, "example"@),
        present(p, "content"@),
    ))
}

/// The sample of a parameter: its `example`, else the sample of its `schema`,
/// else of its preferred `content` media type, else `"string"`.
pub open spec fn param_sample(doc: JsonV, p: JsonV) -> Result<JsonV, ErrorV> {
    match present(p, "example"@) {
        Some(x) => Ok(x),
        None => match present(p, "schema"@) {
            Some(s) => sample_schema(doc, s, 0, Seq::empty()),
            None => match present(p, "content"@) {
                Some(JsonV::Object(m)) => match choose_media(m) {
                    Some(i) => match sample_media(doc, m[i].1) {
                        Err(e) => Err(e),
                        Ok(Some(v)) => Ok(v),
                        Ok(None) => Ok(JsonV::Str("string"@)),
                    },
                    None => Ok(JsonV::Str("string"@)),
                },
                _ => Ok(JsonV::Str("string"@)),
            },
        },
    }
}

/// The rendered parameters at one location, as name and wire value, in order.
pub open spec fn param_values(doc: JsonV, params: Seq<JsonV>, location: Seq<char>) -> Result<
    Seq<(Seq<char>, Seq<char>)>,
    ErrorV,
>
    decreases params.len(),
{
    if params.len() == 0 {
        Ok(Seq::empty())
    } else {
        match param_values(doc, params.drop_last(), location) {
            Err(e) => Err(e),
            Ok(prev) => if param_rendered(params.last(), location) {
                match param_sample(doc, params.last()) {
                    Err(e) => Err(e),
                    Ok(v) => Ok(prev.push((param_name(params.last()), value_to_wire_string(v)))),
                }
            } else {
                Ok(prev)
            },
        }
    }
}

/// Whether any parameter is a cookie parameter.
pub open spec fn has_cookie(params: Seq<JsonV>) -> bool {
    exists|i: int| 0 <= i < params.len() && param_in(#[trigger] params[i]) == "cookie"@
}

/// `name: value` lines, escaped for Hurl.
pub open spec fn pair_lines(pairs: Seq<(Seq<char>, Seq<char>)>) -> Seq<char>
    decreases pairs.len(),
{
    if pairs.len() == 0 {
        Seq::empty()
    } else {
        pair_lines(pairs.drop_last()) + escape_key(pairs.last().0) + ": "@ + escape_value(
            pairs.last().1,
        ) + "\n"@
    }
}

/// A section header followed by its lines, or nothing when there are none.
pub open spec fn section(title: Seq<char>, pairs: Seq<(Seq<char>, Seq<char>)>) -> Seq<char> {
    if pairs.len() == 0 {
        Seq::empty()
    } else {
        title + "\n"@ + pair_lines(pairs)
    }
}

// ---------------------------------------------------------------------------
// Request bodies.

/// What a request body adds to a file: comment notes, a `Content-Type`, form
/// fields and the body text (each empty when absent).
pub struct BodyV {
    pub notes: Seq<Seq<char>>,
    pub content_type: Option<Seq<char>>,
    pub form: Seq<(Seq<char>, Seq<char>)>,
    pub text: Seq<char>,
}

/// A body part with notes only.
pub open spec fn notes_only(notes: Seq<Seq<char>>) -> BodyV {
    BodyV { notes, content_type: None, form: Seq::empty(), text: Seq::empty() }
}

/// Object fields as form pairs: each key with the wire text of its value.
pub open spec fn form_pairs(fields: Seq<(Seq<char>, JsonV)>) -> Seq<(Seq<char>, Seq<char>)>
    decreases fields.len(),
{
    if fields.len() == 0 {
        Seq::empty()
    } else {
        form_pairs(fields.drop_last()).push((fields.last().0, value_to_wire_string(fields.last().1)))
    }
}

/// The keys of a `content` map, in order, leaving out the one at `skip`.
pub open spec fn other_keys(m: Seq<(Seq<char>, JsonV)>, skip: int) -> Seq<Seq<char>>
    decreases m.len(),
{
    if m.len() == 0 {
        Seq::empty()
    } else {
        let prev = other_keys(m.drop_last(), skip);
        if m.len() - 1 != skip {
            prev.push(m.last().0)
        } else {
            prev
        }
    }
}

/// What a request body adds, or the error from sampling it. The preferred media
/// type is used: JSON as a pretty-printed body with its `Content-Type`, a
/// URL-encoded form as `[Form]` fields, text or XML as a one-line body; any
/// other media type only gets a note.
pub open spec fn body_part(doc: JsonV, body: Option<JsonV>) -> Result<BodyV, ErrorV> {
    match body {
        None => Ok(notes_only(Seq::empty())),
        Some(b) => {
            let optional: Seq<Seq<char>> = if is_required(b) {
                Seq::empty()
            } else {
                seq!["request body is optional"@]
            };
            match json_get(b, "content"@) {
                Some(JsonV::Object(m)) => match choose_media(m) {
                    None => Ok(notes_only(optional)),
                    Some(i) => {
                        let key = m[i].0;
                        let notes = if m.len() > 1 {
                            optional.push(
                                "request body uses "@ + key + "; also documented: "@ + join_comma(
                                    other_keys(m, i),
                                ),
                            )
                        } else {
                            optional
                        };
                        match sample_media(doc, m[i].1) {
                            Err(e) => Err(e),
                            Ok(None) => Ok(
                                notes_only(
                                    notes.push(
                                        "request body "@ + key
                                            + " has no example or schema; body not emitted"@,
                                    ),
                                ),
                            ),
                            Ok(Some(v)) => {
                                let rank = media_rank(key);
                                if rank == 0 {
                                    Ok(
                                        BodyV {
                                            notes,
                                            content_type: Some(key),
                                            form: Seq::empty(),
                                            text: pretty(v, Seq::empty()) + "\n"@,
                                        },
                                    )
                                } else if rank == 1 {
                                    match v {
                                        JsonV::Object(fields) => Ok(
                                            BodyV {
                                                notes,
                                                content_type: None,
                                                form: form_pairs(fields),
                                                text: Seq::empty(),
                                            },
                                        ),
                                        _ => Ok(
                                            notes_only(
                                                notes.push(
                                                    "form body sample is not an object; body not emitted"@,
                                                ),
                                            ),
                                        ),
                                    }
                                } else if rank == 2 {
                                    Ok(
                                        BodyV {
                                            notes,
                                            content_type: Some(key),
                                            form: Seq::empty(),
                                            text: "`"@ + escape_quoted(value_to_wire_string(v), '`')
                                                + "`\n"@,
                                        },
                                    )
                                } else {
                                    Ok(
                                        notes_only(
                                            notes.push(
                                                "request body media type "@ + key
                                                    + " is not emitted"@,
                                            ),
                                        ),
                                    )
                                }
                            },
                        }
                    },
                },
                _ => Ok(notes_only(optional)),
            }
        },
    }
}

// ---------------------------------------------------------------------------
// Responses.

/// Whether a character is an ASCII digit.
pub open spec fn is_digit(c: char) -> bool {
    '0' <= c <= '9'
}

/// A status code written as three digits.
pub open spec fn is_exact_status(k: Seq<char>) -> bool {
    k.len() == 3 && is_digit(k[0]) && is_digit(k[1]) && is_digit(k[2])
}

/// A documented success status: an exact `2..` code or the `2XX` range.
pub open spec fn is_success_status(k: Seq<char>) -> bool {
    (is_exact_status(k) && k[0] == '2') || k == "2XX"@ || k == "2xx"@
}

/// Which responses a search looks for.
pub enum StatusKind {
    SuccessCode,
    SuccessRange,
    AnyCode,
}

/// Whether a status key is of the kind searched for.
pub open spec fn status_is(k: Seq<char>, kind: StatusKind) -> bool {
    match kind {
        StatusKind::SuccessCode => is_exact_status(k) && k[0] == '2',
        StatusKind::SuccessRange => k == "2XX"@ || k == "2xx"@,
        StatusKind::AnyCode => is_exact_status(k),
    }
}

/// The index of the first response from `k` on whose status is of the kind.
pub open spec fn find_status(rs: Seq<(Seq<char>, JsonV)>, k: int, kind: StatusKind) -> Option<int>
    decreases rs.len() - k,
{
    if k < 0 || k >= rs.len() {
        None
    } else if status_is(rs[k].0, kind) {
        Some(k)
    } else {
        find_status(rs, k + 1, kind)
    }
}

/// The success status keys, in order, leaving out the one at `skip`.
pub open spec fn other_successes(rs: Seq<(Seq<char>, JsonV)>, skip: int) -> Seq<Seq<char>>
    decreases rs.len(),
{
    if rs.len() == 0 {
        Seq::empty()
    } else {
        let prev = other_successes(rs.drop_last(), skip);
        if rs.len() - 1 != skip && is_success_status(rs.last().0) {
            prev.push(rs.last().0)
        } else {
            prev
        }
    }
}

/// The expected response: the status written after `HTTP` (`*` for any), whether
/// the `2XX` range is asserted, the response object that is checked, and notes.
pub struct StatusV {
    pub code: Seq<char>,
    pub range: bool,
    pub response: Option<JsonV>,
    pub notes: Seq<Seq<char>>,
}

/// The note that lists the other documented success statuses, if any.
pub open spec fn success_notes(rs: Seq<(Seq<char>, JsonV)>, i: int) -> Seq<Seq<char>> {
    let others = other_successes(rs, i);
    if others.len() == 0 {
        Seq::empty()
    } else {
        seq!["other documented success statuses: "@ + join_comma(others)]
    }
}

/// The status asserted: the first exact `2xx` code, else the `2XX` range, else
/// the first exact code (with a note), else any status (with a note).
pub open spec fn choose_status(rs: Seq<(Seq<char>, JsonV)>) -> StatusV {
    match find_status(rs, 0, StatusKind::SuccessCode) {
        Some(i) => StatusV {
            code: rs[i].0,
            range: false,
            response: Some(rs[i].1),
            notes: success_notes(rs, i),
        },
        None => match find_status(rs, 0, StatusKind::SuccessRange) {
            Some(i) => StatusV {
                code: "*"@,
                range: true,
                response: Some(rs[i].1),
                notes: success_notes(rs, i),
            },
            None => match find_status(rs, 0, StatusKind::AnyCode) {
                Some(i) => StatusV {
                    code: rs[i].0,
                    range: false,
                    response: Some(rs[i].1),
                    notes: seq!["no 2xx response is documented; asserting "@ + rs[i].0],
                },
                None => StatusV {
                    code: "*"@,
                    range: false,
                    response: None,
                    notes: seq!["no status code is documented; accepting any status"@],
                },
            },
        },
    }
}

/// The preferred media type of a response's `content`, if it has one.
pub open spec fn response_media(response: Option<JsonV>) -> Option<Seq<char>> {
    match response {
        Some(r) => match present(r, "content"@) {
            Some(JsonV::Object(m)) => match choose_media(m) {
                Some(i) => Some(m[i].0),
                None => None,
            },
            _ => None,
        },
        None => None,
    }
}

/// The assert lines of the expected response.
pub open spec fn assert_lines(st: StatusV) -> Seq<char> {
    let range = if st.range {
        "status >= 200\nstatus < 300\n"@
    } else {
        Seq::empty()
    };
    let header = match response_media(st.response) {
        Some(key) => {
            let base = base_content_type(key);
            if base.contains('*') {
                Seq::empty()
            } else {
                "header \"Content-Type\" contains \""@ + escape_quoted(base, '"') + "\"\n"@
            }
        },
        None => Seq::empty(),
    };
    range + header
}

/// The response part of a file.
pub open spec fn response_text(st: StatusV) -> Seq<char> {
    let asserts = assert_lines(st);
    "HTTP "@ + one_line(st.code) + "\n"@ + if asserts.len() == 0 {
        Seq::empty()
    } else {
        "[Asserts]\n"@ + asserts
    }
}

// ---------------------------------------------------------------------------
// Servers.

/// `s` without trailing `/` characters.
pub open spec fn trim_end_slashes(s: Seq<char>) -> Seq<char>
    decreases s.len(),
{
    if s.len() > 0 && s.last() == '/' {
        trim_end_slashes(s.drop_last())
    } else {
        s
    }
}

/// The first server URL when it can be handed to Hurl as it is: trimmed,
/// without a `{variable}`, trailing slashes removed, and `http://` or `https://`.
pub open spec fn server_hint(servers: Seq<Seq<char>>) -> Option<Seq<char>> {
    if servers.len() == 0 {
        None
    } else {
        let url = trim(servers[0]);
        let t = trim_end_slashes(url);
        if url.contains('{') {
            None
        } else if starts_with(t, "http://"@) || starts_with(t, "https://"@) {
            Some(t)
        } else {
            None
        }
    }
}

// ---------------------------------------------------------------------------
// Operation files.

/// `# note:` comment lines.
pub open spec fn note_lines(notes: Seq<Seq<char>>) -> Seq<char>
    decreases notes.len(),
{
    if notes.len() == 0 {
        Seq::empty()
    } else {
        note_lines(notes.drop_last()) + "# note: "@ + one_line(notes.last()) + "\n"@
    }
}

/// A `# label: value` comment line when there is a value.
pub open spec fn opt_comment(label: Seq<char>, value: Option<Seq<char>>) -> Seq<char> {
    match value {
        Some(t) => "# "@ + label + ": "@ + one_line(t) + "\n"@,
        None => Seq::empty(),
    }
}

/// The comment lines that name an operation.
pub open spec fn comment_text(d: DocumentV, op: OperationV) -> Seq<char> {
    "# "@ + one_line(op.method + " "@ + op.path) + "\n"@ + opt_comment(
        "operationId"@,
        kw_str(op.raw, "operationId"@),
    ) + opt_comment("summary"@, kw_str(op.raw, "summary"@)) + (if kw_true(op.raw, "deprecated"@) {
        "# deprecated\n"@
    } else {
        Seq::empty()
    }) + opt_comment("base_url"@, server_hint(d.servers))
}

/// The `Accept` header for the response's preferred media type.
pub open spec fn accept_line(st: StatusV) -> Seq<char> {
    match response_media(st.response) {
        Some(key) => "Accept: "@ + escape_value(key) + "\n"@,
        None => Seq::empty(),
    }
}

/// The `Content-Type` header of the body.
pub open spec fn content_type_line(ct: Option<Seq<char>>) -> Seq<char> {
    match ct {
        Some(k) => "Content-Type: "@ + escape_value(k) + "\n"@,
        None => Seq::empty(),
    }
}

/// The notes of an operation: cookie parameters, then the body, then the status.
pub open spec fn operation_notes(op: OperationV, body: BodyV, st: StatusV) -> Seq<Seq<char>> {
    let cookie: Seq<Seq<char>> = if has_cookie(op.parameters) {
        seq!["cookie parameters are not emitted"@]
    } else {
        Seq::empty()
    };
    cookie + body.notes + st.notes
}

/// The request part of a file: the request line, headers, sections and body.
pub open spec fn request_text(
    op: OperationV,
    pathv: Seq<(Seq<char>, Seq<char>)>,
    headerv: Seq<(Seq<char>, Seq<char>)>,
    queryv: Seq<(Seq<char>, Seq<char>)>,
    body: BodyV,
    st: StatusV,
) -> Seq<char> {
    op.method + " {{base_url}}"@ + fill_path_from(op.path, 0, pathv) + "\n"@ + pair_lines(headerv)
        + accept_line(st) + content_type_line(body.content_type) + section("[Query]"@, queryv)
        + section("[Form]"@, body.form) + body.text
}

/// The text of an operation's file, given its sampled parts.
pub open spec fn operation_text(
    d: DocumentV,
    op: OperationV,
    pathv: Seq<(Seq<char>, Seq<char>)>,
    headerv: Seq<(Seq<char>, Seq<char>)>,
    queryv: Seq<(Seq<char>, Seq<char>)>,
    body: BodyV,
) -> Seq<char> {
    let st = choose_status(op.responses);
    comment_text(d, op) + note_lines(operation_notes(op, body, st)) + request_text(
        op,
        pathv,
        headerv,
        queryv,
        body,
        st,
    ) + "\n"@ + response_text(st)
}

/// The Hurl file of an operation, or the error from sampling it (prefixed with
/// the operation, such as `POST /pets`).
pub open spec fn render_operation(d: DocumentV, op: OperationV) -> Result<Seq<char>, ErrorV> {
    let ctx = op.method + " "@ + op.path;
    match param_values(d.doc, op.parameters, "path"@) {
        Err(e) => Err(with_context(e, ctx)),
        Ok(pathv) => match param_values(d.doc, op.parameters, "header"@) {
            Err(e) => Err(with_context(e, ctx)),
            Ok(headerv) => match param_values(d.doc, op.parameters, "query"@) {
                Err(e) => Err(with_context(e, ctx)),
                Ok(queryv) => match body_part(d.doc, op.request_body) {
                    Err(e) => Err(with_context(e, ctx + " request body"@)),
                    Ok(body) => Ok(operation_text(d, op, pathv, headerv, queryv, body)),
                },
            },
        },
    }
}

// ---------------------------------------------------------------------------
// File names.

/// The slug of a path so far, and whether a separator is pending.
pub open spec fn slug_state(s: Seq<char>) -> (Seq<char>, bool)
    decreases s.len(),
{
    if s.len() == 0 {
        (Seq::empty(), false)
    } else {
        let (out, pending) = slug_state(s.drop_last());
        let c = s.last();
        if is_ascii_alnum(c) {
            let sep: Seq<char> = if pending && out.len() > 0 {
                seq!['_']
            } else {
                Seq::empty()
            };
            (out + sep + seq![crate::text::ascii_lower(c)], false)
        } else {
            (out, true)
        }
    }
}

/// A path as a file-name slug: ASCII letters and digits lower-cased, every other
/// run of characters one `_`, none at either end.
pub open spec fn slug(path: Seq<char>) -> Seq<char> {
    slug_state(path).0
}

/// The file stem of an operation: the lower-case method, `_`, and the slug of
/// the path (`root` when it is empty).
pub open spec fn file_stem(method: Seq<char>, path: Seq<char>) -> Seq<char> {
    let sl = slug(path);
    lower_text(method) + "_"@ + if sl.len() == 0 {
        "root"@
    } else {
        sl
    }
}

/// The `n`th candidate name for a stem: `stem.hurl`, then `stem_2.hurl`, ...
pub open spec fn candidate(stem: Seq<char>, n: nat) -> Seq<char> {
    if n <= 1 {
        stem + ".hurl"@
    } else {
        stem + "_"@ + decimal(n) + ".hurl"@
    }
}

/// The first candidate from `n` on that is not taken (at most `taken.len() + 1`
/// candidates are tried).
pub open spec fn unique_name(taken: Seq<Seq<char>>, stem: Seq<char>, n: nat) -> Seq<char>
    decreases taken.len() + 1 - n,
{
    if n > taken.len() || !taken.contains(candidate(stem, n)) {
        candidate(stem, n)
    } else {
        unique_name(taken, stem, n + 1)
    }
}

/// The file names of the operations, in order: each its stem's first free name.
pub open spec fn file_names(ops: Seq<OperationV>) -> Seq<Seq<char>>
    decreases ops.len(),
{
    if ops.len() == 0 {
        Seq::empty()
    } else {
        let prev = file_names(ops.drop_last());
        prev.push(unique_name(prev, file_stem(ops.last().method, ops.last().path), 1))
    }
}

/// The files of the first `n` operations, or the first error.
pub open spec fn render_files(d: DocumentV, names: Seq<Seq<char>>, n: nat) -> Result<
    Seq<(Seq<char>, Seq<char>)>,
    ErrorV,
>
    decreases n,
{
    if n == 0 {
        Ok(Seq::empty())
    } else {
        match render_files(d, names, (n - 1) as nat) {
            Err(e) => Err(e),
            Ok(prev) => match render_operation(d, d.operations[n - 1]) {
                Err(e) => Err(e),
                Ok(text) => Ok(prev.push((names[n - 1], text))),
            },
        }
    }
}

/// One Hurl file per operation, in operation order, or the first error.
pub open spec fn render_suite(d: DocumentV) -> Result<Seq<(Seq<char>, Seq<char>)>, ErrorV> {
    render_files(d, file_names(d.operations), d.operations.len())
}

// ---------------------------------------------------------------------------
// The README.

/// `- url` lines.
pub open spec fn bullet_lines(urls: Seq<Seq<char>>) -> Seq<char>
    decreases urls.len(),
{
    if urls.len() == 0 {
        Seq::empty()
    } else {
        bullet_lines(urls.drop_last()) + "- "@ + one_line(urls.last()) + "\n"@
    }
}

/// Table rows naming each file and its operation.
pub open spec fn table_rows(names: Seq<Seq<char>>, ops: Seq<OperationV>) -> Seq<char>
    decreases ops.len(),
{
    if ops.len() == 0 || names.len() < ops.len() {
        Seq::empty()
    } else {
        let i = ops.len() - 1;
        table_rows(names, ops.drop_last()) + "| `"@ + one_line(names[i]) + "` | `"@ + one_line(
            ops[i].method + " "@ + ops[i].path,
        ) + "` |\n"@
    }
}

/// The base URL the README runs the suite against.
pub open spec fn readme_base(servers: Seq<Seq<char>>) -> Seq<char> {
    match server_hint(servers) {
        Some(h) => one_line(h),
        None => "http://localhost:8080"@,
    }
}

/// The README of a suite: what the files test, how to run them, the servers the
/// document lists, and a table of the files.
pub open spec fn readme_text(d: DocumentV, names: Seq<Seq<char>>) -> Seq<char> {
    "# "@ + one_line(d.title) + " contract tests\n\nHurl contract tests for "@ + one_line(d.title)
        + " "@ + one_line(d.version) + " (OpenAPI "@ + one_line(d.openapi) + "), from `"@ + one_line(
        d.source_name,
    ) + "`.\n\nRun them against a server:\n\n```sh\nhurl --variable base_url="@ + readme_base(
        d.servers,
    ) + " --test .\n```\n"@ + (if d.servers.len() == 0 {
        Seq::empty()
    } else {
        "\nServers listed in the document:\n\n"@ + bullet_lines(d.servers)
    }) + "\n| File | Operation |\n| --- | --- |\n"@ + table_rows(names, d.operations) + (
    if d.has_webhooks {
        "\nWebhooks are not covered.\n"@
    } else {
        Seq::empty()
    })
}

// ---------------------------------------------------------------------------
// Executable text helpers.

/// Views of name/value pairs.
pub open spec fn pairs_view(s: Seq<(Vec<char>, Vec<char>)>) -> Seq<(Seq<char>, Seq<char>)> {
    s.map_values(|p: (Vec<char>, Vec<char>)| (p.0@, p.1@))
}

fn exec_flat_char(c: char) -> (r: char)
    ensures
        r == flat_char(c),
{
    if c == '\n' || c == '\r' {
        ' '
    } else {
        c
    }
}

/// Appends `one_line(s)`.
fn push_one_line(out: &mut Vec<char>, s: &Vec<char>)
    ensures
        final(out)@ == old(out)@ + one_line(s@),
{
    let mut i: usize = 0;
    while i < s.len()
        invariant
            i <= s.len(),
            out@ == old(out)@ + one_line(s@.take(i as int)),
        decreases s.len() - i,
    {
        out.push(exec_flat_char(s[i]));
        i += 1;
        assert(one_line(s@.take(i as int)) =~= one_line(s@.take(i - 1)).push(flat_char(s@[i - 1])));
    }
    assert(s@.take(i as int) =~= s@);
}

fn push_value_char(out: &mut Vec<char>, c: char, key: bool)
    ensures
        final(out)@ == old(out)@ + (if key {
            key_char(c)
        } else {
            value_char(c)
        }),
{
    if key && c == ':' {
        push_str(out, "\\:");
    } else if c == '\\' {
        push_str(out, "\\\\");
    } else if c == '#' {
        push_str(out, "\\#");
    } else if c == '\n' {
        push_str(out, "\\n");
    } else if c == '\r' {
        push_str(out, "\\r");
    } else if c == '\t' {
        push_str(out, "\\t");
    } else {
        out.push(c);
    }
    proof {
        reveal_strlit("\\:");
        reveal_strlit("\\\\");
        reveal_strlit("\\#");
        reveal_strlit("\\n");
        reveal_strlit("\\r");
        reveal_strlit("\\t");
    }
    assert(final(out)@ =~= old(out)@ + (if key {
        key_char(c)
    } else {
        value_char(c)
    }));
}

/// Appends `escape_value(s)` (or `escape_key(s)` when `key`).
fn push_escaped(out: &mut Vec<char>, s: &Vec<char>, key: bool)
    ensures
        final(out)@ == old(out)@ + (if key {
            escape_key(s@)
        } else {
            escape_value(s@)
        }),
{
    let mut i: usize = 0;
    while i < s.len()
        invariant
            i <= s.len(),
            out@ == old(out)@ + (if key {
                escape_key(s@.take(i as int))
            } else {
                escape_value(s@.take(i as int))
            }),
        decreases s.len() - i,
    {
        assert(s@.take(i + 1).drop_last() =~= s@.take(i as int));
        push_value_char(out, s[i], key);
        i += 1;
        assert(out@ =~= old(out)@ + (if key {
            escape_key(s@.take(i as int))
        } else {
            escape_value(s@.take(i as int))
        }));
    }
    assert(s@.take(i as int) =~= s@);
}

/// Appends `escape_quoted(s, quote)`.
fn push_quoted(out: &mut Vec<char>, s: &Vec<char>, quote: char)
    ensures
        final(out)@ == old(out)@ + escape_quoted(s@, quote),
{
    let mut i: usize = 0;
    while i < s.len()
        invariant
            i <= s.len(),
            out@ == old(out)@ + escape_quoted(s@.take(i as int), quote),
        decreases s.len() - i,
    {
        assert(s@.take(i + 1).drop_last() =~= s@.take(i as int));
        let c = s[i];
        let ghost before = out@;
        if c == '\\' {
            out.push('\\');
            out.push('\\');
        } else if c == quote {
            out.push('\\');
            out.push(quote);
        } else if c == '\n' {
            out.push('\\');
            out.push('n');
        } else if c == '\r' {
            out.push('\\');
            out.push('r');
        } else if c == '\t' {
            out.push('\\');
            out.push('t');
        } else {
            out.push(c);
        }
        assert(out@ =~= before + quoted_char(c, quote));
        i += 1;
        assert(out@ =~= old(out)@ + escape_quoted(s@.take(i as int), quote));
    }
    assert(s@.take(i as int) =~= s@);
}

/// Appends `join_comma(s)`.
fn push_join_comma(out: &mut Vec<char>, s: &Vec<Vec<char>>)
    ensures
        final(out)@ == old(out)@ + join_comma(texts_view(s@)),
{
    let ghost sv = texts_view(s@);
    let mut i: usize = 0;
    while i < s.len()
        invariant
            i <= s.len(),
            sv == texts_view(s@),
            out@ == old(out)@ + join_comma(sv.take(i as int)),
        decreases s.len() - i,
    {
        assert(sv.take(i + 1).drop_last() =~= sv.take(i as int));
        if i > 0 {
            push_str(out, ", ");
        }
        push_all(out, &s[i]);
        i += 1;
        assert(out@ =~= old(out)@ + join_comma(sv.take(i as int)));
    }
    assert(sv.take(i as int) =~= sv);
}

fn exec_hex_upper(d: u32) -> (c: char)
    requires
        d < 16,
    ensures
        c == hex_upper(d as nat),
{
    if d < 10 {
        ((48 + d) as u8) as char
    } else {
        ((65 + d - 10) as u8) as char
    }
}

fn push_percent_byte(out: &mut Vec<char>, b: u32)
    requires
        b < 256,
    ensures
        final(out)@ == old(out)@ + percent_byte(b as nat),
{
    out.push('%');
    out.push(exec_hex_upper(b / 16));
    out.push(exec_hex_upper(b % 16));
    assert(final(out)@ =~= old(out)@ + percent_byte(b as nat));
}

fn exec_is_unreserved(c: char) -> (r: bool)
    ensures
        r == is_unreserved(c),
{
    crate::text::char_is_ascii_alnum(c) || c == '-' || c == '.' || c == '_' || c == '~'
}

fn push_percent_char(out: &mut Vec<char>, c: char)
    ensures
        final(out)@ == old(out)@ + percent_char(c),
{
    let u = c as u32;
    let ghost before = out@;
    if exec_is_unreserved(c) {
        out.push(c);
    } else if u < 0x80 {
        push_percent_byte(out, u);
    } else if u < 0x800 {
        push_percent_byte(out, 0xC0 + u / 64);
        push_percent_byte(out, 0x80 + u % 64);
    } else if u < 0x10000 {
        push_percent_byte(out, 0xE0 + u / 4096);
        push_percent_byte(out, 0x80 + (u / 64) % 64);
        push_percent_byte(out, 0x80 + u % 64);
    } else {
        push_percent_byte(out, 0xF0 + (u / 262144) % 8);
        push_percent_byte(out, 0x80 + (u / 4096) % 64);
        push_percent_byte(out, 0x80 + (u / 64) % 64);
        push_percent_byte(out, 0x80 + u % 64);
    }
    assert(out@ =~= before + percent_char(c));
}

/// Appends `percent_encode(s)`.
fn push_percent_encoded(out: &mut Vec<char>, s: &Vec<char>)
    ensures
        final(out)@ == old(out)@ + percent_encode(s@),
{
    let mut i: usize = 0;
    while i < s.len()
        invariant
            i <= s.len(),
            out@ == old(out)@ + percent_encode(s@.take(i as int)),
        decreases s.len() - i,
    {
        assert(s@.take(i + 1).drop_last() =~= s@.take(i as int));
        push_percent_char(out, s[i]);
        i += 1;
        assert(out@ =~= old(out)@ + percent_encode(s@.take(i as int)));
    }
    assert(s@.take(i as int) =~= s@);
}

// ---------------------------------------------------------------------------
// Executable parameters.

fn exec_lookup<'a>(values: &'a Vec<(Vec<char>, Vec<char>)>, name: &Vec<char>) -> (r: Option<&'a Vec<char>>)
    ensures
        match lookup(pairs_view(values@), name@) {
            Some(v) => r is Some && r->0@ == v,
            None => r is None,
        },
{
    let ghost pv = pairs_view(values@);
    assert(pv.skip(0) =~= pv);
    let mut i: usize = 0;
    while i < values.len()
        invariant
            i <= values.len(),
            pv == pairs_view(values@),
            lookup(pv, name@) == lookup(pv.skip(i as int), name@),
        decreases values.len() - i,
    {
        assert(pv.skip(i as int)[0] == (values@[i as int].0@, values@[i as int].1@));
        assert(pv.skip(i as int).drop_first() =~= pv.skip(i + 1));
        if chars_eq(&values[i].0, name) {
            return Some(&values[i].1);
        }
        i += 1;
    }
    None
}

/// Appends the path with its parameters filled in.
fn push_filled_path(out: &mut Vec<char>, path: &Vec<char>, values: &Vec<(Vec<char>, Vec<char>)>)
    ensures
        final(out)@ == old(out)@ + fill_path_from(path@, 0, pairs_view(values@)),
{
    let ghost pv = pairs_view(values@);
    let mut k: usize = 0;
    while k < path.len()
        invariant
            k <= path.len(),
            pv == pairs_view(values@),
            old(out)@ + fill_path_from(path@, 0, pv) == out@ + fill_path_from(path@, k as int, pv),
        decreases path.len() - k,
    {
        if path[k] == '{' {
            match find_char_from(path, '}', k + 1) {
                Some(e) => {
                    proof {
                        crate::text::lemma_index_of_from(path@, '}', k + 1);
                    }
                    let name = slice_chars(path, k + 1, e);
                    let ghost before = out@;
                    match exec_lookup(values, &name) {
                        Some(v) => push_percent_encoded(out, v),
                        None => {
                            out.push('{');
                            push_all(out, &name);
                            out.push('}');
                        },
                    }
                    assert(out@ =~= before + match lookup(pv, name@) {
                        Some(v) => percent_encode(v),
                        None => "{"@ + name@ + "}"@,
                    }) by {
                        reveal_strlit("{");
                        reveal_strlit("}");
                    }
                    k = e + 1;
                },
                None => {
                    let rest = slice_chars(path, k, path.len());
                    push_all(out, &rest);
                    assert(fill_path_from(path@, path.len() as int, pv) =~= Seq::<char>::empty());
                    k = path.len();
                },
            }
        } else {
            out.push(path[k]);
            k += 1;
        }
    }
    assert(fill_path_from(path@, k as int, pv) =~= Seq::<char>::empty());
}

fn exec_is_required(p: &Json) -> (r: bool)
    ensures
        r == is_required(p@),
{
    match get_field(p, "required") {
        Some(Json::Bool(b)) => *b,
        _ => false,
    }
}

fn exec_ignored_header(name: &Vec<char>) -> (r: bool)
    ensures
        r == ignored_header(name@),
{
    let n = lower_chars(name);
    chars_eq_str(&n, "accept") || chars_eq_str(&n, "content-type") || chars_eq_str(&n, "authorization")
}

fn exec_param_rendered(p: &Json, location: &str) -> (r: bool)
    ensures
        r == param_rendered(p@, location@),
{
    let loc = exec_param_in(p);
    if !chars_eq_str(&loc, location) {
        return false;
    }
    let cookie = chars_of("cookie");
    let l = chars_of(location);
    if chars_eq(&l, &cookie) {
        return false;
    }
    if chars_eq_str(&l, "header") && exec_ignored_header(&exec_param_name(p)) {
        return false;
    }
    chars_eq_str(&l, "path") || exec_is_required(p) || exec_has_explicit_sample(
        exec_present(p, "schema"),
        exec_present(p, "example"),
        exec_present(p, "content"),
    )
}

fn exec_param_sample(doc: &Json, p: &Json) -> (r: Result<Json, Error>)
    ensures
        json_res(r) == param_sample(doc@, p@),
{
    if let Some(x) = exec_present(p, "example") {
        return Ok(copy_json(x));
    }
    if let Some(s) = exec_present(p, "schema") {
        let mut stack: Vec<Vec<char>> = Vec::new();
        assert(texts_view(stack@) =~= Seq::<Seq<char>>::empty());
        return exec_sample_schema(doc, s, 0, &mut stack);
    }
    match exec_present(p, "content") {
        Some(Json::Object(m)) => match exec_choose_media(m) {
            Some(i) => {
                assert(entries_view(m@)[i as int].1 == m@[i as int].1@);
                let r = match exec_sample_media(doc, &m[i].1) {
                    Err(e) => Err(e),
                    Ok(Some(v)) => Ok(v),
                    Ok(None) => Ok(Json::Str(chars_of("string"))),
                };
                r
            },
            None => Ok(Json::Str(chars_of("string"))),
        },
        _ => Ok(Json::Str(chars_of("string"))),
    }
}

proof fn lemma_param_values_error(doc: JsonV, ps: Seq<JsonV>, loc: Seq<char>, n: int, e: ErrorV)
    requires
        0 <= n <= ps.len(),
        param_values(doc, ps.take(n), loc) == Err::<Seq<(Seq<char>, Seq<char>)>, ErrorV>(e),
    ensures
        param_values(doc, ps, loc) == Err::<Seq<(Seq<char>, Seq<char>)>, ErrorV>(e),
    decreases ps.len() - n,
{
    if n < ps.len() {
        assert(ps.take(n + 1).drop_last() =~= ps.take(n));
        lemma_param_values_error(doc, ps, loc, n + 1, e);
    } else {
        assert(ps.take(n) =~= ps);
    }
}

fn exec_param_values(doc: &Json, params: &Vec<Json>, location: &str) -> (r: Result<
    Vec<(Vec<char>, Vec<char>)>,
    Error,
>)
    ensures
        match param_values(doc@, items_view(params@), location@) {
            Ok(v) => r is Ok && pairs_view(r->Ok_0@) == v,
            Err(e) => r is Err && r->Err_0@ == e,
        },
{
    let ghost ps = items_view(params@);
    let mut out: Vec<(Vec<char>, Vec<char>)> = Vec::new();
    assert(pairs_view(out@) =~= Seq::<(Seq<char>, Seq<char>)>::empty());
    assert(ps.take(0) =~= Seq::<JsonV>::empty());
    let mut i: usize = 0;
    while i < params.len()
        invariant
            i <= params.len(),
            ps == items_view(params@),
            param_values(doc@, ps.take(i as int), location@) == Ok::<
                Seq<(Seq<char>, Seq<char>)>,
                ErrorV,
            >(pairs_view(out@)),
        decreases params.len() - i,
    {
        assert(ps.take(i + 1).drop_last() =~= ps.take(i as int));
        assert(ps[i as int] == params@[i as int]@);
        if exec_param_rendered(&params[i], location) {
            match exec_param_sample(doc, &params[i]) {
                Err(e) => {
                    proof {
                        lemma_param_values_error(doc@, ps, location@, i + 1, e@);
                    }
                    return Err(e);
                },
                Ok(v) => {
                    let ghost before = out@;
                    out.push((exec_param_name(&params[i]), exec_value_to_wire_string(&v)));
                    assert(pairs_view(out@) =~= pairs_view(before).push(
                        (param_name(ps[i as int]), value_to_wire_string(v@)),
                    ));
                },
            }
        }
        i += 1;
    }
    assert(ps.take(i as int) =~= ps);
    Ok(out)
}

fn exec_has_cookie(params: &Vec<Json>) -> (r: bool)
    ensures
        r == has_cookie(items_view(params@)),
{
    let ghost ps = items_view(params@);
    let mut i: usize = 0;
    while i < params.len()
        invariant
            i <= params.len(),
            ps == items_view(params@),
            forall|j: int| 0 <= j < i ==> param_in(#[trigger] ps[j]) != "cookie"@,
        decreases params.len() - i,
    {
        assert(ps[i as int] == params@[i as int]@);
        if chars_eq_str(&exec_param_in(&params[i]), "cookie") {
            return true;
        }
        i += 1;
    }
    false
}

/// Appends `pair_lines(pairs)`.
fn push_pair_lines(out: &mut Vec<char>, pairs: &Vec<(Vec<char>, Vec<char>)>)
    ensures
        final(out)@ == old(out)@ + pair_lines(pairs_view(pairs@)),
{
    let ghost pv = pairs_view(pairs@);
    let mut i: usize = 0;
    while i < pairs.len()
        invariant
            i <= pairs.len(),
            pv == pairs_view(pairs@),
            out@ == old(out)@ + pair_lines(pv.take(i as int)),
        decreases pairs.len() - i,
    {
        assert(pv.take(i + 1).drop_last() =~= pv.take(i as int));
        assert(pv[i as int] == (pairs@[i as int].0@, pairs@[i as int].1@));
        push_escaped(out, &pairs[i].0, true);
        push_str(out, ": ");
        push_escaped(out, &pairs[i].1, false);
        push_str(out, "\n");
        i += 1;
        assert(out@ =~= old(out)@ + pair_lines(pv.take(i as int)));
    }
    assert(pv.take(i as int) =~= pv);
}

/// Appends `section(title, pairs)`.
fn push_section(out: &mut Vec<char>, title: &str, pairs: &Vec<(Vec<char>, Vec<char>)>)
    ensures
        final(out)@ == old(out)@ + section(title@, pairs_view(pairs@)),
{
    if pairs.len() > 0 {
        let ghost before = out@;
        push_str(out, title);
        push_str(out, "\n");
        push_pair_lines(out, pairs);
        assert(out@ =~= before + section(title@, pairs_view(pairs@)));
    } else {
        assert(out@ =~= old(out)@ + section(title@, pairs_view(pairs@)));
    }
}

// ---------------------------------------------------------------------------
// Executable request bodies.

/// The optional text of an optional character vector.
pub open spec fn opt_text(o: Option<Vec<char>>) -> Option<Seq<char>> {
    match o {
        Some(t) => Some(t@),
        None => None,
    }
}

/// What a request body adds to a file; see [`BodyV`].
pub struct BodyPart {
    pub notes: Vec<Vec<char>>,
    pub content_type: Option<Vec<char>>,
    pub form: Vec<(Vec<char>, Vec<char>)>,
    pub text: Vec<char>,
}

impl View for BodyPart {
    type V = BodyV;

    open spec fn view(&self) -> BodyV {
        BodyV {
            notes: texts_view(self.notes@),
            content_type: opt_text(self.content_type),
            form: pairs_view(self.form@),
            text: self.text@,
        }
    }
}

fn exec_notes_only(notes: Vec<Vec<char>>) -> (r: BodyPart)
    ensures
        r@ == notes_only(texts_view(notes@)),
{
    let r = BodyPart { notes, content_type: None, form: Vec::new(), text: Vec::new() };
    assert(r@.form =~= Seq::<(Seq<char>, Seq<char>)>::empty());
    assert(r@.text =~= Seq::<char>::empty());
    r
}

fn exec_other_keys(m: &Vec<(Vec<char>, Json)>, skip: usize) -> (r: Vec<Vec<char>>)
    ensures
        texts_view(r@) == other_keys(entries_view(m@), skip as int),
{
    let ghost mv = entries_view(m@);
    let mut out: Vec<Vec<char>> = Vec::new();
    assert(texts_view(out@) =~= Seq::<Seq<char>>::empty());
    let mut j: usize = 0;
    while j < m.len()
        invariant
            j <= m.len(),
            mv == entries_view(m@),
            texts_view(out@) == other_keys(mv.take(j as int), skip as int),
        decreases m.len() - j,
    {
        assert(mv.take(j + 1).drop_last() =~= mv.take(j as int));
        assert(mv[j as int].0 == m@[j as int].0@);
        let ghost before = out@;
        if j != skip {
            out.push(copy_chars(&m[j].0));
            assert(texts_view(out@) =~= texts_view(before).push(m@[j as int].0@));
        }
        j += 1;
    }
    assert(mv.take(j as int) =~= mv);
    out
}

fn exec_form_pairs(fields: &Vec<(Vec<char>, Json)>) -> (r: Vec<(Vec<char>, Vec<char>)>)
    ensures
        pairs_view(r@) == form_pairs(entries_view(fields@)),
{
    let ghost fv = entries_view(fields@);
    let mut out: Vec<(Vec<char>, Vec<char>)> = Vec::new();
    assert(pairs_view(out@) =~= Seq::<(Seq<char>, Seq<char>)>::empty());
    let mut j: usize = 0;
    while j < fields.len()
        invariant
            j <= fields.len(),
            fv == entries_view(fields@),
            pairs_view(out@) == form_pairs(fv.take(j as int)),
        decreases fields.len() - j,
    {
        assert(fv.take(j + 1).drop_last() =~= fv.take(j as int));
        assert(fv[j as int] == (fields@[j as int].0@, fields@[j as int].1@));
        let ghost before = out@;
        out.push((copy_chars(&fields[j].0), exec_value_to_wire_string(&fields[j].1)));
        assert(pairs_view(out@) =~= pairs_view(before).push(
            (fields@[j as int].0@, value_to_wire_string(fields@[j as int].1@)),
        ));
        j += 1;
    }
    assert(fv.take(j as int) =~= fv);
    out
}

fn exec_body_part(doc: &Json, body: &Option<Json>) -> (r: Result<BodyPart, Error>)
    ensures
        match body_part(doc@, opt_view(*body)) {
            Ok(b) => r is Ok && r->Ok_0@ == b,
            Err(e) => r is Err && r->Err_0@ == e,
        },
{
    let b = match body {
        None => {
            let v: Vec<Vec<char>> = Vec::new();
            assert(texts_view(v@) =~= Seq::<Seq<char>>::empty());
            return Ok(exec_notes_only(v));
        },
        Some(b) => b,
    };
    let mut notes: Vec<Vec<char>> = Vec::new();
    if !exec_is_required(b) {
        notes.push(chars_of("request body is optional"));
    }
    let ghost optional: Seq<Seq<char>> = if is_required(b@) {
        Seq::empty()
    } else {
        seq!["request body is optional"@]
    };
    assert(texts_view(notes@) =~= optional);
    let m = match get_field(b, "content") {
        Some(Json::Object(m)) => m,
        _ => {
            return Ok(exec_notes_only(notes));
        },
    };
    let ghost mv = entries_view(m@);
    let i = match exec_choose_media(m) {
        None => {
            return Ok(exec_notes_only(notes));
        },
        Some(i) => i,
    };
    assert(mv[i as int] == (m@[i as int].0@, m@[i as int].1@));
    let key = &m[i].0;
    if m.len() > 1 {
        let mut note = chars_of("request body uses ");
        push_all(&mut note, key);
        push_str(&mut note, "; also documented: ");
        let others = exec_other_keys(m, i);
        push_join_comma(&mut note, &others);
        let ghost before = notes@;
        notes.push(note);
        assert(texts_view(notes@) =~= texts_view(before).push(note@));
    }
    let ghost notes_v = texts_view(notes@);
    assert(notes_v == (if mv.len() > 1 {
        optional.push(
            "request body uses "@ + mv[i as int].0 + "; also documented: "@ + join_comma(
                other_keys(mv, i as int),
            ),
        )
    } else {
        optional
    }));
    match exec_sample_media(doc, &m[i].1) {
        Err(e) => Err(e),
        Ok(None) => {
            let mut note = chars_of("request body ");
            push_all(&mut note, key);
            push_str(&mut note, " has no example or schema; body not emitted");
            let ghost before = notes@;
            notes.push(note);
            assert(texts_view(notes@) =~= texts_view(before).push(note@));
            Ok(exec_notes_only(notes))
        },
        Ok(Some(v)) => {
            let rank = exec_media_rank(key);
            if rank == 0 {
                let mut text = to_pretty(&v);
                push_str(&mut text, "\n");
                let r = BodyPart {
                    notes,
                    content_type: Some(copy_chars(key)),
                    form: Vec::new(),
                    text,
                };
                assert(r@.form =~= Seq::<(Seq<char>, Seq<char>)>::empty());
                Ok(r)
            } else if rank == 1 {
                match v {
                    Json::Object(fields) => {
                        let form = exec_form_pairs(&fields);
                        let r = BodyPart { notes, content_type: None, form, text: Vec::new() };
                        assert(r@.text =~= Seq::<char>::empty());
                        Ok(r)
                    },
                    _ => {
                        let ghost before = notes@;
                        notes.push(chars_of("form body sample is not an object; body not emitted"));
                        assert(texts_view(notes@) =~= texts_view(before).push(
                            "form body sample is not an object; body not emitted"@,
                        ));
                        Ok(exec_notes_only(notes))
                    },
                }
            } else if rank == 2 {
                let w = exec_value_to_wire_string(&v);
                let mut text = chars_of("`");
                push_quoted(&mut text, &w, '`');
                push_str(&mut text, "`\n");
                let r = BodyPart {
                    notes,
                    content_type: Some(copy_chars(key)),
                    form: Vec::new(),
                    text,
                };
                assert(r@.form =~= Seq::<(Seq<char>, Seq<char>)>::empty());
                Ok(r)
            } else {
                let mut note = chars_of("request body media type ");
                push_all(&mut note, key);
                push_str(&mut note, " is not emitted");
                let ghost before = notes@;
                notes.push(note);
                assert(texts_view(notes@) =~= texts_view(before).push(note@));
                Ok(exec_notes_only(notes))
            }
        },
    }
}

// ---------------------------------------------------------------------------
// Executable responses.

fn exec_is_digit(c: char) -> (r: bool)
    ensures
        r == is_digit(c),
{
    '0' <= c && c <= '9'
}

fn exec_is_exact_status(k: &Vec<char>) -> (r: bool)
    ensures
        r == is_exact_status(k@),
{
    k.len() == 3 && exec_is_digit(k[0]) && exec_is_digit(k[1]) && exec_is_digit(k[2])
}

fn exec_is_success_status(k: &Vec<char>) -> (r: bool)
    ensures
        r == is_success_status(k@),
{
    (exec_is_exact_status(k) && k[0] == '2') || chars_eq_str(k, "2XX") || chars_eq_str(k, "2xx")
}

fn exec_status_is(k: &Vec<char>, kind: &StatusKind) -> (r: bool)
    ensures
        r == status_is(k@, *kind),
{
    match kind {
        StatusKind::SuccessCode => exec_is_exact_status(k) && k[0] == '2',
        StatusKind::SuccessRange => chars_eq_str(k, "2XX") || chars_eq_str(k, "2xx"),
        StatusKind::AnyCode => exec_is_exact_status(k),
    }
}

fn exec_find_status(rs: &Vec<(Vec<char>, Json)>, kind: &StatusKind) -> (r: Option<usize>)
    ensures
        match find_status(entries_view(rs@), 0, *kind) {
            Some(i) => r is Some && r->0 as int == i,
            None => r is None,
        },
        r is Some ==> r->0 < rs.len(),
{
    let ghost rv = entries_view(rs@);
    let mut k: usize = 0;
    while k < rs.len()
        invariant
            k <= rs.len(),
            rv == entries_view(rs@),
            find_status(rv, 0, *kind) == find_status(rv, k as int, *kind),
        decreases rs.len() - k,
    {
        assert(rv[k as int].0 == rs@[k as int].0@);
        if exec_status_is(&rs[k].0, kind) {
            return Some(k);
        }
        k += 1;
    }
    None
}

fn exec_other_successes(rs: &Vec<(Vec<char>, Json)>, skip: usize) -> (r: Vec<Vec<char>>)
    ensures
        texts_view(r@) == other_successes(entries_view(rs@), skip as int),
{
    let ghost rv = entries_view(rs@);
    let mut out: Vec<Vec<char>> = Vec::new();
    assert(texts_view(out@) =~= Seq::<Seq<char>>::empty());
    let mut j: usize = 0;
    while j < rs.len()
        invariant
            j <= rs.len(),
            rv == entries_view(rs@),
            texts_view(out@) == other_successes(rv.take(j as int), skip as int),
        decreases rs.len() - j,
    {
        assert(rv.take(j + 1).drop_last() =~= rv.take(j as int));
        assert(rv[j as int].0 == rs@[j as int].0@);
        let ghost before = out@;
        if j != skip && exec_is_success_status(&rs[j].0) {
            out.push(copy_chars(&rs[j].0));
            assert(texts_view(out@) =~= texts_view(before).push(rs@[j as int].0@));
        }
        j += 1;
    }
    assert(rv.take(j as int) =~= rv);
    out
}

fn exec_success_notes(rs: &Vec<(Vec<char>, Json)>, i: usize) -> (r: Vec<Vec<char>>)
    ensures
        texts_view(r@) == success_notes(entries_view(rs@), i as int),
{
    let others = exec_other_successes(rs, i);
    let mut out: Vec<Vec<char>> = Vec::new();
    if others.len() > 0 {
        let mut note = chars_of("other documented success statuses: ");
        push_join_comma(&mut note, &others);
        out.push(note);
        assert(texts_view(out@) =~= seq![note@]);
    } else {
        assert(texts_view(out@) =~= Seq::<Seq<char>>::empty());
    }
    out
}

/// The expected response; see [`StatusV`].
pub struct StatusPart {
    pub code: Vec<char>,
    pub range: bool,
    pub response: Option<Json>,
    pub notes: Vec<Vec<char>>,
}

impl View for StatusPart {
    type V = StatusV;

    open spec fn view(&self) -> StatusV {
        StatusV {
            code: self.code@,
            range: self.range,
            response: opt_view(self.response),
            notes: texts_view(self.notes@),
        }
    }
}

fn exec_choose_status(rs: &Vec<(Vec<char>, Json)>) -> (r: StatusPart)
    ensures
        r@ == choose_status(entries_view(rs@)),
{
    let ghost rv = entries_view(rs@);
    if let Some(i) = exec_find_status(rs, &StatusKind::SuccessCode) {
        assert(rv[i as int] == (rs@[i as int].0@, rs@[i as int].1@));
        return StatusPart {
            code: copy_chars(&rs[i].0),
            range: false,
            response: Some(copy_json(&rs[i].1)),
            notes: exec_success_notes(rs, i),
        };
    }
    if let Some(i) = exec_find_status(rs, &StatusKind::SuccessRange) {
        assert(rv[i as int] == (rs@[i as int].0@, rs@[i as int].1@));
        return StatusPart {
            code: chars_of("*"),
            range: true,
            response: Some(copy_json(&rs[i].1)),
            notes: exec_success_notes(rs, i),
        };
    }
    if let Some(i) = exec_find_status(rs, &StatusKind::AnyCode) {
        assert(rv[i as int] == (rs@[i as int].0@, rs@[i as int].1@));
        let mut note = chars_of("no 2xx response is documented; asserting ");
        push_all(&mut note, &rs[i].0);
        let mut notes: Vec<Vec<char>> = Vec::new();
        notes.push(note);
        assert(texts_view(notes@) =~= seq![note@]);
        return StatusPart {
            code: copy_chars(&rs[i].0),
            range: false,
            response: Some(copy_json(&rs[i].1)),
            notes,
        };
    }
    let mut notes: Vec<Vec<char>> = Vec::new();
    let note = chars_of("no status code is documented; accepting any status");
    notes.push(note);
    assert(texts_view(notes@) =~= seq![note@]);
    StatusPart { code: chars_of("*"), range: false, response: None, notes }
}

fn exec_response_media(response: &Option<Json>) -> (r: Option<Vec<char>>)
    ensures
        opt_text(r) == response_media(opt_view(*response)),
{
    match response {
        Some(resp) => match exec_present(resp, "content") {
            Some(Json::Object(m)) => match exec_choose_media(m) {
                Some(i) => {
                    assert(entries_view(m@)[i as int].0 == m@[i as int].0@);
                    Some(copy_chars(&m[i].0))
                },
                None => None,
            },
            _ => None,
        },
        None => None,
    }
}

fn push_assert_lines(out: &mut Vec<char>, st: &StatusPart)
    ensures
        final(out)@ == old(out)@ + assert_lines(st@),
{
    let ghost before = out@;
    if st.range {
        push_str(out, "status >= 200\nstatus < 300\n");
    }
    let ghost mid = out@;
    match exec_response_media(&st.response) {
        Some(key) => {
            let base = exec_base_content_type(&key);
            if !has_char(&base, '*') {
                push_str(out, "header \"Content-Type\" contains \"");
                push_quoted(out, &base, '"');
                push_str(out, "\"\n");
            }
        },
        None => {},
    }
    assert(out@ =~= before + assert_lines(st@));
}

fn push_response_text(out: &mut Vec<char>, st: &StatusPart)
    ensures
        final(out)@ == old(out)@ + response_text(st@),
{
    let ghost before = out@;
    push_str(out, "HTTP ");
    push_one_line(out, &st.code);
    push_str(out, "\n");
    let mut asserts: Vec<char> = Vec::new();
    push_assert_lines(&mut asserts, st);
    assert(asserts@ =~= assert_lines(st@));
    if asserts.len() > 0 {
        push_str(out, "[Asserts]\n");
        push_all(out, &asserts);
    }
    assert(out@ =~= before + response_text(st@));
}

// ---------------------------------------------------------------------------
// Executable operation files.

fn exec_trim_end_slashes(s: &Vec<char>) -> (r: Vec<char>)
    ensures
        r@ == trim_end_slashes(s@),
{
    let mut end: usize = s.len();
    assert(s@.take(end as int) =~= s@);
    while end > 0 && s[end - 1] == '/'
        invariant
            end <= s.len(),
            trim_end_slashes(s@) == trim_end_slashes(s@.take(end as int)),
        decreases end,
    {
        assert(s@.take(end as int).drop_last() =~= s@.take(end - 1));
        end -= 1;
    }
    slice_chars(s, 0, end)
}

/// The first server URL when it can be handed to Hurl as it is.
pub fn exec_server_hint(servers: &Vec<Vec<char>>) -> (r: Option<Vec<char>>)
    ensures
        opt_text(r) == server_hint(texts_view(servers@)),
{
    if servers.len() == 0 {
        return None;
    }
    let url = trim_chars(&servers[0]);
    let t = exec_trim_end_slashes(&url);
    if has_char(&url, '{') {
        None
    } else if has_prefix(&t, "http://") || has_prefix(&t, "https://") {
        Some(t)
    } else {
        None
    }
}

fn push_note_lines(out: &mut Vec<char>, notes: &Vec<Vec<char>>)
    ensures
        final(out)@ == old(out)@ + note_lines(texts_view(notes@)),
{
    let ghost nv = texts_view(notes@);
    let mut i: usize = 0;
    while i < notes.len()
        invariant
            i <= notes.len(),
            nv == texts_view(notes@),
            out@ == old(out)@ + note_lines(nv.take(i as int)),
        decreases notes.len() - i,
    {
        assert(nv.take(i + 1).drop_last() =~= nv.take(i as int));
        push_str(out, "# note: ");
        push_one_line(out, &notes[i]);
        push_str(out, "\n");
        i += 1;
        assert(out@ =~= old(out)@ + note_lines(nv.take(i as int)));
    }
    assert(nv.take(i as int) =~= nv);
}

fn push_opt_comment(out: &mut Vec<char>, label: &str, value: Option<&Vec<char>>)
    ensures
        final(out)@ == old(out)@ + opt_comment(
            label@,
            match value {
                Some(t) => Some(t@),
                None => None,
            },
        ),
{
    let ghost before = out@;
    if let Some(t) = value {
        push_str(out, "# ");
        push_str(out, label);
        push_str(out, ": ");
        push_one_line(out, t);
        push_str(out, "\n");
    }
    assert(out@ =~= before + opt_comment(
        label@,
        match value {
            Some(t) => Some(t@),
            None => None,
        },
    ));
}

fn exec_kw_str<'a>(j: &'a Json, key: &str) -> (r: Option<&'a Vec<char>>)
    ensures
        match kw_str(j@, key@) {
            Some(t) => r is Some && r->0@ == t,
            None => r is None,
        },
{
    match get_field(j, key) {
        Some(Json::Str(t)) => Some(t),
        _ => None,
    }
}

fn exec_comment_head(op: &Operation) -> (r: Vec<char>)
    ensures
        r@ == "# "@ + one_line(op@.method + " "@ + op@.path) + "\n"@,
{
    let mut out = chars_of("# ");
    let mut head = copy_chars(&op.method);
    push_str(&mut head, " ");
    push_all(&mut head, &op.path);
    push_one_line(&mut out, &head);
    push_str(&mut out, "\n");
    out
}

fn exec_deprecated_line(op: &Operation) -> (r: Vec<char>)
    ensures
        r@ == (if kw_true(op@.raw, "deprecated"@) {
            "# deprecated\n"@
        } else {
            Seq::<char>::empty()
        }),
{
    if exec_kw_true(&op.raw, "deprecated") {
        chars_of("# deprecated\n")
    } else {
        Vec::new()
    }
}

#[verifier::spinoff_prover]
fn push_comment_text(out: &mut Vec<char>, d: &Document, op: &Operation)
    ensures
        final(out)@ == old(out)@ + comment_text(d@, op@),
{
    let ghost before = out@;
    let head = exec_comment_head(op);
    push_all(out, &head);
    let mut ids: Vec<char> = Vec::new();
    push_opt_comment(&mut ids, "operationId", exec_kw_str(&op.raw, "operationId"));
    push_opt_comment(&mut ids, "summary", exec_kw_str(&op.raw, "summary"));
    push_all(out, &ids);
    let dep = exec_deprecated_line(op);
    push_all(out, &dep);
    let hint = exec_server_hint(&d.servers);
    let hint_ref: Option<&Vec<char>> = match &hint {
        Some(h) => Some(h),
        None => None,
    };
    let mut tail: Vec<char> = Vec::new();
    push_opt_comment(&mut tail, "base_url", hint_ref);
    push_all(out, &tail);
    assert(out@ =~= before + comment_text(d@, op@));
}

fn push_accept_line(out: &mut Vec<char>, st: &StatusPart)
    ensures
        final(out)@ == old(out)@ + accept_line(st@),
{
    let ghost before = out@;
    if let Some(key) = exec_response_media(&st.response) {
        push_str(out, "Accept: ");
        push_escaped(out, &key, false);
        push_str(out, "\n");
    }
    assert(out@ =~= before + accept_line(st@));
}

fn push_content_type_line(out: &mut Vec<char>, ct: &Option<Vec<char>>)
    ensures
        final(out)@ == old(out)@ + content_type_line(opt_text(*ct)),
{
    let ghost before = out@;
    if let Some(k) = ct {
        push_str(out, "Content-Type: ");
        push_escaped(out, k, false);
        push_str(out, "\n");
    }
    assert(out@ =~= before + content_type_line(opt_text(*ct)));
}

fn exec_operation_notes(op: &Operation, body: &BodyPart, st: &StatusPart) -> (r: Vec<Vec<char>>)
    ensures
        texts_view(r@) == operation_notes(op@, body@, st@),
{
    let mut notes: Vec<Vec<char>> = Vec::new();
    if exec_has_cookie(&op.parameters) {
        notes.push(chars_of("cookie parameters are not emitted"));
    }
    let ghost first = texts_view(notes@);
    let mut i: usize = 0;
    while i < body.notes.len()
        invariant
            i <= body.notes.len(),
            texts_view(notes@) == first + texts_view(body.notes@).take(i as int),
        decreases body.notes.len() - i,
    {
        let ghost before = notes@;
        notes.push(copy_chars(&body.notes[i]));
        assert(texts_view(notes@) =~= texts_view(before).push(body.notes@[i as int]@));
        assert(texts_view(body.notes@).take(i + 1) =~= texts_view(body.notes@).take(i as int).push(
            body.notes@[i as int]@,
        ));
        assert(texts_view(notes@) =~= first + texts_view(body.notes@).take(i + 1));
        i += 1;
    }
    let ghost second = texts_view(notes@);
    let mut j: usize = 0;
    while j < st.notes.len()
        invariant
            j <= st.notes.len(),
            texts_view(notes@) == second + texts_view(st.notes@).take(j as int),
        decreases st.notes.len() - j,
    {
        let ghost before = notes@;
        notes.push(copy_chars(&st.notes[j]));
        assert(texts_view(notes@) =~= texts_view(before).push(st.notes@[j as int]@));
        assert(texts_view(st.notes@).take(j + 1) =~= texts_view(st.notes@).take(j as int).push(
            st.notes@[j as int]@,
        ));
        assert(texts_view(notes@) =~= second + texts_view(st.notes@).take(j + 1));
        j += 1;
    }
    assert(texts_view(body.notes@).take(i as int) =~= texts_view(body.notes@));
    assert(texts_view(st.notes@).take(j as int) =~= texts_view(st.notes@));
    assert(first =~= (if has_cookie(op@.parameters) {
        seq!["cookie parameters are not emitted"@]
    } else {
        Seq::<Seq<char>>::empty()
    }));
    assert(texts_view(notes@) =~= operation_notes(op@, body@, st@));
    notes
}

fn push_request_text(
    out: &mut Vec<char>,
    op: &Operation,
    pathv: &Vec<(Vec<char>, Vec<char>)>,
    headerv: &Vec<(Vec<char>, Vec<char>)>,
    queryv: &Vec<(Vec<char>, Vec<char>)>,
    body: &BodyPart,
    st: &StatusPart,
)
    ensures
        final(out)@ == old(out)@ + request_text(
            op@,
            pairs_view(pathv@),
            pairs_view(headerv@),
            pairs_view(queryv@),
            body@,
            st@,
        ),
{
    let ghost before = out@;
    push_all(out, &op.method);
    push_str(out, " {{base_url}}");
    push_filled_path(out, &op.path, pathv);
    push_str(out, "\n");
    push_pair_lines(out, headerv);
    push_accept_line(out, st);
    push_content_type_line(out, &body.content_type);
    push_section(out, "[Query]", queryv);
    push_section(out, "[Form]", &body.form);
    push_all(out, &body.text);
    assert(out@ =~= before + request_text(
        op@,
        pairs_view(pathv@),
        pairs_view(headerv@),
        pairs_view(queryv@),
        body@,
        st@,
    ));
}

/// Renders the Hurl file of one operation; see [`render_operation`].
pub fn exec_render_operation(d: &Document, op: &Operation) -> (r: Result<Vec<char>, Error>)
    ensures
        match render_operation(d@, op@) {
            Ok(t) => r is Ok && r->Ok_0@ == t,
            Err(e) => r is Err && r->Err_0@ == e,
        },
{
    let mut ctx = copy_chars(&op.method);
    push_str(&mut ctx, " ");
    push_all(&mut ctx, &op.path);
    let pathv = match exec_param_values(&d.doc, &op.parameters, "path") {
        Err(e) => {
            return Err(e.in_context(&ctx));
        },
        Ok(v) => v,
    };
    let headerv = match exec_param_values(&d.doc, &op.parameters, "header") {
        Err(e) => {
            return Err(e.in_context(&ctx));
        },
        Ok(v) => v,
    };
    let queryv = match exec_param_values(&d.doc, &op.parameters, "query") {
        Err(e) => {
            return Err(e.in_context(&ctx));
        },
        Ok(v) => v,
    };
    let body = match exec_body_part(&d.doc, &op.request_body) {
        Err(e) => {
            let mut bctx = copy_chars(&ctx);
            push_str(&mut bctx, " request body");
            return Err(e.in_context(&bctx));
        },
        Ok(b) => b,
    };
    let st = exec_choose_status(&op.responses);
    let mut out: Vec<char> = Vec::new();
    push_comment_text(&mut out, d, op);
    let notes = exec_operation_notes(op, &body, &st);
    push_note_lines(&mut out, &notes);
    push_request_text(&mut out, op, &pathv, &headerv, &queryv, &body, &st);
    push_str(&mut out, "\n");
    push_response_text(&mut out, &st);
    assert(out@ =~= operation_text(
        d@,
        op@,
        pairs_view(pathv@),
        pairs_view(headerv@),
        pairs_view(queryv@),
        body@,
    ));
    Ok(out)
}

// ---------------------------------------------------------------------------
// Executable file names and suites.

fn exec_slug(path: &Vec<char>) -> (r: Vec<char>)
    ensures
        r@ == slug(path@),
{
    let mut out: Vec<char> = Vec::new();
    let mut pending = false;
    let mut i: usize = 0;
    while i < path.len()
        invariant
            i <= path.len(),
            (out@, pending) == slug_state(path@.take(i as int)),
        decreases path.len() - i,
    {
        assert(path@.take(i + 1).drop_last() =~= path@.take(i as int));
        let c = path[i];
        if crate::text::char_is_ascii_alnum(c) {
            let ghost before = out@;
            if pending && out.len() > 0 {
                out.push('_');
            }
            out.push(crate::text::char_ascii_lower(c));
            let ghost sep: Seq<char> = if pending && before.len() > 0 {
                seq!['_']
            } else {
                Seq::empty()
            };
            assert(out@ =~= before + sep + seq![crate::text::ascii_lower(c)]);
            pending = false;
        } else {
            pending = true;
        }
        i += 1;
    }
    assert(path@.take(i as int) =~= path@);
    out
}

fn exec_file_stem(method: &Vec<char>, path: &Vec<char>) -> (r: Vec<char>)
    ensures
        r@ == file_stem(method@, path@),
{
    let sl = exec_slug(path);
    let mut out = lower_chars(method);
    push_str(&mut out, "_");
    if sl.len() == 0 {
        push_str(&mut out, "root");
    } else {
        push_all(&mut out, &sl);
    }
    out
}

fn exec_candidate(stem: &Vec<char>, n: usize) -> (r: Vec<char>)
    ensures
        r@ == candidate(stem@, n as nat),
{
    let mut out = copy_chars(stem);
    if n > 1 {
        push_str(&mut out, "_");
        let d = crate::text::usize_text(n);
        push_all(&mut out, &d);
    }
    push_str(&mut out, ".hurl");
    out
}

fn exec_unique_name(taken: &Vec<Vec<char>>, stem: &Vec<char>) -> (r: Vec<char>)
    requires
        taken.len() < usize::MAX,
    ensures
        r@ == unique_name(texts_view(taken@), stem@, 1),
{
    let ghost tv = texts_view(taken@);
    let mut n: usize = 1;
    while n <= taken.len()
        invariant
            1 <= n <= taken.len() + 1,
            taken.len() < usize::MAX,
            tv == texts_view(taken@),
            unique_name(tv, stem@, 1) == unique_name(tv, stem@, n as nat),
        decreases taken.len() + 1 - n,
    {
        let c = exec_candidate(stem, n);
        if !crate::document::stack_has(taken, &c) {
            return c;
        }
        n += 1;
    }
    exec_candidate(stem, n)
}

/// The file names of the operations; see [`file_names`].
pub fn exec_file_names(ops: &Vec<Operation>) -> (r: Vec<Vec<char>>)
    ensures
        texts_view(r@) == file_names(ops_view(ops@)),
        r.len() == ops.len(),
{
    let ghost ov = ops_view(ops@);
    let mut names: Vec<Vec<char>> = Vec::new();
    assert(texts_view(names@) =~= Seq::<Seq<char>>::empty());
    let mut i: usize = 0;
    while i < ops.len()
        invariant
            i <= ops.len(),
            ov == ops_view(ops@),
            names.len() == i,
            texts_view(names@) == file_names(ov.take(i as int)),
        decreases ops.len() - i,
    {
        assert(ov.take(i + 1).drop_last() =~= ov.take(i as int));
        assert(ov[i as int] == ops@[i as int]@);
        let stem = exec_file_stem(&ops[i].method, &ops[i].path);
        let name = exec_unique_name(&names, &stem);
        let ghost before = names@;
        names.push(name);
        assert(texts_view(names@) =~= texts_view(before).push(name@));
        i += 1;
    }
    assert(ov.take(i as int) =~= ov);
    names
}

proof fn lemma_render_files_error(d: DocumentV, names: Seq<Seq<char>>, n: nat, m: nat, e: ErrorV)
    requires
        n <= m,
        render_files(d, names, n) == Err::<Seq<(Seq<char>, Seq<char>)>, ErrorV>(e),
    ensures
        render_files(d, names, m) == Err::<Seq<(Seq<char>, Seq<char>)>, ErrorV>(e),
    decreases m - n,
{
    if n < m {
        lemma_render_files_error(d, names, n, (m - 1) as nat, e);
    }
}

/// Renders one Hurl file per operation; see [`render_suite`].
pub fn exec_render_suite(d: &Document) -> (r: Result<Vec<(Vec<char>, Vec<char>)>, Error>)
    ensures
        match render_suite(d@) {
            Ok(fs) => r is Ok && pairs_view(r->Ok_0@) == fs,
            Err(e) => r is Err && r->Err_0@ == e,
        },
{
    let names = exec_file_names(&d.operations);
    let ghost nv = texts_view(names@);
    let mut out: Vec<(Vec<char>, Vec<char>)> = Vec::new();
    assert(pairs_view(out@) =~= Seq::<(Seq<char>, Seq<char>)>::empty());
    let mut i: usize = 0;
    while i < d.operations.len()
        invariant
            i <= d.operations.len(),
            nv == texts_view(names@),
            nv == file_names(d@.operations),
            names.len() == d.operations.len(),
            render_files(d@, nv, i as nat) == Ok::<Seq<(Seq<char>, Seq<char>)>, ErrorV>(
                pairs_view(out@),
            ),
        decreases d.operations.len() - i,
    {
        assert(d@.operations[i as int] == d.operations@[i as int]@);
        match exec_render_operation(d, &d.operations[i]) {
            Err(e) => {
                proof {
                    lemma_render_files_error(d@, nv, (i + 1) as nat, d.operations.len() as nat, e@);
                }
                return Err(e);
            },
            Ok(text) => {
                let ghost before = out@;
                out.push((copy_chars(&names[i]), text));
                assert(pairs_view(out@) =~= pairs_view(before).push((nv[i as int], text@)));
            },
        }
        i += 1;
    }
    Ok(out)
}

fn push_bullet_lines(out: &mut Vec<char>, urls: &Vec<Vec<char>>)
    ensures
        final(out)@ == old(out)@ + bullet_lines(texts_view(urls@)),
{
    let ghost uv = texts_view(urls@);
    let mut i: usize = 0;
    while i < urls.len()
        invariant
            i <= urls.len(),
            uv == texts_view(urls@),
            out@ == old(out)@ + bullet_lines(uv.take(i as int)),
        decreases urls.len() - i,
    {
        assert(uv.take(i + 1).drop_last() =~= uv.take(i as int));
        push_str(out, "- ");
        push_one_line(out, &urls[i]);
        push_str(out, "\n");
        i += 1;
        assert(out@ =~= old(out)@ + bullet_lines(uv.take(i as int)));
    }
    assert(uv.take(i as int) =~= uv);
}

fn push_table_rows(out: &mut Vec<char>, names: &Vec<Vec<char>>, ops: &Vec<Operation>)
    requires
        names.len() == ops.len(),
    ensures
        final(out)@ == old(out)@ + table_rows(texts_view(names@), ops_view(ops@)),
{
    let ghost nv = texts_view(names@);
    let ghost ov = ops_view(ops@);
    let mut i: usize = 0;
    while i < ops.len()
        invariant
            i <= ops.len(),
            names.len() == ops.len(),
            nv == texts_view(names@),
            ov == ops_view(ops@),
            out@ == old(out)@ + table_rows(nv, ov.take(i as int)),
        decreases ops.len() - i,
    {
        assert(ov.take(i + 1).drop_last() =~= ov.take(i as int));
        assert(ov.take(i + 1)[i as int] == ops@[i as int]@);
        push_str(out, "| `");
        push_one_line(out, &names[i]);
        push_str(out, "` | `");
        let mut head = copy_chars(&ops[i].method);
        push_str(&mut head, " ");
        push_all(&mut head, &ops[i].path);
        push_one_line(out, &head);
        push_str(out, "` |\n");
        i += 1;
        assert(out@ =~= old(out)@ + table_rows(nv, ov.take(i as int)));
    }
    assert(ov.take(i as int) =~= ov);
}

/// Renders the README of a suite; see [`readme_text`].
pub fn exec_readme(d: &Document, names: &Vec<Vec<char>>) -> (r: Vec<char>)
    requires
        names.len() == d.operations.len(),
    ensures
        r@ == readme_text(d@, texts_view(names@)),
{
    let mut out: Vec<char> = Vec::new();
    push_str(&mut out, "# ");
    push_one_line(&mut out, &d.title);
    push_str(&mut out, " contract tests\n\nHurl contract tests for ");
    push_one_line(&mut out, &d.title);
    push_str(&mut out, " ");
    push_one_line(&mut out, &d.version);
    push_str(&mut out, " (OpenAPI ");
    push_one_line(&mut out, &d.openapi);
    push_str(&mut out, "), from `");
    push_one_line(&mut out, &d.source_name);
    push_str(&mut out, "`.\n\nRun them against a server:\n\n```sh\nhurl --variable base_url=");
    match exec_server_hint(&d.servers) {
        Some(h) => push_one_line(&mut out, &h),
        None => push_str(&mut out, "http://localhost:8080"),
    }
    push_str(&mut out, " --test .\n```\n");
    if d.servers.len() > 0 {
        push_str(&mut out, "\nServers listed in the document:\n\n");
        push_bullet_lines(&mut out, &d.servers);
    }
    push_str(&mut out, "\n| File | Operation |\n| --- | --- |\n");
    push_table_rows(&mut out, names, &d.operations);
    if d.has_webhooks {
        push_str(&mut out, "\nWebhooks are not covered.\n");
    }
    assert(out@ =~= readme_text(d@, texts_view(names@)));
    out
}

} // verus!
