//! OpenAPI document loading and reference resolution.
//!
//! The library reads the subset of OpenAPI 3.0 and 3.1 it needs to emit contract
//! tests: paths, operations, parameters, request bodies, and responses. Schemas
//! stay as JSON values so that 3.0 and 3.1 keyword shapes can both be sampled.
use vstd::prelude::*;

use crate::decode::{
    check_document, check_path_item, check_path_item_value, check_ref_or, check_ref_or_value,
    display_float, exec_ref_target, float_display, msg_view, ref_target, Kind,
};
use crate::error::{with_context, Error, ErrorV};
use crate::json::{entries_view, items_view, Json, JsonV, NumV, Number};
use crate::json_ops::{
    copy_json, get_field, json_get, json_pointer, json_pointer_get,
};
use crate::refs::{json_strings, lemma_pointer_strings, lemma_ref_measure_decreases, ref_measure};
use crate::text::{
    chars_eq, chars_eq_str, chars_of, copy_chars, decimal, find_char_from, i64_text,
    index_of_from, int_text, is_ascii_alnum, lemma_index_of_from, push_all, push_str,
    slice_chars, u64_text,
};
use crate::yaml::{parse_yaml, tree_to_json, yaml_parse, yaml_to_json};

verus! {

broadcast use {vstd::std_specs::vec::group_vec_axioms, crate::json::group_json_view};

/// One HTTP operation, with its `$ref`s resolved.
pub struct Operation {
    /// Upper-case method name, such as `GET`.
    pub method: Vec<char>,
    /// The path template, such as `/pets/{petId}`.
    pub path: Vec<char>,
    /// The operation object as written.
    pub raw: Json,
    /// Path-level and operation-level parameters, merged, each resolved.
    pub parameters: Vec<Json>,
    /// The resolved request body object, if any.
    pub request_body: Option<Json>,
    /// Status code to resolved response object, in status order.
    pub responses: Vec<(Vec<char>, Json)>,
}

/// The mathematical form of an [`Operation`].
pub struct OperationV {
    pub method: Seq<char>,
    pub path: Seq<char>,
    pub raw: JsonV,
    pub parameters: Seq<JsonV>,
    pub request_body: Option<JsonV>,
    pub responses: Seq<(Seq<char>, JsonV)>,
}

/// The view of an optional JSON value.
pub open spec fn opt_view(o: Option<Json>) -> Option<JsonV> {
    match o {
        Some(j) => Some(j@),
        None => None,
    }
}

impl View for Operation {
    type V = OperationV;

    open spec fn view(&self) -> OperationV {
        OperationV {
            method: self.method@,
            path: self.path@,
            raw: self.raw@,
            parameters: items_view(self.parameters@),
            request_body: opt_view(self.request_body),
            responses: entries_view(self.responses@),
        }
    }
}

/// A loaded OpenAPI document and the operations that are rendered.
pub struct Document {
    /// File name only, used in generated comments so output is path-stable.
    pub source_name: Vec<char>,
    pub openapi: Vec<char>,
    pub title: Vec<char>,
    pub version: Vec<char>,
    pub servers: Vec<Vec<char>>,
    pub has_webhooks: bool,
    pub doc: Json,
    pub operations: Vec<Operation>,
}

/// The mathematical form of a [`Document`].
pub struct DocumentV {
    pub source_name: Seq<char>,
    pub openapi: Seq<char>,
    pub title: Seq<char>,
    pub version: Seq<char>,
    pub servers: Seq<Seq<char>>,
    pub has_webhooks: bool,
    pub doc: JsonV,
    pub operations: Seq<OperationV>,
}

/// Views of a list of texts.
pub open spec fn texts_view(s: Seq<Vec<char>>) -> Seq<Seq<char>> {
    s.map_values(|t: Vec<char>| t@)
}

/// Views of a list of operations.
pub open spec fn ops_view(s: Seq<Operation>) -> Seq<OperationV> {
    s.map_values(|o: Operation| o@)
}

impl View for Document {
    type V = DocumentV;

    open spec fn view(&self) -> DocumentV {
        DocumentV {
            source_name: self.source_name@,
            openapi: self.openapi@,
            title: self.title@,
            version: self.version@,
            servers: texts_view(self.servers@),
            has_webhooks: self.has_webhooks,
            doc: self.doc@,
            operations: ops_view(self.operations@),
        }
    }
}

/// The view of a result holding a JSON value.
pub open spec fn json_res(r: Result<Json, Error>) -> Result<JsonV, ErrorV> {
    match r {
        Ok(j) => Ok(j@),
        Err(e) => Err(e@),
    }
}

// ---------------------------------------------------------------------------
// Small rules.

/// The text of a string-or-number field (`openapi`, `info.version`): a number is
/// written as `to_string` writes it.
pub open spec fn string_or_number(v: JsonV) -> Seq<char> {
    match v {
        JsonV::Str(s) => s,
        JsonV::Number(NumV::PosInt(u)) => decimal(u as nat),
        JsonV::Number(NumV::NegInt(i)) => int_text(i as int),
        JsonV::Number(NumV::Float(t)) => float_display(t),
        _ => Seq::empty(),
    }
}

fn string_or_number_text(v: &Json) -> (r: Vec<char>)
    ensures
        r@ == string_or_number(v@),
{
    match v {
        Json::Str(s) => copy_chars(s),
        Json::Number(Number::PosInt(u)) => u64_text(*u),
        Json::Number(Number::NegInt(i)) => i64_text(*i),
        Json::Number(Number::Float(t)) => display_float(t),
        _ => Vec::new(),
    }
}

/// The part of a version before its first `.`.
pub open spec fn major_part(version: Seq<char>) -> Seq<char> {
    match index_of_from(version, '.', 0) {
        Some(k) => version.subrange(0, k),
        None => version,
    }
}

/// The error for an OpenAPI version other than 3.x, if any.
pub open spec fn version_error(version: Seq<char>) -> Option<Seq<char>> {
    if major_part(version) == "3"@ {
        None
    } else {
        Some("unsupported OpenAPI version '"@ + version + "' (supported: 3.0 and 3.1)"@)
    }
}

/// Accepts OpenAPI 3.x versions: those whose part before the first `.` is `3`.
pub fn validate_version(version: &Vec<char>) -> (r: Option<Vec<char>>)
    ensures
        msg_view(r) == version_error(version@),
{
    proof {
        lemma_index_of_from(version@, '.', 0);
    }
    let major = match find_char_from(version, '.', 0) {
        Some(k) => slice_chars(version, 0, k),
        None => copy_chars(version),
    };
    assert(version@.subrange(0, version@.len() as int) =~= version@);
    if chars_eq_str(&major, "3") {
        None
    } else {
        let mut m = chars_of("unsupported OpenAPI version '");
        push_all(&mut m, version);
        push_str(&mut m, "' (supported: 3.0 and 3.1)");
        Some(m)
    }
}

/// The characters an HTTP token (header name) may hold besides ASCII letters and digits.
pub open spec fn is_tchar(c: char) -> bool {
    is_ascii_alnum(c) || c == '!' || c == '#' || c == '$' || c == '%' || c == '&' || c == '\''
        || c == '*' || c == '+' || c == '-' || c == '.' || c == '^' || c == '_' || c == '`' || c
        == '|' || c == '~'
}

/// An HTTP token: non-empty, of token characters only.
pub open spec fn token(name: Seq<char>) -> bool {
    name.len() > 0 && forall|i: int| 0 <= i < name.len() ==> is_tchar(#[trigger] name[i])
}

/// Whether `name` is a valid HTTP header name.
pub fn is_token(name: &Vec<char>) -> (r: bool)
    ensures
        r == token(name@),
{
    if name.len() == 0 {
        return false;
    }
    let mut i: usize = 0;
    while i < name.len()
        invariant
            i <= name.len(),
            forall|j: int| 0 <= j < i ==> is_tchar(#[trigger] name@[j]),
        decreases name.len() - i,
    {
        let c = name[i];
        let ok = crate::text::char_is_ascii_alnum(c) || c == '!' || c == '#' || c == '$' || c
            == '%' || c == '&' || c == '\'' || c == '*' || c == '+' || c == '-' || c == '.' || c
            == '^' || c == '_' || c == '`' || c == '|' || c == '~';
        if !ok {
            assert(!is_tchar(name@[i as int]));
            return false;
        }
        i += 1;
    }
    true
}

/// The names between braces in a path template, in order, or the message for
/// an unclosed or empty one. `rest` is the part of `path` still to scan.
pub open spec fn template_names_from(path: Seq<char>, rest: Seq<char>) -> Result<
    Seq<Seq<char>>,
    Seq<char>,
>
    decreases rest.len(),
{
    proof {
        lemma_index_of_from(rest, '{', 0);
    }
    match index_of_from(rest, '{', 0) {
        None => Ok(Seq::empty()),
        Some(start) => {
            let after = rest.subrange(start + 1, rest.len() as int);
            proof {
                lemma_index_of_from(after, '}', 0);
            }
            match index_of_from(after, '}', 0) {
                None => Err("unclosed path parameter in '"@ + path + "'"@),
                Some(end) => {
                    let name = after.subrange(0, end);
                    if name.len() == 0 {
                        Err("empty path parameter in '"@ + path + "'"@)
                    } else {
                        match template_names_from(
                            path,
                            after.subrange(end + 1, after.len() as int),
                        ) {
                            Ok(more) => Ok(seq![name] + more),
                            Err(e) => Err(e),
                        }
                    }
                },
            }
        },
    }
}

/// The names between braces in a path template.
pub open spec fn template_names(path: Seq<char>) -> Result<Seq<Seq<char>>, Seq<char>> {
    template_names_from(path, path)
}

/// The names of the `{...}` segments of a path template, in order.
pub fn path_template_names(path: &Vec<char>) -> (r: Result<Vec<Vec<char>>, Vec<char>>)
    ensures
        match template_names(path@) {
            Ok(names) => r is Ok && texts_view(r->Ok_0@) == names,
            Err(e) => r is Err && r->Err_0@ == e,
        },
{
    let mut names: Vec<Vec<char>> = Vec::new();
    let mut rest = copy_chars(path);
    loop
        invariant
            match template_names(path@) {
                Ok(all) => match template_names_from(path@, rest@) {
                    Ok(more) => all == texts_view(names@) + more,
                    Err(_) => false,
                },
                Err(e) => template_names_from(path@, rest@) == Err::<Seq<Seq<char>>, Seq<char>>(
                    e,
                ),
            },
        decreases rest.len(),
    {
        proof {
            lemma_index_of_from(rest@, '{', 0);
        }
        let start = match find_char_from(&rest, '{', 0) {
            Some(s) => s,
            None => {
                assert(texts_view(names@) + Seq::<Seq<char>>::empty() =~= texts_view(names@));
                return Ok(names);
            },
        };
        let after = slice_chars(&rest, start + 1, rest.len());
        proof {
            lemma_index_of_from(after@, '}', 0);
        }
        let end = match find_char_from(&after, '}', 0) {
            Some(e) => e,
            None => {
                let mut m = chars_of("unclosed path parameter in '");
                push_all(&mut m, path);
                push_str(&mut m, "'");
                return Err(m);
            },
        };
        let name = slice_chars(&after, 0, end);
        if name.len() == 0 {
            let mut m = chars_of("empty path parameter in '");
            push_all(&mut m, path);
            push_str(&mut m, "'");
            return Err(m);
        }
        let ghost old_names = names@;
        names.push(name);
        proof {
            assert(texts_view(names@) =~= texts_view(old_names).push(name@));
            let more = template_names_from(path@, after@.subrange(end + 1, after@.len() as int));
            match more {
                Ok(mm) => {
                    assert(texts_view(old_names) + (seq![name@] + mm) =~= texts_view(names@) + mm);
                },
                Err(_) => {},
            }
        }
        rest = slice_chars(&after, end + 1, after.len());
    }
}

// ---------------------------------------------------------------------------
// Reading parts of validated objects.

/// A field that is present and not `null` (what `Option` fields read).
pub open spec fn present(v: JsonV, name: Seq<char>) -> Option<JsonV> {
    match json_get(v, name) {
        Some(JsonV::Null) => None,
        other => other,
    }
}

/// The `parameters` list of a path item or operation.
pub open spec fn params_of(v: JsonV) -> Seq<JsonV> {
    match json_get(v, "parameters"@) {
        Some(JsonV::Array(items)) => items,
        _ => Seq::empty(),
    }
}

/// The `responses` map of an operation.
pub open spec fn responses_of(v: JsonV) -> Seq<(Seq<char>, JsonV)> {
    match json_get(v, "responses"@) {
        Some(JsonV::Object(m)) => m,
        _ => Seq::empty(),
    }
}

/// The operation under one method name, with its upper-case name.
pub open spec fn method_entry(v: JsonV, upper: Seq<char>, lower: Seq<char>) -> Seq<
    (Seq<char>, JsonV),
> {
    match present(v, lower) {
        Some(x) => seq![(upper, x)],
        None => Seq::empty(),
    }
}

/// The operations of a path item in the order GET, POST, PUT, PATCH, DELETE,
/// HEAD, OPTIONS, TRACE.
pub open spec fn methods(v: JsonV) -> Seq<(Seq<char>, JsonV)> {
    method_entry(v, "GET"@, "get"@) + method_entry(v, "POST"@, "post"@) + method_entry(
        v,
        "PUT"@,
        "put"@,
    ) + method_entry(v, "PATCH"@, "patch"@) + method_entry(v, "DELETE"@, "delete"@)
        + method_entry(v, "HEAD"@, "head"@) + method_entry(v, "OPTIONS"@, "options"@)
        + method_entry(v, "TRACE"@, "trace"@)
}

pub fn exec_present<'a>(v: &'a Json, name: &str) -> (r: Option<&'a Json>)
    ensures
        match present(v@, name@) {
            Some(x) => r is Some && r->0@ == x,
            None => r is None,
        },
{
    match get_field(v, name) {
        Some(Json::Null) => None,
        other => other,
    }
}

fn push_method<'a>(
    out: &mut Vec<(Vec<char>, &'a Json)>,
    v: &'a Json,
    upper: &str,
    lower: &str,
)
    ensures
        op_refs_view(final(out)@) == op_refs_view(old(out)@) + method_entry(v@, upper@, lower@),
{
    let ghost before = out@;
    match exec_present(v, lower) {
        Some(x) => {
            out.push((chars_of(upper), x));
            assert(op_refs_view(out@) =~= op_refs_view(before) + method_entry(v@, upper@, lower@));
        },
        None => {
            assert(op_refs_view(out@) =~= op_refs_view(before) + method_entry(v@, upper@, lower@));
        },
    }
}

/// Views of method/operation pairs.
pub open spec fn op_refs_view(s: Seq<(Vec<char>, &Json)>) -> Seq<(Seq<char>, JsonV)> {
    s.map_values(|e: (Vec<char>, &Json)| (e.0@, e.1@))
}

/// The operations of a path item, in method order.
fn exec_methods<'a>(v: &'a Json) -> (r: Vec<(Vec<char>, &'a Json)>)
    ensures
        op_refs_view(r@) == methods(v@),
{
    let mut out: Vec<(Vec<char>, &'a Json)> = Vec::new();
    assert(op_refs_view(out@) =~= Seq::<(Seq<char>, JsonV)>::empty());
    push_method(&mut out, v, "GET", "get");
    push_method(&mut out, v, "POST", "post");
    push_method(&mut out, v, "PUT", "put");
    push_method(&mut out, v, "PATCH", "patch");
    push_method(&mut out, v, "DELETE", "delete");
    push_method(&mut out, v, "HEAD", "head");
    push_method(&mut out, v, "OPTIONS", "options");
    push_method(&mut out, v, "TRACE", "trace");
    assert(op_refs_view(out@) =~= methods(v@));
    out
}

fn exec_params_of<'a>(v: &'a Json) -> (r: Option<&'a Vec<Json>>)
    ensures
        match r {
            Some(items) => items_view(items@) == params_of(v@),
            None => params_of(v@) == Seq::<JsonV>::empty(),
        },
{
    match get_field(v, "parameters") {
        Some(Json::Array(items)) => Some(items),
        _ => None,
    }
}

// ---------------------------------------------------------------------------
// References.

/// What a local `$ref` points at, or the error for an external or unresolved one.
pub open spec fn deref(doc: JsonV, reference: Seq<char>, what: Seq<char>) -> Result<JsonV, ErrorV> {
    if reference.len() == 0 || reference[0] != '#' {
        Err(
            ErrorV::Spec {
                message: "external $ref '"@ + reference
                    + "' is not supported in v0.1 (only local '#/...' pointers)"@,
            },
        )
    } else {
        match json_pointer(doc, reference.drop_first()) {
            Some(x) => Ok(x),
            None => Err(
                ErrorV::Spec {
                    message: "unresolved $ref '"@ + reference + "' while reading "@ + what,
                },
            ),
        }
    }
}

pub proof fn lemma_deref_strings(doc: JsonV, reference: Seq<char>, what: Seq<char>)
    requires
        deref(doc, reference, what) is Ok,
    ensures
        json_strings(deref(doc, reference, what)->Ok_0).subset_of(json_strings(doc)),
{
    lemma_pointer_strings(doc, reference.drop_first());
}

/// Resolves a `$ref` into the document.
pub fn pointer<'a>(doc: &'a Json, reference: &Vec<char>, what: &str) -> (r: Result<&'a Json, Error>)
    ensures
        match deref(doc@, reference@, what@) {
            Ok(x) => r is Ok && r->Ok_0@ == x,
            Err(e) => r is Err && r->Err_0@ == e,
        },
{
    if reference.len() == 0 || reference[0] != '#' {
        let mut m = chars_of("external $ref '");
        push_all(&mut m, reference);
        push_str(&mut m, "' is not supported in v0.1 (only local '#/...' pointers)");
        return Err(Error::spec(&m));
    }
    let p = slice_chars(reference, 1, reference.len());
    assert(p@ =~= reference@.drop_first());
    match json_pointer_get(doc, &p) {
        Some(x) => Ok(x),
        None => {
            let mut m = chars_of("unresolved $ref '");
            push_all(&mut m, reference);
            push_str(&mut m, "' while reading ");
            push_str(&mut m, what);
            Err(Error::spec(&m))
        },
    }
}

/// The cycle message.
pub open spec fn cyclic(reference: Seq<char>) -> ErrorV {
    ErrorV::Spec { message: "cyclic $ref '"@ + reference + "'"@ }
}

/// The message for a `$ref` target that does not decode.
pub open spec fn undecodable(what: Seq<char>, reference: Seq<char>, msg: Seq<char>) -> ErrorV {
    ErrorV::Spec { message: "could not decode "@ + what + " $ref '"@ + reference + "': "@ + msg }
}

/// The message for a path item `$ref` with siblings.
pub open spec fn siblings(reference: Seq<char>) -> ErrorV {
    ErrorV::Spec {
        message: "path item $ref '"@ + reference
            + "' is combined with local operations or parameters; spechurl v0.1 does not merge those siblings"@,
    }
}

/// A path item with its `$ref` chain followed.
pub open spec fn resolve_path_item(doc: JsonV, v: JsonV, stack: Seq<Seq<char>>) -> Result<
    JsonV,
    ErrorV,
>
    decreases ref_measure(doc, v, stack),
{
    match ref_target(v) {
        None => Ok(v),
        Some(r) => if methods(v).len() > 0 || params_of(v).len() > 0 {
            Err(siblings(r))
        } else if stack.contains(r) {
            Err(cyclic(r))
        } else {
            match deref(doc, r, "path item"@) {
                Err(e) => Err(e),
                Ok(x) => match check_path_item(x) {
                    Some(m) => Err(undecodable("path item"@, r, m)),
                    None => {
                        proof {
                            lemma_deref_strings(doc, r, "path item"@);
                            lemma_ref_measure_decreases(doc, v, stack, x);
                        }
                        resolve_path_item(doc, x, stack.push(r))
                    },
                },
            }
        },
    }
}

/// A parameter, request body or response with its `$ref` chain followed.
pub open spec fn resolve_ref(
    k: Kind,
    doc: JsonV,
    v: JsonV,
    stack: Seq<Seq<char>>,
    what: Seq<char>,
) -> Result<JsonV, ErrorV>
    decreases ref_measure(doc, v, stack),
{
    match ref_target(v) {
        None => Ok(v),
        Some(r) => if stack.contains(r) {
            Err(cyclic(r))
        } else {
            match deref(doc, r, what) {
                Err(e) => Err(e),
                Ok(x) => match check_ref_or(k, x) {
                    Some(m) => Err(undecodable(what, r, m)),
                    None => {
                        proof {
                            lemma_deref_strings(doc, r, what);
                            lemma_ref_measure_decreases(doc, v, stack, x);
                        }
                        resolve_ref(k, doc, x, stack.push(r), what)
                    },
                },
            }
        },
    }
}

/// Every parameter of a list resolved, each with a fresh chain; the first error wins.
pub open spec fn resolve_params(doc: JsonV, s: Seq<JsonV>) -> Result<Seq<JsonV>, ErrorV>
    decreases s.len(),
{
    if s.len() == 0 {
        Ok(Seq::empty())
    } else {
        match resolve_params(doc, s.drop_last()) {
            Err(e) => Err(e),
            Ok(prev) => match resolve_ref(Kind::Parameter, doc, s.last(), Seq::empty(), "parameter"@) {
                Err(e) => Err(e),
                Ok(x) => Ok(prev.push(x)),
            },
        }
    }
}

pub fn stack_has(stack: &Vec<Vec<char>>, r: &Vec<char>) -> (b: bool)
    ensures
        b == texts_view(stack@).contains(r@),
{
    let mut i: usize = 0;
    while i < stack.len()
        invariant
            i <= stack.len(),
            forall|j: int| 0 <= j < i ==> stack@[j]@ != r@,
        decreases stack.len() - i,
    {
        if chars_eq(&stack[i], r) {
            assert(texts_view(stack@)[i as int] == r@);
            return true;
        }
        i += 1;
    }
    proof {
        if texts_view(stack@).contains(r@) {
            let j = choose|j: int| 0 <= j < texts_view(stack@).len() && texts_view(stack@)[j] == r@;
            assert(stack@[j]@ == r@);
        }
    }
    false
}

pub fn cyclic_error(r: &Vec<char>) -> (e: Error)
    ensures
        e@ == cyclic(r@),
{
    let mut m = chars_of("cyclic $ref '");
    push_all(&mut m, r);
    push_str(&mut m, "'");
    Error::spec(&m)
}

fn undecodable_error(what: &str, r: &Vec<char>, msg: &Vec<char>) -> (e: Error)
    ensures
        e@ == undecodable(what@, r@, msg@),
{
    let mut m = chars_of("could not decode ");
    push_str(&mut m, what);
    push_str(&mut m, " $ref '");
    push_all(&mut m, r);
    push_str(&mut m, "': ");
    push_all(&mut m, msg);
    Error::spec(&m)
}

fn exec_resolve_path_item(doc: &Json, v: &Json, stack: Vec<Vec<char>>) -> (r: Result<Json, Error>)
    ensures
        json_res(r) == resolve_path_item(doc@, v@, texts_view(stack@)),
    decreases ref_measure(doc@, v@, texts_view(stack@)),
{
    let reference = match exec_ref_target(v) {
        None => {
            return Ok(copy_json(v));
        },
        Some(r) => r,
    };
    let ms = exec_methods(v);
    let has_params = match exec_params_of(v) {
        Some(items) => items.len() > 0,
        None => false,
    };
    if ms.len() > 0 || has_params {
        let mut m = chars_of("path item $ref '");
        push_all(&mut m, &reference);
        push_str(
            &mut m,
            "' is combined with local operations or parameters; spechurl v0.1 does not merge those siblings",
        );
        return Err(Error::spec(&m));
    }
    if stack_has(&stack, &reference) {
        return Err(cyclic_error(&reference));
    }
    let x = match pointer(doc, &reference, "path item") {
        Ok(x) => x,
        Err(e) => {
            return Err(e);
        },
    };
    match check_path_item_value(x) {
        Some(m) => {
            return Err(undecodable_error("path item", &reference, &m));
        },
        None => {},
    }
    proof {
        lemma_deref_strings(doc@, reference@, "path item"@);
        lemma_ref_measure_decreases(doc@, v@, texts_view(stack@), x@);
    }
    let mut next = stack;
    let ghost before = next@;
    next.push(copy_chars(&reference));
    assert(texts_view(next@) =~= texts_view(before).push(reference@));
    exec_resolve_path_item(doc, x, next)
}

fn exec_resolve_ref(k: Kind, doc: &Json, v: &Json, stack: Vec<Vec<char>>, what: &str) -> (r: Result<
    Json,
    Error,
>)
    ensures
        json_res(r) == resolve_ref(k, doc@, v@, texts_view(stack@), what@),
    decreases ref_measure(doc@, v@, texts_view(stack@)),
{
    let reference = match exec_ref_target(v) {
        None => {
            return Ok(copy_json(v));
        },
        Some(r) => r,
    };
    if stack_has(&stack, &reference) {
        return Err(cyclic_error(&reference));
    }
    let x = match pointer(doc, &reference, what) {
        Ok(x) => x,
        Err(e) => {
            return Err(e);
        },
    };
    let kk = match k {
        Kind::Parameter => Kind::Parameter,
        Kind::RequestBody => Kind::RequestBody,
        Kind::Response => Kind::Response,
    };
    match check_ref_or_value(kk, x) {
        Some(m) => {
            return Err(undecodable_error(what, &reference, &m));
        },
        None => {},
    }
    proof {
        lemma_deref_strings(doc@, reference@, what@);
        lemma_ref_measure_decreases(doc@, v@, texts_view(stack@), x@);
    }
    let mut next = stack;
    let ghost before = next@;
    next.push(copy_chars(&reference));
    assert(texts_view(next@) =~= texts_view(before).push(reference@));
    exec_resolve_ref(k, doc, x, next, what)
}

fn exec_resolve_params(doc: &Json, items: &Vec<Json>) -> (r: Result<Vec<Json>, Error>)
    ensures
        match resolve_params(doc@, items_view(items@)) {
            Ok(xs) => r is Ok && items_view(r->Ok_0@) == xs,
            Err(e) => r is Err && r->Err_0@ == e,
        },
{
    let mut out: Vec<Json> = Vec::new();
    let ghost s = items_view(items@);
    let mut i: usize = 0;
    while i < items.len()
        invariant
            i <= items.len(),
            s == items_view(items@),
            resolve_params(doc@, s.subrange(0, i as int)) == Ok::<Seq<JsonV>, ErrorV>(
                items_view(out@),
            ),
        decreases items.len() - i,
    {
        assert(s.subrange(0, i + 1).drop_last() =~= s.subrange(0, i as int));
        let empty: Vec<Vec<char>> = Vec::new();
        assert(texts_view(empty@) =~= Seq::<Seq<char>>::empty());
        match exec_resolve_ref(Kind::Parameter, doc, &items[i], empty, "parameter") {
            Ok(x) => {
                let ghost prev = out@;
                out.push(x);
                assert(out@.drop_last() =~= prev);
            },
            Err(e) => {
                proof {
                    lemma_params_error_persists(doc@, s, i as int + 1, e@);
                }
                return Err(e);
            },
        }
        i += 1;
    }
    assert(s.subrange(0, i as int) =~= s);
    Ok(out)
}

proof fn lemma_params_error_persists(doc: JsonV, s: Seq<JsonV>, n: int, e: ErrorV)
    requires
        0 <= n <= s.len(),
        resolve_params(doc, s.subrange(0, n)) == Err::<Seq<JsonV>, ErrorV>(e),
    ensures
        resolve_params(doc, s) == Err::<Seq<JsonV>, ErrorV>(e),
    decreases s.len() - n,
{
    if n < s.len() {
        assert(s.subrange(0, n + 1).drop_last() =~= s.subrange(0, n));
        lemma_params_error_persists(doc, s, n + 1, e);
    } else {
        assert(s.subrange(0, n) =~= s);
    }
}

// ---------------------------------------------------------------------------
// Parameters.

/// A parameter's location (`in`).
pub open spec fn param_in(p: JsonV) -> Seq<char> {
    match json_get(p, "in"@) {
        Some(JsonV::Str(s)) => s,
        _ => Seq::empty(),
    }
}

/// A parameter's name.
pub open spec fn param_name(p: JsonV) -> Seq<char> {
    match json_get(p, "name"@) {
        Some(JsonV::Str(s)) => s,
        _ => Seq::empty(),
    }
}

fn exec_param_text(p: &Json, field: &str) -> (r: Vec<char>)
    ensures
        r@ == match json_get(p@, field@) {
            Some(JsonV::Str(s)) => s,
            _ => Seq::empty(),
        },
{
    match get_field(p, field) {
        Some(Json::Str(s)) => copy_chars(s),
        _ => Vec::new(),
    }
}

/// A parameter's location.
pub fn exec_param_in(p: &Json) -> (r: Vec<char>)
    ensures
        r@ == param_in(p@),
{
    exec_param_text(p, "in")
}

/// A parameter's name.
pub fn exec_param_name(p: &Json) -> (r: Vec<char>)
    ensures
        r@ == param_name(p@),
{
    exec_param_text(p, "name")
}

/// Whether two parameters are the same one (same location and name).
pub open spec fn same_param(a: JsonV, b: JsonV) -> bool {
    param_in(a) == param_in(b) && param_name(a) == param_name(b)
}

/// The first index at or after `k` holding the same parameter as `p`.
pub open spec fn find_same(merged: Seq<JsonV>, p: JsonV, k: int) -> Option<int>
    decreases merged.len() - k,
{
    if k < 0 || k >= merged.len() {
        None
    } else if same_param(merged[k], p) {
        Some(k)
    } else {
        find_same(merged, p, k + 1)
    }
}

/// Adds a parameter: it replaces the first one with the same location and name,
/// or else goes at the end.
pub open spec fn merge_one(merged: Seq<JsonV>, p: JsonV) -> Seq<JsonV> {
    match find_same(merged, p, 0) {
        Some(k) => merged.update(k, p),
        None => merged.push(p),
    }
}

/// Parameters added one by one, in order.
pub open spec fn merge_all(s: Seq<JsonV>) -> Seq<JsonV>
    decreases s.len(),
{
    if s.len() == 0 {
        Seq::empty()
    } else {
        merge_one(merge_all(s.drop_last()), s.last())
    }
}

/// Path-level parameters followed by operation-level ones; an operation-level
/// parameter overrides a path-level one with the same location and name.
pub open spec fn merge_parameters(path_params: Seq<JsonV>, op_params: Seq<JsonV>) -> Seq<JsonV> {
    merge_all(path_params + op_params)
}

proof fn lemma_find_same(merged: Seq<JsonV>, p: JsonV, k: int)
    requires
        0 <= k,
    ensures
        find_same(merged, p, k) matches Some(j) ==> k <= j < merged.len() && same_param(
            merged[j],
            p,
        ),
        find_same(merged, p, k) is None ==> forall|j: int|
            k <= j < merged.len() ==> !same_param(#[trigger] merged[j], p),
    decreases merged.len() - k,
{
    if k < merged.len() && !same_param(merged[k], p) {
        lemma_find_same(merged, p, k + 1);
    }
}

fn merge_into(merged: &mut Vec<Json>, p: Json)
    ensures
        items_view(final(merged)@) == merge_one(items_view(old(merged)@), p@),
{
    let ghost m = items_view(merged@);
    let loc = exec_param_in(&p);
    let name = exec_param_name(&p);
    let mut k: usize = 0;
    while k < merged.len()
        invariant
            k <= merged.len(),
            m == items_view(merged@),
            merged@ == old(merged)@,
            loc@ == param_in(p@),
            name@ == param_name(p@),
            find_same(m, p@, 0) == find_same(m, p@, k as int),
        decreases merged.len() - k,
    {
        let l2 = exec_param_in(&merged[k]);
        let n2 = exec_param_name(&merged[k]);
        if chars_eq(&l2, &loc) && chars_eq(&n2, &name) {
            assert(find_same(m, p@, k as int) == Some(k as int));
            let ghost pv = p@;
            merged.set(k, p);
            assert(items_view(merged@) =~= m.update(k as int, pv));
            return;
        }
        k += 1;
    }
    let ghost pv = p@;
    merged.push(p);
    assert(items_view(merged@) =~= m.push(pv));
}

/// Merges path-level and operation-level parameters.
pub fn exec_merge_parameters(path_params: &Vec<Json>, op_params: Vec<Json>) -> (r: Vec<Json>)
    ensures
        items_view(r@) == merge_parameters(items_view(path_params@), items_view(op_params@)),
{
    let ghost all = items_view(path_params@) + items_view(op_params@);
    let mut merged: Vec<Json> = Vec::new();
    let mut i: usize = 0;
    while i < path_params.len()
        invariant
            i <= path_params.len(),
            all == items_view(path_params@) + items_view(op_params@),
            items_view(merged@) == merge_all(all.subrange(0, i as int)),
        decreases path_params.len() - i,
    {
        assert(all.subrange(0, i + 1).drop_last() =~= all.subrange(0, i as int));
        assert(all[i as int] == path_params@[i as int]@);
        merge_into(&mut merged, copy_json(&path_params[i]));
        i += 1;
    }
    let n = path_params.len();
    let mut j: usize = 0;
    while j < op_params.len()
        invariant
            j <= op_params.len(),
            n == path_params.len(),
            all == items_view(path_params@) + items_view(op_params@),
            items_view(merged@) == merge_all(all.subrange(0, n + j)),
        decreases op_params.len() - j,
    {
        assert(all.subrange(0, n + j + 1).drop_last() =~= all.subrange(0, n + j));
        assert(all[n + j] == op_params@[j as int]@);
        merge_into(&mut merged, copy_json(&op_params[j]));
        j += 1;
    }
    assert(all.subrange(0, n + j) =~= all);
    merged
}

/// Whether a location is one that parameters may have.
pub open spec fn location_ok(l: Seq<char>) -> bool {
    l == "path"@ || l == "query"@ || l == "header"@ || l == "cookie"@
}

/// The problem with one parameter, if any.
pub open spec fn param_problem(context: Seq<char>, p: JsonV) -> Option<Seq<char>> {
    let loc = param_in(p);
    let name = param_name(p);
    if !location_ok(loc) {
        Some(
            context + ": parameter '"@ + name + "' has unsupported location '"@ + loc
                + "' (expected path, query, header, or cookie)"@,
        )
    } else if name.len() == 0 {
        Some(context + ": a parameter is missing its name"@)
    } else if loc == "header"@ && !token(name) {
        Some(context + ": header parameter '"@ + name + "' is not a valid HTTP header name"@)
    } else {
        None
    }
}

/// The first problem among parameters, in order.
pub open spec fn params_problem(context: Seq<char>, s: Seq<JsonV>) -> Option<Seq<char>>
    decreases s.len(),
{
    if s.len() == 0 {
        None
    } else {
        crate::decode::first(params_problem(context, s.drop_last()), param_problem(context, s.last()))
    }
}

/// Whether a path parameter with this name is documented.
pub open spec fn documented(params: Seq<JsonV>, name: Seq<char>) -> bool {
    exists|i: int| 0 <= i < params.len() && param_in(#[trigger] params[i]) == "path"@ && param_name(params[i]) == name
}

/// The first template name without a path parameter.
pub open spec fn undocumented(context: Seq<char>, params: Seq<JsonV>, names: Seq<Seq<char>>) -> Option<
    Seq<char>,
>
    decreases names.len(),
{
    if names.len() == 0 {
        None
    } else {
        crate::decode::first(
            undocumented(context, params, names.drop_last()),
            if documented(params, names.last()) {
                None
            } else {
                Some(context + ": path parameter '{"@ + names.last() + "}' is not documented"@)
            },
        )
    }
}

/// The first path parameter whose name is not in the template.
pub open spec fn stray(context: Seq<char>, params: Seq<JsonV>, names: Seq<Seq<char>>) -> Option<
    Seq<char>,
>
    decreases params.len(),
{
    if params.len() == 0 {
        None
    } else {
        crate::decode::first(
            stray(context, params.drop_last(), names),
            if param_in(params.last()) == "path"@ && !names.contains(param_name(params.last())) {
                Some(
                    context + ": path parameter '"@ + param_name(params.last())
                        + "' does not appear in the path template"@,
                )
            } else {
                None
            },
        )
    }
}

/// The first problem with an operation's parameters: an invalid parameter, a
/// malformed template, a template name that no path parameter documents, or a
/// path parameter that the template does not name.
pub open spec fn parameters_problem(context: Seq<char>, path: Seq<char>, params: Seq<JsonV>) -> Option<
    Seq<char>,
> {
    crate::decode::first(
        params_problem(context, params),
        match template_names(path) {
            Err(m) => Some(context + ": "@ + m),
            Ok(names) => crate::decode::first(
                undocumented(context, params, names),
                stray(context, params, names),
            ),
        },
    )
}

fn exec_param_problem(context: &Vec<char>, p: &Json) -> (r: Option<Vec<char>>)
    ensures
        msg_view(r) == param_problem(context@, p@),
{
    let loc = exec_param_in(p);
    let name = exec_param_name(p);
    let ok = chars_eq_str(&loc, "path") || chars_eq_str(&loc, "query") || chars_eq_str(
        &loc,
        "header",
    ) || chars_eq_str(&loc, "cookie");
    if !ok {
        let mut m = copy_chars(context);
        push_str(&mut m, ": parameter '");
        push_all(&mut m, &name);
        push_str(&mut m, "' has unsupported location '");
        push_all(&mut m, &loc);
        push_str(&mut m, "' (expected path, query, header, or cookie)");
        return Some(m);
    }
    if name.len() == 0 {
        let mut m = copy_chars(context);
        push_str(&mut m, ": a parameter is missing its name");
        return Some(m);
    }
    if chars_eq_str(&loc, "header") && !is_token(&name) {
        let mut m = copy_chars(context);
        push_str(&mut m, ": header parameter '");
        push_all(&mut m, &name);
        push_str(&mut m, "' is not a valid HTTP header name");
        return Some(m);
    }
    None
}

fn exec_documented(params: &Vec<Json>, name: &Vec<char>) -> (r: bool)
    ensures
        r == documented(items_view(params@), name@),
{
    let ghost s = items_view(params@);
    let mut i: usize = 0;
    while i < params.len()
        invariant
            i <= params.len(),
            s == items_view(params@),
            forall|j: int| 0 <= j < i ==> !(param_in(#[trigger] s[j]) == "path"@ && param_name(s[j]) == name@),
        decreases params.len() - i,
    {
        let l = exec_param_in(&params[i]);
        let n = exec_param_name(&params[i]);
        if chars_eq_str(&l, "path") && chars_eq(&n, name) {
            assert(param_in(s[i as int]) == "path"@);
            return true;
        }
        i += 1;
    }
    false
}

fn exec_names_contain(names: &Vec<Vec<char>>, name: &Vec<char>) -> (r: bool)
    ensures
        r == texts_view(names@).contains(name@),
{
    stack_has(names, name)
}

/// Checks an operation's parameters against each other and its path template.
pub fn validate_parameters(context: &Vec<char>, path: &Vec<char>, params: &Vec<Json>) -> (r: Option<Vec<char>>)
    ensures
        msg_view(r) == parameters_problem(context@, path@, items_view(params@)),
{
    let ghost s = items_view(params@);
    let mut i: usize = 0;
    while i < params.len()
        invariant
            i <= params.len(),
            s == items_view(params@),
            params_problem(context@, s.subrange(0, i as int)) is None,
        decreases params.len() - i,
    {
        assert(s.subrange(0, i + 1).drop_last() =~= s.subrange(0, i as int));
        let e = exec_param_problem(context, &params[i]);
        if e.is_some() {
            proof {
                lemma_params_problem_prefix(context@, s, i as int + 1);
            }
            return e;
        }
        i += 1;
    }
    assert(s.subrange(0, i as int) =~= s);
    let names = match path_template_names(path) {
        Ok(n) => n,
        Err(msg) => {
            let mut m = copy_chars(context);
            push_str(&mut m, ": ");
            push_all(&mut m, &msg);
            return Some(m);
        },
    };
    let ghost ns = texts_view(names@);
    let mut k: usize = 0;
    while k < names.len()
        invariant
            k <= names.len(),
            ns == texts_view(names@),
            s == items_view(params@),
            params_problem(context@, s) is None,
            template_names(path@) == Ok::<Seq<Seq<char>>, Seq<char>>(ns),
            undocumented(context@, s, ns.subrange(0, k as int)) is None,
        decreases names.len() - k,
    {
        assert(ns.subrange(0, k + 1).drop_last() =~= ns.subrange(0, k as int));
        assert(ns.subrange(0, k + 1).last() == names@[k as int]@);
        if !exec_documented(params, &names[k]) {
            let mut m = copy_chars(context);
            push_str(&mut m, ": path parameter '{");
            push_all(&mut m, &names[k]);
            push_str(&mut m, "}' is not documented");
            proof {
                lemma_undocumented_prefix(context@, s, ns, k as int + 1);
            }
            return Some(m);
        }
        k += 1;
    }
    assert(ns.subrange(0, k as int) =~= ns);
    let mut i: usize = 0;
    while i < params.len()
        invariant
            i <= params.len(),
            ns == texts_view(names@),
            s == items_view(params@),
            params_problem(context@, s) is None,
            template_names(path@) == Ok::<Seq<Seq<char>>, Seq<char>>(ns),
            undocumented(context@, s, ns) is None,
            stray(context@, s.subrange(0, i as int), ns) is None,
        decreases params.len() - i,
    {
        assert(s.subrange(0, i + 1).drop_last() =~= s.subrange(0, i as int));
        let l = exec_param_in(&params[i]);
        let n = exec_param_name(&params[i]);
        if chars_eq_str(&l, "path") && !exec_names_contain(&names, &n) {
            let mut m = copy_chars(context);
            push_str(&mut m, ": path parameter '");
            push_all(&mut m, &n);
            push_str(&mut m, "' does not appear in the path template");
            proof {
                lemma_stray_prefix(context@, s, ns, i as int + 1);
            }
            return Some(m);
        }
        i += 1;
    }
    assert(s.subrange(0, i as int) =~= s);
    None
}

proof fn lemma_params_problem_prefix(context: Seq<char>, s: Seq<JsonV>, n: int)
    requires
        0 <= n <= s.len(),
        params_problem(context, s.subrange(0, n)) is Some,
    ensures
        params_problem(context, s) == params_problem(context, s.subrange(0, n)),
    decreases s.len() - n,
{
    if n < s.len() {
        assert(s.subrange(0, n + 1).drop_last() =~= s.subrange(0, n));
        lemma_params_problem_prefix(context, s, n + 1);
    } else {
        assert(s.subrange(0, n) =~= s);
    }
}

proof fn lemma_undocumented_prefix(context: Seq<char>, s: Seq<JsonV>, ns: Seq<Seq<char>>, n: int)
    requires
        0 <= n <= ns.len(),
        undocumented(context, s, ns.subrange(0, n)) is Some,
    ensures
        undocumented(context, s, ns) == undocumented(context, s, ns.subrange(0, n)),
    decreases ns.len() - n,
{
    if n < ns.len() {
        assert(ns.subrange(0, n + 1).drop_last() =~= ns.subrange(0, n));
        lemma_undocumented_prefix(context, s, ns, n + 1);
    } else {
        assert(ns.subrange(0, n) =~= ns);
    }
}

proof fn lemma_stray_prefix(context: Seq<char>, s: Seq<JsonV>, ns: Seq<Seq<char>>, n: int)
    requires
        0 <= n <= s.len(),
        stray(context, s.subrange(0, n), ns) is Some,
    ensures
        stray(context, s, ns) == stray(context, s.subrange(0, n), ns),
    decreases s.len() - n,
{
    if n < s.len() {
        assert(s.subrange(0, n + 1).drop_last() =~= s.subrange(0, n));
        lemma_stray_prefix(context, s, ns, n + 1);
    } else {
        assert(s.subrange(0, n) =~= s);
    }
}

// ---------------------------------------------------------------------------
// Operations.

/// The request body of an operation, when present and not `null`.
pub open spec fn body_of(raw: JsonV) -> Option<JsonV> {
    present(raw, "requestBody"@)
}

/// The request body resolved.
pub open spec fn resolve_body(doc: JsonV, context: Seq<char>, b: Option<JsonV>) -> Result<
    Option<JsonV>,
    ErrorV,
> {
    match b {
        None => Ok(None),
        Some(x) => match resolve_ref(Kind::RequestBody, doc, x, Seq::empty(), "request body"@) {
            Err(e) => Err(with_context(e, context + " request body"@)),
            Ok(y) => Ok(Some(y)),
        },
    }
}

/// Every response resolved, in status order; the first error wins.
pub open spec fn resolve_responses(
    doc: JsonV,
    context: Seq<char>,
    m: Seq<(Seq<char>, JsonV)>,
) -> Result<Seq<(Seq<char>, JsonV)>, ErrorV>
    decreases m.len(),
{
    if m.len() == 0 {
        Ok(Seq::empty())
    } else {
        match resolve_responses(doc, context, m.drop_last()) {
            Err(e) => Err(e),
            Ok(prev) => match resolve_ref(Kind::Response, doc, m.last().1, Seq::empty(), "response"@) {
                Err(e) => Err(with_context(e, context + " response "@ + m.last().0)),
                Ok(x) => Ok(prev.push((m.last().0, x))),
            },
        }
    }
}

/// One operation of a path, built from its raw object.
pub open spec fn build_operation(
    doc: JsonV,
    path: Seq<char>,
    path_params: Seq<JsonV>,
    method: Seq<char>,
    raw: JsonV,
) -> Result<OperationV, ErrorV> {
    let context = method + " "@ + path;
    if responses_of(raw).len() == 0 {
        Err(ErrorV::Spec { message: context + ": operation is missing responses"@ })
    } else {
        match resolve_params(doc, params_of(raw)) {
            Err(e) => Err(with_context(e, context)),
            Ok(op_params) => {
                let merged = merge_parameters(path_params, op_params);
                match parameters_problem(context, path, merged) {
                    Some(m) => Err(ErrorV::Spec { message: m }),
                    None => match resolve_body(doc, context, body_of(raw)) {
                        Err(e) => Err(e),
                        Ok(b) => match resolve_responses(doc, context, responses_of(raw)) {
                            Err(e) => Err(e),
                            Ok(rs) => Ok(
                                OperationV {
                                    method,
                                    path,
                                    raw,
                                    parameters: merged,
                                    request_body: b,
                                    responses: rs,
                                },
                            ),
                        },
                    },
                }
            },
        }
    }
}

/// The operations under a list of methods, in order.
pub open spec fn method_operations(
    doc: JsonV,
    path: Seq<char>,
    path_params: Seq<JsonV>,
    ms: Seq<(Seq<char>, JsonV)>,
) -> Result<Seq<OperationV>, ErrorV>
    decreases ms.len(),
{
    if ms.len() == 0 {
        Ok(Seq::empty())
    } else {
        match method_operations(doc, path, path_params, ms.drop_last()) {
            Err(e) => Err(e),
            Ok(prev) => match build_operation(doc, path, path_params, ms.last().0, ms.last().1) {
                Err(e) => Err(e),
                Ok(op) => Ok(prev.push(op)),
            },
        }
    }
}

/// The operations of one path.
pub open spec fn path_operations(doc: JsonV, path: Seq<char>, item: JsonV) -> Result<
    Seq<OperationV>,
    ErrorV,
> {
    let context = "path '"@ + path + "'"@;
    match resolve_path_item(doc, item, Seq::empty()) {
        Err(e) => Err(with_context(e, context)),
        Ok(resolved) => match resolve_params(doc, params_of(resolved)) {
            Err(e) => Err(with_context(e, context)),
            Ok(pp) => method_operations(doc, path, pp, methods(resolved)),
        },
    }
}

/// The operations of all paths, in path order.
pub open spec fn collect(doc: JsonV, paths: Seq<(Seq<char>, JsonV)>) -> Result<
    Seq<OperationV>,
    ErrorV,
>
    decreases paths.len(),
{
    if paths.len() == 0 {
        Ok(Seq::empty())
    } else {
        match collect(doc, paths.drop_last()) {
            Err(e) => Err(e),
            Ok(prev) => match path_operations(doc, paths.last().0, paths.last().1) {
                Err(e) => Err(e),
                Ok(ops) => Ok(prev + ops),
            },
        }
    }
}

#[verifier::loop_isolation(false)]
fn exec_build_operation(
    doc: &Json,
    path: &Vec<char>,
    path_params: &Vec<Json>,
    method: &Vec<char>,
    raw: &Json,
) -> (r: Result<Operation, Error>)
    ensures
        match build_operation(doc@, path@, items_view(path_params@), method@, raw@) {
            Ok(op) => r is Ok && r->Ok_0@ == op,
            Err(e) => r is Err && r->Err_0@ == e,
        },
{
    let mut context = copy_chars(method);
    push_str(&mut context, " ");
    push_all(&mut context, path);
    let responses: &Vec<(Vec<char>, Json)> = match get_field(raw, "responses") {
        Some(Json::Object(m)) => m,
        _ => {
            let mut m = copy_chars(&context);
            push_str(&mut m, ": operation is missing responses");
            return Err(Error::spec(&m));
        },
    };
    if responses.len() == 0 {
        let mut m = copy_chars(&context);
        push_str(&mut m, ": operation is missing responses");
        return Err(Error::spec(&m));
    }
    let op_params = match exec_params_of(raw) {
        Some(items) => exec_resolve_params(doc, items),
        None => {
            let v: Vec<Json> = Vec::new();
            assert(items_view(v@) =~= Seq::<JsonV>::empty());
            Ok(v)
        },
    };
    let op_params = match op_params {
        Ok(p) => p,
        Err(e) => {
            return Err(e.in_context(&context));
        },
    };
    let merged = exec_merge_parameters(path_params, op_params);
    match validate_parameters(&context, path, &merged) {
        Some(m) => {
            return Err(Error::spec(&m));
        },
        None => {},
    }
    let request_body = match exec_present(raw, "requestBody") {
        None => None,
        Some(b) => {
            let empty: Vec<Vec<char>> = Vec::new();
            assert(texts_view(empty@) =~= Seq::<Seq<char>>::empty());
            match exec_resolve_ref(Kind::RequestBody, doc, b, empty, "request body") {
                Ok(y) => Some(y),
                Err(e) => {
                    let mut c = copy_chars(&context);
                    push_str(&mut c, " request body");
                    return Err(e.in_context(&c));
                },
            }
        },
    };
    let ghost rm = entries_view(responses@);
    let mut resolved: Vec<(Vec<char>, Json)> = Vec::new();
    let mut i: usize = 0;
    while i < responses.len()
        invariant
            i <= responses.len(),
            rm == entries_view(responses@),
            resolve_responses(doc@, context@, rm.subrange(0, i as int)) == Ok::<
                Seq<(Seq<char>, JsonV)>,
                ErrorV,
            >(entries_view(resolved@)),
        decreases responses.len() - i,
    {
        assert(rm.subrange(0, i + 1).drop_last() =~= rm.subrange(0, i as int));
        let empty: Vec<Vec<char>> = Vec::new();
        assert(texts_view(empty@) =~= Seq::<Seq<char>>::empty());
        match exec_resolve_ref(Kind::Response, doc, &responses[i].1, empty, "response") {
            Ok(x) => {
                let ghost prev = resolved@;
                resolved.push((copy_chars(&responses[i].0), x));
                assert(resolved@.drop_last() =~= prev);
            },
            Err(e) => {
                let mut c = copy_chars(&context);
                push_str(&mut c, " response ");
                push_all(&mut c, &responses[i].0);
                proof {
                    lemma_responses_error_persists(
                        doc@,
                        context@,
                        rm,
                        i as int + 1,
                        with_context(e@, c@),
                    );
                }
                return Err(e.in_context(&c));
            },
        }
        i += 1;
    }
    assert(rm.subrange(0, i as int) =~= rm);
    Ok(
        Operation {
            method: copy_chars(method),
            path: copy_chars(path),
            raw: copy_json(raw),
            parameters: merged,
            request_body,
            responses: resolved,
        },
    )
}

proof fn lemma_responses_error_persists(
    doc: JsonV,
    context: Seq<char>,
    m: Seq<(Seq<char>, JsonV)>,
    n: int,
    e: ErrorV,
)
    requires
        0 <= n <= m.len(),
        resolve_responses(doc, context, m.subrange(0, n)) == Err::<
            Seq<(Seq<char>, JsonV)>,
            ErrorV,
        >(e),
    ensures
        resolve_responses(doc, context, m) == Err::<Seq<(Seq<char>, JsonV)>, ErrorV>(e),
    decreases m.len() - n,
{
    if n < m.len() {
        assert(m.subrange(0, n + 1).drop_last() =~= m.subrange(0, n));
        lemma_responses_error_persists(doc, context, m, n + 1, e);
    } else {
        assert(m.subrange(0, n) =~= m);
    }
}

#[verifier::loop_isolation(false)]
fn exec_path_operations(doc: &Json, path: &Vec<char>, item: &Json, out: &mut Vec<Operation>) -> (r: Result<(), Error>)
    ensures
        match path_operations(doc@, path@, item@) {
            Ok(ops) => r is Ok && ops_view(final(out)@) == ops_view(old(out)@) + ops,
            Err(e) => r is Err && r->Err_0@ == e,
        },
{
    let mut context = chars_of("path '");
    push_all(&mut context, path);
    push_str(&mut context, "'");
    let empty: Vec<Vec<char>> = Vec::new();
    assert(texts_view(empty@) =~= Seq::<Seq<char>>::empty());
    let resolved = match exec_resolve_path_item(doc, item, empty) {
        Ok(x) => x,
        Err(e) => {
            return Err(e.in_context(&context));
        },
    };
    let pp = match exec_params_of(&resolved) {
        Some(items) => exec_resolve_params(doc, items),
        None => {
            let v: Vec<Json> = Vec::new();
            assert(items_view(v@) =~= Seq::<JsonV>::empty());
            Ok(v)
        },
    };
    let pp = match pp {
        Ok(p) => p,
        Err(e) => {
            return Err(e.in_context(&context));
        },
    };
    let ms = exec_methods(&resolved);
    let ghost msv = op_refs_view(ms@);
    let ghost start = ops_view(out@);
    let mut i: usize = 0;
    while i < ms.len()
        invariant
            i <= ms.len(),
            msv == op_refs_view(ms@),
            msv == methods(resolved@),
            method_operations(doc@, path@, items_view(pp@), msv.subrange(0, i as int)) is Ok,
            ops_view(out@) == start + method_operations(
                doc@,
                path@,
                items_view(pp@),
                msv.subrange(0, i as int),
            )->Ok_0,
        decreases ms.len() - i,
    {
        assert(msv.subrange(0, i + 1).drop_last() =~= msv.subrange(0, i as int));
        assert(msv[i as int] == (ms@[i as int].0@, ms@[i as int].1@));
        match exec_build_operation(doc, path, &pp, &ms[i].0, ms[i].1) {
            Ok(op) => {
                let ghost prev = out@;
                let ghost ov = op@;
                out.push(op);
                proof {
                    let ops = method_operations(
                        doc@,
                        path@,
                        items_view(pp@),
                        msv.subrange(0, i as int),
                    )->Ok_0;
                    assert(ops_view(out@) =~= ops_view(prev).push(ov));
                    assert(start + ops.push(ov) =~= (start + ops).push(ov));
                }
            },
            Err(e) => {
                proof {
                    lemma_methods_error_persists(doc@, path@, items_view(pp@), msv, i as int + 1, e@);
                }
                return Err(e);
            },
        }
        i += 1;
    }
    assert(msv.subrange(0, i as int) =~= msv);
    Ok(())
}

proof fn lemma_methods_error_persists(
    doc: JsonV,
    path: Seq<char>,
    pp: Seq<JsonV>,
    ms: Seq<(Seq<char>, JsonV)>,
    n: int,
    e: ErrorV,
)
    requires
        0 <= n <= ms.len(),
        method_operations(doc, path, pp, ms.subrange(0, n)) == Err::<Seq<OperationV>, ErrorV>(e),
    ensures
        method_operations(doc, path, pp, ms) == Err::<Seq<OperationV>, ErrorV>(e),
    decreases ms.len() - n,
{
    if n < ms.len() {
        assert(ms.subrange(0, n + 1).drop_last() =~= ms.subrange(0, n));
        lemma_methods_error_persists(doc, path, pp, ms, n + 1, e);
    } else {
        assert(ms.subrange(0, n) =~= ms);
    }
}

/// Builds every operation of every path, in path order and then method order.
pub fn collect_operations(doc: &Json, paths: &Vec<(Vec<char>, Json)>) -> (r: Result<Vec<Operation>, Error>)
    ensures
        match collect(doc@, entries_view(paths@)) {
            Ok(ops) => r is Ok && ops_view(r->Ok_0@) == ops,
            Err(e) => r is Err && r->Err_0@ == e,
        },
{
    let ghost pm = entries_view(paths@);
    let mut out: Vec<Operation> = Vec::new();
    let mut i: usize = 0;
    assert(ops_view(out@) =~= Seq::<OperationV>::empty());
    while i < paths.len()
        invariant
            i <= paths.len(),
            pm == entries_view(paths@),
            collect(doc@, pm.subrange(0, i as int)) == Ok::<Seq<OperationV>, ErrorV>(ops_view(out@)),
        decreases paths.len() - i,
    {
        assert(pm.subrange(0, i + 1).drop_last() =~= pm.subrange(0, i as int));
        match exec_path_operations(doc, &paths[i].0, &paths[i].1, &mut out) {
            Ok(()) => {},
            Err(e) => {
                proof {
                    lemma_collect_error_persists(doc@, pm, i as int + 1, e@);
                }
                return Err(e);
            },
        }
        i += 1;
    }
    assert(pm.subrange(0, i as int) =~= pm);
    Ok(out)
}

proof fn lemma_collect_error_persists(doc: JsonV, m: Seq<(Seq<char>, JsonV)>, n: int, e: ErrorV)
    requires
        0 <= n <= m.len(),
        collect(doc, m.subrange(0, n)) == Err::<Seq<OperationV>, ErrorV>(e),
    ensures
        collect(doc, m) == Err::<Seq<OperationV>, ErrorV>(e),
    decreases m.len() - n,
{
    if n < m.len() {
        assert(m.subrange(0, n + 1).drop_last() =~= m.subrange(0, n));
        lemma_collect_error_persists(doc, m, n + 1, e);
    } else {
        assert(m.subrange(0, n) =~= m);
    }
}

// ---------------------------------------------------------------------------
// Loading.

/// The title in `info`.
pub open spec fn info_title(doc: JsonV) -> Seq<char> {
    match json_get(doc, "info"@) {
        Some(info) => match json_get(info, "title"@) {
            Some(JsonV::Str(s)) => s,
            _ => Seq::empty(),
        },
        None => Seq::empty(),
    }
}

/// The version in `info`, as text.
pub open spec fn info_version(doc: JsonV) -> Seq<char> {
    match json_get(doc, "info"@) {
        Some(info) => match json_get(info, "version"@) {
            Some(v) => string_or_number(v),
            None => Seq::empty(),
        },
        None => Seq::empty(),
    }
}

/// The URL of a server object.
pub open spec fn server_url(v: JsonV) -> Seq<char> {
    match json_get(v, "url"@) {
        Some(JsonV::Str(s)) => s,
        _ => Seq::empty(),
    }
}

/// The server URLs, in order.
pub open spec fn server_urls(doc: JsonV) -> Seq<Seq<char>> {
    match json_get(doc, "servers"@) {
        Some(JsonV::Array(items)) => items.map_values(|v: JsonV| server_url(v)),
        _ => Seq::empty(),
    }
}

/// The message for a Swagger 2.0 document.
pub open spec fn swagger_msg() -> Seq<char> {
    "OpenAPI 2.0 (Swagger) documents are not supported; spechurl supports OpenAPI 3.0 and 3.1"@
}

/// A parsed document checked and turned into the operations to render.
pub open spec fn load_json(path: Seq<char>, source_name: Seq<char>, doc: JsonV) -> Result<
    DocumentV,
    ErrorV,
> {
    if !(doc is Object) {
        Err(ErrorV::Parse { path, message: "document must be a YAML or JSON object"@ })
    } else if json_get(doc, "openapi"@) is None && json_get(doc, "swagger"@) is Some {
        Err(ErrorV::Spec { message: swagger_msg() })
    } else if json_get(doc, "openapi"@) is None {
        Err(ErrorV::Spec { message: "missing 'openapi' field (expected OpenAPI 3.0 or 3.1)"@ })
    } else if json_get(doc, "paths"@) is None {
        Err(ErrorV::Spec { message: "missing 'paths' object"@ })
    } else if !(json_get(doc, "paths"@)->0 is Object) {
        Err(ErrorV::Spec { message: "'paths' must be an object"@ })
    } else if !(json_get(doc, "info"@) matches Some(JsonV::Object(_))) {
        Err(ErrorV::Spec { message: "missing 'info' object"@ })
    } else {
        match check_document(doc) {
            Some(m) => Err(ErrorV::Parse { path, message: m }),
            None => {
                let openapi = string_or_number(json_get(doc, "openapi"@)->0);
                match version_error(openapi) {
                    Some(m) => Err(ErrorV::Spec { message: m }),
                    None => {
                        let paths = json_get(doc, "paths"@)->0->Object_0;
                        if paths.len() == 0 {
                            Err(
                                ErrorV::Spec {
                                    message: "spec '"@ + source_name + "' contains no paths"@,
                                },
                            )
                        } else {
                            match collect(doc, paths) {
                                Err(e) => Err(e),
                                Ok(ops) => Ok(
                                    DocumentV {
                                        source_name,
                                        openapi,
                                        title: info_title(doc),
                                        version: info_version(doc),
                                        servers: server_urls(doc),
                                        has_webhooks: json_get(doc, "webhooks"@) is Some,
                                        doc,
                                        operations: ops,
                                    },
                                ),
                            }
                        }
                    },
                }
            },
        }
    }
}

/// The text without a leading byte order mark.
pub open spec fn strip_bom(text: Seq<char>) -> Seq<char> {
    if text.len() > 0 && text[0] == '\u{feff}' {
        text.drop_first()
    } else {
        text
    }
}

/// What loading a document text gives: YAML (or JSON) parse errors and non-JSON
/// mapping keys are parse errors naming `path`; the rest is `load_json`.
pub open spec fn load_text(path: Seq<char>, source_name: Seq<char>, text: Seq<char>) -> Result<
    DocumentV,
    ErrorV,
> {
    match yaml_parse(strip_bom(text)) {
        Err(m) => Err(ErrorV::Parse { path, message: m }),
        Ok(tree) => match tree_to_json(tree) {
            Err(m) => Err(ErrorV::Parse { path, message: m }),
            Ok(doc) => load_json(path, source_name, doc),
        },
    }
}

/// The view of a loading result.
pub open spec fn doc_res(r: Result<Document, Error>) -> Result<DocumentV, ErrorV> {
    match r {
        Ok(d) => Ok(d@),
        Err(e) => Err(e@),
    }
}

fn text_field(v: &Json, name: &str) -> (r: Vec<char>)
    ensures
        r@ == match json_get(v@, name@) {
            Some(JsonV::Str(s)) => s,
            _ => Seq::empty(),
        },
{
    match get_field(v, name) {
        Some(Json::Str(s)) => copy_chars(s),
        _ => Vec::new(),
    }
}

fn exec_server_urls(doc: &Json) -> (r: Vec<Vec<char>>)
    ensures
        texts_view(r@) == server_urls(doc@),
{
    let mut out: Vec<Vec<char>> = Vec::new();
    match get_field(doc, "servers") {
        Some(Json::Array(items)) => {
            let ghost s = items_view(items@);
            let mut i: usize = 0;
            while i < items.len()
                invariant
                    i <= items.len(),
                    s == items_view(items@),
                    texts_view(out@) == s.subrange(0, i as int).map_values(|v: JsonV| server_url(v)),
                decreases items.len() - i,
            {
                let ghost prev = out@;
                let u = text_field(&items[i], "url");
                assert(u@ == server_url(s[i as int]));
                out.push(u);
                assert(texts_view(out@) =~= texts_view(prev).push(u@));
                assert(s.subrange(0, i + 1).map_values(|v: JsonV| server_url(v)) =~= s.subrange(
                    0,
                    i as int,
                ).map_values(|v: JsonV| server_url(v)).push(server_url(s[i as int])));
                i += 1;
            }
            assert(s.subrange(0, i as int) =~= s);
            out
        },
        _ => {
            assert(texts_view(out@) =~= Seq::<Seq<char>>::empty());
            out
        },
    }
}

fn spec_error(m: &str) -> (e: Error)
    ensures
        e@ == (ErrorV::Spec { message: m@ }),
{
    let t = chars_of(m);
    Error::spec(&t)
}

/// Checks a parsed document and builds its operations.
pub fn load_json_value(path: &Vec<char>, source_name: &Vec<char>, doc: Json) -> (r: Result<Document, Error>)
    ensures
        doc_res(r) == load_json(path@, source_name@, doc@),
{
    match &doc {
        Json::Object(_) => {},
        _ => {
            let m = chars_of("document must be a YAML or JSON object");
            return Err(Error::parse(path, &m));
        },
    }
    let openapi_field = get_field(&doc, "openapi");
    if openapi_field.is_none() && get_field(&doc, "swagger").is_some() {
        return Err(spec_error(
            "OpenAPI 2.0 (Swagger) documents are not supported; spechurl supports OpenAPI 3.0 and 3.1",
        ));
    }
    let openapi_value = match openapi_field {
        Some(v) => v,
        None => {
            return Err(spec_error("missing 'openapi' field (expected OpenAPI 3.0 or 3.1)"));
        },
    };
    let paths: &Vec<(Vec<char>, Json)> = match get_field(&doc, "paths") {
        None => {
            return Err(spec_error("missing 'paths' object"));
        },
        Some(Json::Object(m)) => m,
        Some(_) => {
            return Err(spec_error("'paths' must be an object"));
        },
    };
    match get_field(&doc, "info") {
        Some(Json::Object(_)) => {},
        _ => {
            return Err(spec_error("missing 'info' object"));
        },
    }
    match crate::decode::check_document_value(&doc) {
        Some(m) => {
            return Err(Error::parse(path, &m));
        },
        None => {},
    }
    let openapi = string_or_number_text(openapi_value);
    match validate_version(&openapi) {
        Some(m) => {
            return Err(Error::spec(&m));
        },
        None => {},
    }
    if paths.len() == 0 {
        let mut m = chars_of("spec '");
        push_all(&mut m, source_name);
        push_str(&mut m, "' contains no paths");
        return Err(Error::spec(&m));
    }
    let operations = match collect_operations(&doc, paths) {
        Ok(ops) => ops,
        Err(e) => {
            return Err(e);
        },
    };
    let (title, version) = match get_field(&doc, "info") {
        Some(info) => (
            text_field(info, "title"),
            match get_field(info, "version") {
                Some(v) => string_or_number_text(v),
                None => Vec::new(),
            },
        ),
        None => (Vec::new(), Vec::new()),
    };
    let servers = exec_server_urls(&doc);
    let has_webhooks = get_field(&doc, "webhooks").is_some();
    Ok(
        Document {
            source_name: copy_chars(source_name),
            openapi,
            title,
            version,
            servers,
            has_webhooks,
            doc,
            operations,
        },
    )
}

/// Parses and checks an OpenAPI document. `error_path` names the document in
/// diagnostics; `source_name` is the stable file name written into generated output.
pub fn load_str(error_path: &Vec<char>, source_name: &Vec<char>, text: &str) -> (r: Result<Document, Error>)
    ensures
        doc_res(r) == load_text(error_path@, source_name@, text@),
{
    let chars = chars_of(text);
    let parsed = if chars.len() > 0 && chars[0] == '\u{feff}' {
        let rest = slice_chars(&chars, 1, chars.len());
        assert(rest@ =~= strip_bom(text@));
        let s = crate::text::string_of(rest.as_slice());
        parse_yaml(s.as_str())
    } else {
        assert(chars@ =~= strip_bom(text@));
        parse_yaml(text)
    };
    let value = match parsed {
        Ok(v) => v,
        Err(m) => {
            return Err(Error::parse(error_path, &m));
        },
    };
    let doc = match yaml_to_json(&value) {
        Ok(d) => d,
        Err(m) => {
            return Err(Error::parse(error_path, &m));
        },
    };
    load_json_value(error_path, source_name, doc)
}

} // verus!
