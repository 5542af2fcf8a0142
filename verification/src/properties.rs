//! Properties of generation and checking that hold for every input.
use vstd::prelude::*;

use crate::document::{
    build_operation, collect, load_json, load_text, method_entry, method_operations, methods,
    params_of, path_operations, resolve_params, find_same, merge_all, merge_one, merge_parameters,
    param_in, param_name, present, same_param, resolve_path_item, strip_bom, DocumentV,
    OperationV,
};
use crate::render::{
    escape_key, escape_value, fill_path_from, hex_upper, is_unreserved, key_char, lookup,
    pair_lines, percent_byte, percent_char, percent_encode, quoted_char, section, value_char,
    candidate, file_stem, unique_name, assert_lines, body_part, choose_status, comment_text, escape_quoted, file_names, flat_char,
    note_lines, one_line, operation_notes, param_values, readme_text, render_files,
    render_operation, render_suite, request_text, response_media, response_text, table_rows,
    StatusV, BodyV, accept_line, content_type_line, opt_comment, operation_text, server_hint,
    bullet_lines, readme_base, ignored_header, param_rendered,
};
use crate::error::ErrorV;
use crate::yaml::{tree_to_json, yaml_parse};
use crate::json::{JsonV, NumV};
use crate::json_ops::{
    json_get, compact, entries_get, entries_has, entries_insert, escape_char, escape_text, hex_digit, json_quoted,
    num_text, pretty, pretty_entries, pretty_items,
};
use crate::sample::{
    is_json_content_type, kw_u64, media_has_example, sample_string, is_scalar, has_explicit_sample,
    choose_media, kw_str, media_rank, sample_media, value_to_wire_string,
    add_missing_required, base_content_type, entry_keys, first_greater, keys_present, kw,
    object_fold, prop, required_names, sample_object, sample_schema, sampled_keys,
    schema_is_read_only, sort_texts, writable_keys,
};
use crate::suite::{
    check_outcome, files_insert, first_failed, generated, has_file, insert_files, mismatch_line,
    mismatch_lines, missing_lines, normalize, normalize_from, problems, suite_of,
    unexpected_lines, DirState, FileReadV,
};
use crate::text::{
    decimal, digit_char, ends_with, lemma_text_lt_irreflexive, lemma_text_lt_total,
    lemma_text_lt_transitive, starts_with, text_lt,
};

verus! {

// ---------------------------------------------------------------------------
// File names are sorted and unique.

/// Files listed by name in strictly ascending order (so no name occurs twice).
pub open spec fn sorted_names(m: Seq<(Seq<char>, Seq<char>)>) -> bool {
    forall|i: int, j: int| 0 <= i < j < m.len() ==> text_lt(#[trigger] m[i].0, #[trigger] m[j].0)
}

proof fn lemma_insert_bound(m: Seq<(Seq<char>, Seq<char>)>, name: Seq<char>, body: Seq<char>, lo: Seq<char>)
    requires
        text_lt(lo, name),
        forall|j: int| 0 <= j < m.len() ==> text_lt(lo, #[trigger] m[j].0),
    ensures
        forall|i: int|
            0 <= i < files_insert(m, name, body).len() ==> text_lt(lo, #[trigger] files_insert(m, name, body)[i].0),
    decreases m.len(),
{
    let r = files_insert(m, name, body);
    if m.len() == 0 {
    } else if m[0].0 == name {
        assert forall|i: int| 0 <= i < r.len() implies text_lt(lo, #[trigger] r[i].0) by {
            if i > 0 {
                assert(r[i] == m[i]);
            }
        }
    } else if text_lt(name, m[0].0) {
        assert forall|i: int| 0 <= i < r.len() implies text_lt(lo, #[trigger] r[i].0) by {
            if i > 0 {
                assert(r[i] == m[i - 1]);
            }
        }
    } else {
        let t = m.drop_first();
        assert forall|j: int| 0 <= j < t.len() implies text_lt(lo, #[trigger] t[j].0) by {
            assert(t[j] == m[j + 1]);
        }
        lemma_insert_bound(t, name, body, lo);
        let rt = files_insert(t, name, body);
        assert forall|i: int| 0 <= i < r.len() implies text_lt(lo, #[trigger] r[i].0) by {
            if i > 0 {
                assert(r[i] == rt[i - 1]);
            }
        }
    }
}

proof fn lemma_insert_sorted(m: Seq<(Seq<char>, Seq<char>)>, name: Seq<char>, body: Seq<char>)
    requires
        sorted_names(m),
    ensures
        sorted_names(files_insert(m, name, body)),
    decreases m.len(),
{
    let r = files_insert(m, name, body);
    if m.len() == 0 {
    } else if m[0].0 == name {
        assert forall|i: int, j: int| 0 <= i < j < r.len() implies text_lt(#[trigger] r[i].0, #[trigger] r[j].0) by {
            assert(r[j] == m[j]);
            if i > 0 {
                assert(r[i] == m[i]);
            }
        }
    } else if text_lt(name, m[0].0) {
        assert forall|i: int, j: int| 0 <= i < j < r.len() implies text_lt(#[trigger] r[i].0, #[trigger] r[j].0) by {
            assert(r[j] == m[j - 1]);
            if i > 0 {
                assert(r[i] == m[i - 1]);
            } else if j > 1 {
                assert(text_lt(m[0].0, m[j - 1].0));
                lemma_text_lt_transitive(name, m[0].0, m[j - 1].0);
            }
        }
    } else {
        lemma_text_lt_total(name, m[0].0);
        let t = m.drop_first();
        assert(sorted_names(t)) by {
            assert forall|i: int, j: int| 0 <= i < j < t.len() implies text_lt(#[trigger] t[i].0, #[trigger] t[j].0) by {
                assert(t[i] == m[i + 1]);
                assert(t[j] == m[j + 1]);
            }
        }
        lemma_insert_sorted(t, name, body);
        assert forall|j: int| 0 <= j < t.len() implies text_lt(m[0].0, #[trigger] t[j].0) by {
            assert(t[j] == m[j + 1]);
        }
        lemma_insert_bound(t, name, body, m[0].0);
        let rt = files_insert(t, name, body);
        assert forall|i: int, j: int| 0 <= i < j < r.len() implies text_lt(#[trigger] r[i].0, #[trigger] r[j].0) by {
            assert(r[j] == rt[j - 1]);
            if i > 0 {
                assert(r[i] == rt[i - 1]);
            }
        }
    }
}

proof fn lemma_insert_files_sorted(m: Seq<(Seq<char>, Seq<char>)>, files: Seq<(Seq<char>, Seq<char>)>)
    requires
        sorted_names(m),
    ensures
        sorted_names(insert_files(m, files)),
    decreases files.len(),
{
    if files.len() > 0 {
        lemma_insert_files_sorted(m, files.drop_last());
        lemma_insert_sorted(insert_files(m, files.drop_last()), files.last().0, files.last().1);
    }
}

/// The files of a generated suite are listed by name in strictly ascending
/// order: the order is fixed, and no name occurs twice.
pub proof fn lemma_suite_names_sorted(d: DocumentV)
    requires
        suite_of(d) is Ok,
    ensures
        sorted_names(suite_of(d)->Ok_0),
{
    let files = crate::render::render_suite(d)->Ok_0;
    lemma_insert_files_sorted(Seq::empty(), files);
    lemma_insert_sorted(
        insert_files(Seq::empty(), files),
        "README.md"@,
        crate::render::readme_text(d, crate::render::file_names(d.operations)),
    );
}

/// The files generated from a document's text are listed by name in strictly
/// ascending order.
pub proof fn lemma_generated_names_sorted(source_name: Seq<char>, source: Seq<char>)
    requires
        generated(source_name, source) is Ok,
    ensures
        sorted_names(generated(source_name, source)->Ok_0),
{
    let d = crate::document::load_text(source_name, source_name, source)->Ok_0;
    lemma_suite_names_sorted(d);
}

// ---------------------------------------------------------------------------
// Line endings.

/// Text with every `\n` written as `\r\n`.
pub open spec fn to_crlf(s: Seq<char>) -> Seq<char>
    decreases s.len(),
{
    if s.len() == 0 {
        Seq::empty()
    } else {
        (if s[0] == '\n' {
            seq!['\r', '\n']
        } else {
            seq![s[0]]
        }) + to_crlf(s.drop_first())
    }
}

proof fn lemma_normalize_from_skip(s: Seq<char>, k: int)
    requires
        0 <= k <= s.len(),
    ensures
        normalize_from(s, k) == normalize(s.skip(k)),
    decreases s.len() - k,
{
    let t = s.skip(k);
    if k < s.len() {
        if s[k] == '\r' && k + 1 < s.len() && s[k + 1] == '\n' {
            lemma_normalize_from_skip(s, k + 2);
            lemma_normalize_from_skip(t, 2);
            assert(t.skip(2) =~= s.skip(k + 2));
        } else {
            lemma_normalize_from_skip(s, k + 1);
            lemma_normalize_from_skip(t, 1);
            assert(t.skip(1) =~= s.skip(k + 1));
        }
    }
}

/// Normalized text has no `\r`.
pub proof fn lemma_normalize_no_cr(s: Seq<char>)
    ensures
        !normalize(s).contains('\r'),
    decreases s.len(),
{
    if s.len() > 0 {
        if s[0] == '\r' && 1 < s.len() && s[1] == '\n' {
            lemma_normalize_from_skip(s, 2);
            lemma_normalize_no_cr(s.skip(2));
        } else {
            lemma_normalize_from_skip(s, 1);
            lemma_normalize_no_cr(s.skip(1));
        }
        let n = normalize(s);
        assert forall|i: int| 0 <= i < n.len() implies n[i] != '\r' by {
            if i > 0 {
                if s[0] == '\r' && 1 < s.len() && s[1] == '\n' {
                    assert(n[i] == normalize(s.skip(2))[i - 1]);
                } else {
                    assert(n[i] == normalize(s.skip(1))[i - 1]);
                }
            }
        }
    }
}

/// Text without `\r` is its own normalized form.
pub proof fn lemma_normalize_plain(s: Seq<char>)
    requires
        !s.contains('\r'),
    ensures
        normalize(s) == s,
    decreases s.len(),
{
    if s.len() > 0 {
        assert(s[0] != '\r');
        lemma_normalize_from_skip(s, 1);
        assert(!s.skip(1).contains('\r')) by {
            assert forall|i: int| 0 <= i < s.skip(1).len() implies s.skip(1)[i] != '\r' by {
                assert(s.skip(1)[i] == s[i + 1]);
            }
        }
        lemma_normalize_plain(s.skip(1));
        assert(s =~= seq![s[0]] + s.skip(1));
    } else {
        assert(normalize(s) =~= s);
    }
}

/// Normalizing twice is normalizing once.
pub proof fn lemma_normalize_idempotent(s: Seq<char>)
    ensures
        normalize(normalize(s)) == normalize(s),
{
    lemma_normalize_no_cr(s);
    lemma_normalize_plain(normalize(s));
}

/// Writing the line breaks of a text without `\r` as `\r\n` does not change its
/// normalized form.
pub proof fn lemma_crlf_normalizes(s: Seq<char>)
    requires
        !s.contains('\r'),
    ensures
        normalize(to_crlf(s)) == normalize(s),
    decreases s.len(),
{
    lemma_normalize_plain(s);
    if s.len() > 0 {
        let t = s.drop_first();
        assert(!t.contains('\r')) by {
            assert forall|i: int| 0 <= i < t.len() implies t[i] != '\r' by {
                assert(t[i] == s[i + 1]);
            }
        }
        lemma_crlf_normalizes(t);
        lemma_normalize_plain(t);
        let c = to_crlf(s);
        if s[0] == '\n' {
            assert(c[0] == '\r' && c[1] == '\n');
            lemma_normalize_from_skip(c, 2);
            assert(c.skip(2) =~= to_crlf(t));
        } else {
            assert(c[0] == s[0]);
            lemma_normalize_from_skip(c, 1);
            assert(c.skip(1) =~= to_crlf(t));
        }
        assert(s =~= seq![s[0]] + t);
    }
}

// ---------------------------------------------------------------------------
// A directory that matches the suite passes the check.

/// Every file was read, as valid UTF-8 whose text equals the generated one up
/// to line endings.
pub open spec fn reads_match(files: Seq<(Seq<char>, Seq<char>)>, reads: Seq<FileReadV>) -> bool {
    &&& reads.len() == files.len()
    &&& forall|i: int|
        0 <= i < files.len() ==> match #[trigger] reads[i] {
            FileReadV::Contents(b) => vstd::utf8::valid_utf8(b) && normalize(vstd::utf8::decode_utf8(b))
                == normalize(files[i].1),
            _ => false,
        }
}

/// Every listed `.hurl` name is one of the suite's files.
pub open spec fn listing_within(files: Seq<(Seq<char>, Seq<char>)>, listing: Seq<Option<Seq<char>>>) -> bool {
    forall|j: int|
        0 <= j < listing.len() ==> match #[trigger] listing[j] {
            Some(n) => ends_with(n, ".hurl"@) ==> has_file(files, n),
            None => true,
        }
}

proof fn lemma_no_missing(files: Seq<(Seq<char>, Seq<char>)>, reads: Seq<FileReadV>, n: nat)
    requires
        n <= files.len(),
        reads_match(files, reads),
    ensures
        missing_lines(files, reads, n) == Seq::<Seq<char>>::empty(),
        mismatch_lines(files, reads, n) == Seq::<Seq<char>>::empty(),
    decreases n,
{
    if n > 0 {
        lemma_no_missing(files, reads, (n - 1) as nat);
        let r = reads[n - 1];
        assert(r is Contents);
        assert(mismatch_line(files[n - 1].0, files[n - 1].1, r->Contents_0) is None);
    }
}

proof fn lemma_no_unexpected(files: Seq<(Seq<char>, Seq<char>)>, listing: Seq<Option<Seq<char>>>)
    requires
        listing_within(files, listing),
    ensures
        unexpected_lines(listing, files) == Seq::<Seq<char>>::empty(),
    decreases listing.len(),
{
    if listing.len() > 0 {
        let l = listing.drop_last();
        assert(listing_within(files, l)) by {
            assert forall|j: int| 0 <= j < l.len() implies match #[trigger] l[j] {
                Some(n) => ends_with(n, ".hurl"@) ==> has_file(files, n),
                None => true,
            } by {
                assert(l[j] == listing[j]);
            }
        }
        lemma_no_unexpected(files, l);
        assert(listing[listing.len() - 1] == listing.last());
    }
}

proof fn lemma_no_failed(files: Seq<(Seq<char>, Seq<char>)>, reads: Seq<FileReadV>, k: int)
    requires
        0 <= k <= reads.len(),
        reads_match(files, reads),
    ensures
        first_failed(reads, k) is None,
    decreases reads.len() - k,
{
    if k < reads.len() {
        assert(reads[k] is Contents);
        lemma_no_failed(files, reads, k + 1);
    }
}

/// A directory that holds every generated file, each with the same text up to
/// line endings, and no other `.hurl` file, passes the check: the result is the
/// number of files compared.
pub proof fn lemma_matching_directory_passes(
    spec_path: Seq<char>,
    dir: Seq<char>,
    files: Seq<(Seq<char>, Seq<char>)>,
    reads: Seq<FileReadV>,
    listing: Seq<Option<Seq<char>>>,
)
    requires
        reads_match(files, reads),
        listing_within(files, listing),
    ensures
        check_outcome(spec_path, dir, files, DirState::Directory, reads, Ok(listing)) == Ok::<
            nat,
            crate::error::ErrorV,
        >(files.len()),
{
    lemma_no_failed(files, reads, 0);
    lemma_no_missing(files, reads, files.len());
    lemma_no_unexpected(files, listing);
    assert(crate::sample::sort_texts(Seq::<Seq<char>>::empty()) == Seq::<Seq<char>>::empty());
    assert(problems(files, reads, listing) =~= Seq::<Seq<char>>::empty());
}

// ---------------------------------------------------------------------------
// Every generated file ends with exactly one newline.

/// Text that ends with a line break that does not follow another one.
pub open spec fn ends_with_one_newline(s: Seq<char>) -> bool {
    s.len() >= 2 && s.last() == '\n' && s[s.len() - 2] != '\n'
}

proof fn lemma_newline_append(a: Seq<char>, b: Seq<char>)
    requires
        ends_with_one_newline(b),
    ensures
        ends_with_one_newline(a + b),
{
    let c = a + b;
    assert(c.last() == b.last());
    assert(c[c.len() - 2] == b[b.len() - 2]);
}

proof fn lemma_response_ends(st: StatusV)
    ensures
        ends_with_one_newline(response_text(st)),
{
    reveal_strlit("HTTP ");
    reveal_strlit("\n");
    reveal_strlit("[Asserts]\n");
    reveal_strlit("status >= 200\nstatus < 300\n");
    reveal_strlit("\"\n");
    let code = one_line(st.code);
    let head = "HTTP "@ + code + "\n"@;
    assert(ends_with_one_newline(head)) by {
        if code.len() > 0 {
            assert(head[head.len() - 2] == code.last());
            assert(code.last() == flat_char(st.code.last()));
        } else {
            assert(head =~= "HTTP \n"@) by {
                reveal_strlit("HTTP \n");
            }
            reveal_strlit("HTTP \n");
        }
    }
    let asserts = assert_lines(st);
    if asserts.len() > 0 {
        let range: Seq<char> = if st.range {
            "status >= 200\nstatus < 300\n"@
        } else {
            Seq::empty()
        };
        let header: Seq<char> = match response_media(st.response) {
            Some(key) => {
                let base = base_content_type(key);
                if base.contains('*') {
                    Seq::empty()
                } else {
                    "header \"Content-Type\" contains \""@ + escape_quoted(base, '"') + "\"\n"@
                }
            },
            None => Seq::empty(),
        };
        assert(asserts == range + header);
        if header.len() > 0 {
            let key = response_media(st.response)->0;
            let base = base_content_type(key);
            lemma_newline_append(
                "header \"Content-Type\" contains \""@ + escape_quoted(base, '"'),
                "\"\n"@,
            );
            lemma_newline_append(range, header);
        } else {
            assert(asserts =~= range);
        }
        lemma_newline_append(head + "[Asserts]\n"@, asserts);
        assert(response_text(st) =~= (head + "[Asserts]\n"@) + asserts);
    } else {
        assert(response_text(st) =~= head);
    }
}

/// Every operation file ends with exactly one newline.
pub proof fn lemma_operation_file_ends(d: DocumentV, op: OperationV)
    requires
        render_operation(d, op) is Ok,
    ensures
        ends_with_one_newline(render_operation(d, op)->Ok_0),
{
    let st = choose_status(op.responses);
    lemma_response_ends(st);
    let t = render_operation(d, op)->Ok_0;
    let pathv = param_values(d.doc, op.parameters, "path"@)->Ok_0;
    let headerv = param_values(d.doc, op.parameters, "header"@)->Ok_0;
    let queryv = param_values(d.doc, op.parameters, "query"@)->Ok_0;
    let body = body_part(d.doc, op.request_body)->Ok_0;
    let prefix = comment_text(d, op) + note_lines(operation_notes(op, body, st)) + request_text(
        op,
        pathv,
        headerv,
        queryv,
        body,
        st,
    ) + "\n"@;
    assert(t == prefix + response_text(st));
    lemma_newline_append(prefix, response_text(st));
}

/// The README ends with exactly one newline.
pub proof fn lemma_readme_ends(d: DocumentV, names: Seq<Seq<char>>)
    ensures
        ends_with_one_newline(readme_text(d, names)),
{
    reveal_strlit("\n| File | Operation |\n| --- | --- |\n");
    reveal_strlit("\nWebhooks are not covered.\n");
    reveal_strlit("` |\n");
    let r = readme_text(d, names);
    let rows = table_rows(names, d.operations);
    let tail: Seq<char> = if d.has_webhooks {
        "\nWebhooks are not covered.\n"@
    } else {
        Seq::empty()
    };
    let before = r.subrange(0, r.len() - rows.len() - tail.len());
    if d.has_webhooks {
        lemma_newline_append(r.subrange(0, r.len() - tail.len()), tail);
        assert(r =~= r.subrange(0, r.len() - tail.len()) + tail);
    } else if rows.len() > 0 {
        let i = d.operations.len() - 1;
        let row_head = table_rows(names, d.operations.drop_last()) + "| `"@ + one_line(names[i])
            + "` | `"@ + one_line(d.operations[i].method + " "@ + d.operations[i].path);
        assert(rows == row_head + "` |\n"@);
        lemma_newline_append(row_head, "` |\n"@);
        lemma_newline_append(r.subrange(0, r.len() - rows.len()), rows);
        assert(r =~= r.subrange(0, r.len() - rows.len()) + rows);
    } else {
        let h = "\n| File | Operation |\n| --- | --- |\n"@;
        lemma_newline_append(r.subrange(0, r.len() - h.len()), h);
        assert(r =~= r.subrange(0, r.len() - h.len()) + h);
    }
}

/// Every file of a list ends with exactly one newline.
pub open spec fn all_end_with_one_newline(m: Seq<(Seq<char>, Seq<char>)>) -> bool {
    forall|i: int| 0 <= i < m.len() ==> ends_with_one_newline(#[trigger] m[i].1)
}

proof fn lemma_insert_keeps_endings(m: Seq<(Seq<char>, Seq<char>)>, name: Seq<char>, body: Seq<char>)
    requires
        all_end_with_one_newline(m),
        ends_with_one_newline(body),
    ensures
        all_end_with_one_newline(files_insert(m, name, body)),
    decreases m.len(),
{
    let r = files_insert(m, name, body);
    if m.len() == 0 {
    } else if m[0].0 == name {
        assert forall|i: int| 0 <= i < r.len() implies ends_with_one_newline(#[trigger] r[i].1) by {
            if i > 0 {
                assert(r[i] == m[i]);
            }
        }
    } else if text_lt(name, m[0].0) {
        assert forall|i: int| 0 <= i < r.len() implies ends_with_one_newline(#[trigger] r[i].1) by {
            if i > 0 {
                assert(r[i] == m[i - 1]);
            }
        }
    } else {
        let t = m.drop_first();
        assert(all_end_with_one_newline(t)) by {
            assert forall|i: int| 0 <= i < t.len() implies ends_with_one_newline(#[trigger] t[i].1) by {
                assert(t[i] == m[i + 1]);
            }
        }
        lemma_insert_keeps_endings(t, name, body);
        let rt = files_insert(t, name, body);
        assert forall|i: int| 0 <= i < r.len() implies ends_with_one_newline(#[trigger] r[i].1) by {
            if i > 0 {
                assert(r[i] == rt[i - 1]);
            }
        }
    }
}

proof fn lemma_insert_files_keeps_endings(m: Seq<(Seq<char>, Seq<char>)>, files: Seq<(Seq<char>, Seq<char>)>)
    requires
        all_end_with_one_newline(m),
        all_end_with_one_newline(files),
    ensures
        all_end_with_one_newline(insert_files(m, files)),
    decreases files.len(),
{
    if files.len() > 0 {
        let f = files.drop_last();
        assert(all_end_with_one_newline(f)) by {
            assert forall|i: int| 0 <= i < f.len() implies ends_with_one_newline(#[trigger] f[i].1) by {
                assert(f[i] == files[i]);
            }
        }
        lemma_insert_files_keeps_endings(m, f);
        assert(files[files.len() - 1] == files.last());
        lemma_insert_keeps_endings(insert_files(m, f), files.last().0, files.last().1);
    }
}

proof fn lemma_render_files_end(d: DocumentV, names: Seq<Seq<char>>, n: nat)
    requires
        render_files(d, names, n) is Ok,
    ensures
        all_end_with_one_newline(render_files(d, names, n)->Ok_0),
    decreases n,
{
    if n > 0 {
        lemma_render_files_end(d, names, (n - 1) as nat);
        lemma_operation_file_ends(d, d.operations[n - 1]);
        let prev = render_files(d, names, (n - 1) as nat)->Ok_0;
        let r = render_files(d, names, n)->Ok_0;
        assert forall|i: int| 0 <= i < r.len() implies ends_with_one_newline(#[trigger] r[i].1) by {
            if i < prev.len() {
                assert(r[i] == prev[i]);
            }
        }
    }
}

/// Every file of a generated suite ends with exactly one newline.
pub proof fn lemma_suite_files_end_with_one_newline(d: DocumentV)
    requires
        suite_of(d) is Ok,
    ensures
        all_end_with_one_newline(suite_of(d)->Ok_0),
{
    let files = render_suite(d)->Ok_0;
    lemma_render_files_end(d, file_names(d.operations), d.operations.len());
    lemma_insert_files_keeps_endings(Seq::empty(), files);
    lemma_readme_ends(d, file_names(d.operations));
    lemma_insert_keeps_endings(
        insert_files(Seq::empty(), files),
        "README.md"@,
        readme_text(d, file_names(d.operations)),
    );
}

/// Every file generated from a document's text ends with exactly one newline.
pub proof fn lemma_generated_files_end_with_one_newline(source_name: Seq<char>, source: Seq<char>)
    requires
        generated(source_name, source) is Ok,
    ensures
        all_end_with_one_newline(generated(source_name, source)->Ok_0),
{
    let d = crate::document::load_text(source_name, source_name, source)->Ok_0;
    lemma_suite_files_end_with_one_newline(d);
}

// ---------------------------------------------------------------------------
// A drifted file fails the check with exit status 1.

/// The file at `i` is missing, or its committed bytes differ from the generated text.
pub open spec fn file_drifted(files: Seq<(Seq<char>, Seq<char>)>, reads: Seq<FileReadV>, i: int) -> bool {
    match reads[i] {
        FileReadV::NotFound => true,
        FileReadV::Contents(b) => mismatch_line(files[i].0, files[i].1, b) is Some,
        _ => false,
    }
}

proof fn lemma_drift_lines(files: Seq<(Seq<char>, Seq<char>)>, reads: Seq<FileReadV>, n: nat, i: int)
    requires
        0 <= i < n,
        n <= reads.len(),
        file_drifted(files, reads, i),
    ensures
        missing_lines(files, reads, n).len() + mismatch_lines(files, reads, n).len() >= 1,
    decreases n,
{
    if n - 1 != i {
        lemma_drift_lines(files, reads, (n - 1) as nat, i);
    }
}

/// When nothing fails to read and some generated file is missing or differs
/// from the committed one, the check fails with a drift error, whose exit
/// status is 1.
pub proof fn lemma_drifted_file_fails_check(
    spec_path: Seq<char>,
    dir: Seq<char>,
    files: Seq<(Seq<char>, Seq<char>)>,
    reads: Seq<FileReadV>,
    listing: Seq<Option<Seq<char>>>,
    i: int,
)
    requires
        reads.len() == files.len(),
        0 <= i < files.len(),
        file_drifted(files, reads, i),
        first_failed(reads, 0) is None,
    ensures
        check_outcome(spec_path, dir, files, DirState::Directory, reads, Ok(listing)) matches Err(e)
            && e is Drift && crate::error::exit_status(e) == 1,
{
    lemma_drift_lines(files, reads, files.len(), i);
}

// ---------------------------------------------------------------------------
// Errors name the operation.

/// A spec error from rendering an operation names the operation: its message
/// starts with the method and path (such as `POST /pets`).
pub proof fn lemma_operation_errors_name_the_operation(d: DocumentV, op: OperationV)
    requires
        render_operation(d, op) matches Err(ErrorV::Spec { .. }),
    ensures
        starts_with(render_operation(d, op)->Err_0->Spec_message, op.method + " "@ + op.path),
{
    let ctx = op.method + " "@ + op.path;
    let m = render_operation(d, op)->Err_0->Spec_message;
    if param_values(d.doc, op.parameters, "path"@) is Ok && param_values(
        d.doc,
        op.parameters,
        "header"@,
    ) is Ok && param_values(d.doc, op.parameters, "query"@) is Ok {
        let e = body_part(d.doc, op.request_body)->Err_0;
        assert(m == (ctx + " request body"@) + ": "@ + e->Spec_message);
        assert(m.subrange(0, ctx.len() as int) =~= ctx);
    } else {
        assert(m.subrange(0, ctx.len() as int) =~= ctx);
    }
}

// ---------------------------------------------------------------------------
// Read-only properties stay out of object samples.

proof fn lemma_entries_insert_keys(m: Seq<(Seq<char>, JsonV)>, k: Seq<char>, v: JsonV, key: Seq<char>)
    requires
        entries_has(entries_insert(m, k, v), key),
    ensures
        key == k || entries_has(m, key),
    decreases m.len(),
{
    let r = entries_insert(m, k, v);
    if key != k {
        if m.len() == 0 {
            assert(r == seq![(k, v)]);
            assert(r.drop_first() =~= Seq::<(Seq<char>, JsonV)>::empty());
            assert(entries_get(r, key) == entries_get(r.drop_first(), key));
        } else if m[0].0 == k {
            assert(r == m.update(0, (k, v)));
            assert(r.drop_first() =~= m.drop_first());
            assert(entries_get(r, key) == entries_get(r.drop_first(), key));
            assert(entries_get(m, key) == entries_get(m.drop_first(), key));
        } else if text_lt(k, m[0].0) {
            assert(r == seq![(k, v)] + m);
            assert(r.drop_first() =~= m);
            assert(entries_get(r, key) == entries_get(r.drop_first(), key));
        } else {
            assert(r == seq![m[0]] + entries_insert(m.drop_first(), k, v));
            assert(r.drop_first() =~= entries_insert(m.drop_first(), k, v));
            if m[0].0 != key {
                assert(entries_get(r, key) == entries_get(r.drop_first(), key));
                lemma_entries_insert_keys(m.drop_first(), k, v, key);
                assert(entries_get(m, key) == entries_get(m.drop_first(), key));
            }
        }
    }
}

proof fn lemma_object_fold_keys(
    doc: JsonV,
    props: Seq<(Seq<char>, JsonV)>,
    keys: Seq<Seq<char>>,
    depth: nat,
    stack: Seq<Seq<char>>,
    key: Seq<char>,
)
    requires
        object_fold(doc, props, keys, depth, stack) is Ok,
        entries_has(object_fold(doc, props, keys, depth, stack)->Ok_0, key),
    ensures
        keys.contains(key),
    decreases keys.len(),
{
    if keys.len() > 0 && depth <= 16 {
        let prev = object_fold(doc, props, keys.drop_last(), depth, stack)->Ok_0;
        let v = sample_schema(doc, prop(props, keys.last()), depth + 1, stack)->Ok_0;
        lemma_entries_insert_keys(prev, keys.last(), v, key);
        if key == keys.last() {
            assert(keys[keys.len() - 1] == key);
        } else {
            lemma_object_fold_keys(doc, props, keys.drop_last(), depth, stack, key);
            let j = choose|j: int| 0 <= j < keys.drop_last().len() && keys.drop_last()[j] == key;
            assert(keys[j] == key);
        }
    }
}

proof fn lemma_add_missing_keys(
    obj: Seq<(Seq<char>, JsonV)>,
    props: Seq<(Seq<char>, JsonV)>,
    required: Seq<Seq<char>>,
    key: Seq<char>,
)
    requires
        entries_has(add_missing_required(obj, props, required), key),
        entries_has(props, key),
    ensures
        entries_has(obj, key),
    decreases required.len(),
{
    if required.len() > 0 {
        let prev = add_missing_required(obj, props, required.drop_last());
        let name = required.last();
        if !entries_has(props, name) && !entries_has(prev, name) {
            lemma_entries_insert_keys(prev, name, JsonV::Str("string"@), key);
        }
        lemma_add_missing_keys(obj, props, required.drop_last(), key);
    }
}

/// The property schema of the key is not read-only.
pub open spec fn writable(doc: JsonV, props: Seq<(Seq<char>, JsonV)>, key: Seq<char>) -> bool {
    !schema_is_read_only(doc, prop(props, key), Seq::empty())
}

proof fn lemma_writable_keys(doc: JsonV, props: Seq<(Seq<char>, JsonV)>, keys: Seq<Seq<char>>)
    ensures
        forall|j: int|
            0 <= j < writable_keys(doc, props, keys).len() ==> writable(
                doc,
                props,
                #[trigger] writable_keys(doc, props, keys)[j],
            ),
    decreases keys.len(),
{
    if keys.len() > 0 {
        lemma_writable_keys(doc, props, keys.drop_last());
        let prev = writable_keys(doc, props, keys.drop_last());
        let w = writable_keys(doc, props, keys);
        assert forall|j: int| 0 <= j < w.len() implies writable(doc, props, #[trigger] w[j]) by {
            if j < prev.len() {
                assert(w[j] == prev[j]);
            }
        }
    }
}

proof fn lemma_sort_keeps(s: Seq<Seq<char>>, p: spec_fn(Seq<char>) -> bool)
    requires
        forall|j: int| 0 <= j < s.len() ==> p(#[trigger] s[j]),
    ensures
        forall|j: int| 0 <= j < sort_texts(s).len() ==> p(#[trigger] sort_texts(s)[j]),
    decreases s.len(),
{
    if s.len() > 0 {
        let t = s.drop_last();
        assert forall|j: int| 0 <= j < t.len() implies p(#[trigger] t[j]) by {
            assert(t[j] == s[j]);
        }
        lemma_sort_keeps(t, p);
        let sorted = sort_texts(t);
        let r = sort_texts(s);
        let pos = first_greater(sorted, s.last(), 0);
        lemma_first_greater_range(sorted, s.last(), 0);
        assert(r == sorted.insert(pos, s.last()));
        assert forall|j: int| 0 <= j < r.len() implies p(#[trigger] r[j]) by {
            if j < pos {
                assert(r[j] == sorted[j]);
            } else if j == pos {
                assert(r[j] == s.last());
                assert(s[s.len() - 1] == s.last());
            } else {
                assert(r[j] == sorted[j - 1]);
            }
        }
    }
}

proof fn lemma_first_greater_range(s: Seq<Seq<char>>, x: Seq<char>, k: int)
    requires
        0 <= k <= s.len(),
    ensures
        k <= first_greater(s, x, k) <= s.len(),
    decreases s.len() - k,
{
    if k < s.len() && !text_lt(x, s[k]) {
        lemma_first_greater_range(s, x, k + 1);
    }
}

/// Object samples leave read-only properties out: a key of an object's sample
/// that is one of its properties names a schema that is not read-only.
pub proof fn lemma_object_sample_skips_read_only(
    doc: JsonV,
    schema: JsonV,
    depth: nat,
    stack: Seq<Seq<char>>,
    key: Seq<char>,
)
    requires
        depth <= 16,
        sample_object(doc, schema, depth, stack) matches Ok(JsonV::Object(m)) && entries_has(m, key),
        kw(schema, "properties"@) matches Some(JsonV::Object(props)) && entries_has(props, key),
    ensures
        writable(doc, kw(schema, "properties"@)->Some_0->Object_0, key),
{
    let props = kw(schema, "properties"@)->Some_0->Object_0;
    let m = sample_object(doc, schema, depth, stack)->Ok_0->Object_0;
    let keys = sampled_keys(doc, schema, props);
    let obj = object_fold(doc, props, keys, depth, stack)->Ok_0;
    lemma_add_missing_keys(obj, props, required_names(schema), key);
    lemma_object_fold_keys(doc, props, keys, depth, stack, key);
    let required = required_names(schema);
    let chosen = if required.len() == 0 {
        entry_keys(props)
    } else {
        keys_present(required, props)
    };
    let w1 = writable_keys(doc, props, chosen);
    let w2 = writable_keys(doc, props, entry_keys(props));
    lemma_writable_keys(doc, props, chosen);
    lemma_writable_keys(doc, props, entry_keys(props));
    let p = |k: Seq<char>| writable(doc, props, k);
    let j = choose|j: int| 0 <= j < keys.len() && keys[j] == key;
    if w1.len() == 0 {
        assert forall|i: int| 0 <= i < w2.len() implies p(#[trigger] w2[i]) by {}
        lemma_sort_keeps(w2, p);
        assert(p(keys[j]));
    } else {
        assert forall|i: int| 0 <= i < w1.len() implies p(#[trigger] w1[i]) by {}
        lemma_sort_keeps(w1, p);
        assert(p(keys[j]));
    }
}

// ---------------------------------------------------------------------------
// Object keys stay sorted.

/// Object entries listed by key in strictly ascending order (so no key occurs twice).
pub open spec fn sorted_keys(m: Seq<(Seq<char>, JsonV)>) -> bool {
    forall|i: int, j: int| 0 <= i < j < m.len() ==> text_lt(#[trigger] m[i].0, #[trigger] m[j].0)
}

proof fn lemma_entry_insert_bound(m: Seq<(Seq<char>, JsonV)>, name: Seq<char>, v: JsonV, lo: Seq<char>)
    requires
        text_lt(lo, name),
        forall|j: int| 0 <= j < m.len() ==> text_lt(lo, #[trigger] m[j].0),
    ensures
        forall|i: int|
            0 <= i < entries_insert(m, name, v).len() ==> text_lt(lo, #[trigger] entries_insert(m, name, v)[i].0),
    decreases m.len(),
{
    let r = entries_insert(m, name, v);
    if m.len() == 0 {
    } else if m[0].0 == name {
        assert forall|i: int| 0 <= i < r.len() implies text_lt(lo, #[trigger] r[i].0) by {
            if i > 0 {
                assert(r[i] == m[i]);
            }
        }
    } else if text_lt(name, m[0].0) {
        assert forall|i: int| 0 <= i < r.len() implies text_lt(lo, #[trigger] r[i].0) by {
            if i > 0 {
                assert(r[i] == m[i - 1]);
            }
        }
    } else {
        let t = m.drop_first();
        assert forall|j: int| 0 <= j < t.len() implies text_lt(lo, #[trigger] t[j].0) by {
            assert(t[j] == m[j + 1]);
        }
        lemma_entry_insert_bound(t, name, v, lo);
        let rt = entries_insert(t, name, v);
        assert forall|i: int| 0 <= i < r.len() implies text_lt(lo, #[trigger] r[i].0) by {
            if i > 0 {
                assert(r[i] == rt[i - 1]);
            }
        }
    }
}

/// Inserting into object entries sorted by key keeps them sorted, with no key
/// twice: objects built by insertion print their keys in ascending order.
pub proof fn lemma_entry_insert_sorted(m: Seq<(Seq<char>, JsonV)>, name: Seq<char>, v: JsonV)
    requires
        sorted_keys(m),
    ensures
        sorted_keys(entries_insert(m, name, v)),
    decreases m.len(),
{
    let r = entries_insert(m, name, v);
    if m.len() == 0 {
    } else if m[0].0 == name {
        assert forall|i: int, j: int| 0 <= i < j < r.len() implies text_lt(#[trigger] r[i].0, #[trigger] r[j].0) by {
            assert(r[j] == m[j]);
            if i > 0 {
                assert(r[i] == m[i]);
            }
        }
    } else if text_lt(name, m[0].0) {
        assert forall|i: int, j: int| 0 <= i < j < r.len() implies text_lt(#[trigger] r[i].0, #[trigger] r[j].0) by {
            assert(r[j] == m[j - 1]);
            if i > 0 {
                assert(r[i] == m[i - 1]);
            } else if j > 1 {
                assert(text_lt(m[0].0, m[j - 1].0));
                lemma_text_lt_transitive(name, m[0].0, m[j - 1].0);
            }
        }
    } else {
        lemma_text_lt_total(name, m[0].0);
        let t = m.drop_first();
        assert(sorted_keys(t)) by {
            assert forall|i: int, j: int| 0 <= i < j < t.len() implies text_lt(#[trigger] t[i].0, #[trigger] t[j].0) by {
                assert(t[i] == m[i + 1]);
                assert(t[j] == m[j + 1]);
            }
        }
        lemma_entry_insert_sorted(t, name, v);
        assert forall|j: int| 0 <= j < t.len() implies text_lt(m[0].0, #[trigger] t[j].0) by {
            assert(t[j] == m[j + 1]);
        }
        lemma_entry_insert_bound(t, name, v, m[0].0);
        let rt = entries_insert(t, name, v);
        assert forall|i: int, j: int| 0 <= i < j < r.len() implies text_lt(#[trigger] r[i].0, #[trigger] r[j].0) by {
            assert(r[j] == rt[j - 1]);
            if i > 0 {
                assert(r[i] == rt[i - 1]);
            }
        }
    }
}

// ---------------------------------------------------------------------------
// One file per operation.

proof fn lemma_decimal_len(n: nat)
    ensures
        decimal(n).len() >= 1,
    decreases n,
{
    if n >= 10 {
        lemma_decimal_len(n / 10);
    }
}

proof fn lemma_decimal_injective(a: nat, b: nat)
    requires
        decimal(a) == decimal(b),
    ensures
        a == b,
    decreases a,
{
    if a >= 10 {
        lemma_decimal_len(a / 10);
        assert(decimal(a).len() == decimal(a / 10).len() + 1);
    }
    if b >= 10 {
        lemma_decimal_len(b / 10);
        assert(decimal(b).len() == decimal(b / 10).len() + 1);
    }
    if a >= 10 && b >= 10 {
        let da = decimal(a);
        let db = decimal(b);
        assert(da.last() == digit_char(a % 10));
        assert(db.last() == digit_char(b % 10));
        assert(a % 10 == b % 10);
        assert(da.drop_last() =~= decimal(a / 10));
        assert(db.drop_last() =~= decimal(b / 10));
        lemma_decimal_injective(a / 10, b / 10);
        assert(a == 10 * (a / 10) + a % 10);
        assert(b == 10 * (b / 10) + b % 10);
    } else if a < 10 && b < 10 {
        assert(decimal(a)[0] == digit_char(a));
        assert(decimal(b)[0] == digit_char(b));
    }
}

proof fn lemma_candidate_injective(stem: Seq<char>, n: nat, m: nat)
    requires
        1 <= n,
        1 <= m,
        candidate(stem, n) == candidate(stem, m),
    ensures
        n == m,
{
    reveal_strlit(".hurl");
    reveal_strlit("_");
    assert(".hurl"@.len() == 5);
    assert("_"@.len() == 1);
    if n >= 2 && m >= 2 {
        let c = candidate(stem, n);
        let lo = stem.len() + 1;
        assert(c.subrange(lo as int, c.len() - 5) =~= decimal(n));
        assert(candidate(stem, m).subrange(lo as int, c.len() - 5) =~= decimal(m));
        lemma_decimal_injective(n, m);
    } else if n >= 2 {
        lemma_decimal_len(n);
        assert(candidate(stem, n).len() == stem.len() + 1 + decimal(n).len() + 5);
        assert(candidate(stem, m).len() == stem.len() + 5);
    } else if m >= 2 {
        lemma_decimal_len(m);
        assert(candidate(stem, m).len() == stem.len() + 1 + decimal(m).len() + 5);
        assert(candidate(stem, n).len() == stem.len() + 5);
    }
}

proof fn lemma_unique_name_scan(taken: Seq<Seq<char>>, stem: Seq<char>, n: nat)
    requires
        1 <= n <= taken.len() + 1,
        taken.contains(unique_name(taken, stem, n)),
    ensures
        forall|m: nat| n <= m <= taken.len() + 1 ==> taken.contains(#[trigger] candidate(stem, m)),
    decreases taken.len() + 1 - n,
{
    if n <= taken.len() && taken.contains(candidate(stem, n)) {
        lemma_unique_name_scan(taken, stem, n + 1);
        assert forall|m: nat| n <= m <= taken.len() + 1 implies taken.contains(
            #[trigger] candidate(stem, m),
        ) by {
            if m > n {
                assert(n + 1 <= m);
            }
        }
    }
}

proof fn lemma_unique_name_fresh(taken: Seq<Seq<char>>, stem: Seq<char>)
    ensures
        !taken.contains(unique_name(taken, stem, 1)),
{
    broadcast use vstd::seq_lib::seq_to_set_is_finite;

    if taken.contains(unique_name(taken, stem, 1)) {
        lemma_unique_name_scan(taken, stem, 1);
        let len: int = taken.len() as int;
        let x = vstd::set_lib::set_int_range(1, len + 2);
        vstd::set_lib::lemma_int_range(1, len + 2);
        let f = |i: int| candidate(stem, i as nat);
        assert(vstd::relations::injective_on(f, x)) by {
            assert forall|a: int, b: int| x.contains(a) && x.contains(b) && #[trigger] f(a) == #[trigger] f(b) implies a == b by {
                lemma_candidate_injective(stem, a as nat, b as nat);
            }
        }
        let y = x.map(f);
        vstd::set_lib::lemma_map_size(x, y, f);
        let t = taken.to_set();
        assert(y.subset_of(t)) by {
            assert forall|c: Seq<char>| y.contains(c) implies t.contains(c) by {
                let i = choose|i: int| x.contains(i) && f(i) == c;
                assert(taken.contains(candidate(stem, i as nat)));
            }
        }
        taken.lemma_cardinality_of_set();
        vstd::set_lib::lemma_len_subset(y, t);
    }
}

proof fn lemma_unique_name_hurl(taken: Seq<Seq<char>>, stem: Seq<char>, n: nat)
    ensures
        ends_with(unique_name(taken, stem, n), ".hurl"@),
    decreases taken.len() + 1 - n,
{
    reveal_strlit(".hurl");
    if !(n > taken.len() || !taken.contains(candidate(stem, n))) {
        lemma_unique_name_hurl(taken, stem, n + 1);
    } else {
        let c = candidate(stem, n);
        assert(c.subrange(c.len() - 5, c.len() as int) =~= ".hurl"@);
    }
}

/// File names of operations: one per operation, all different, all `.hurl`.
proof fn lemma_file_names(ops: Seq<OperationV>)
    ensures
        file_names(ops).len() == ops.len(),
        forall|i: int, j: int|
            0 <= i < j < ops.len() ==> #[trigger] file_names(ops)[i] != #[trigger] file_names(ops)[j],
        forall|i: int| 0 <= i < ops.len() ==> ends_with(#[trigger] file_names(ops)[i], ".hurl"@),
    decreases ops.len(),
{
    if ops.len() > 0 {
        lemma_file_names(ops.drop_last());
        let prev = file_names(ops.drop_last());
        let stem = file_stem(ops.last().method, ops.last().path);
        lemma_unique_name_fresh(prev, stem);
        lemma_unique_name_hurl(prev, stem, 1);
        let r = file_names(ops);
        assert forall|i: int, j: int| 0 <= i < j < ops.len() implies #[trigger] r[i] != #[trigger] r[j] by {
            if j == ops.len() - 1 {
                assert(r[i] == prev[i]);
                assert(prev.contains(prev[i]));
            } else {
                assert(r[i] == prev[i] && r[j] == prev[j]);
            }
        }
        assert forall|i: int| 0 <= i < ops.len() implies ends_with(#[trigger] r[i], ".hurl"@) by {
            if i < ops.len() - 1 {
                assert(r[i] == prev[i]);
            }
        }
    }
}

/// Whether a file list has a file of the given name.
pub open spec fn has_name(m: Seq<(Seq<char>, Seq<char>)>, name: Seq<char>) -> bool {
    exists|i: int| 0 <= i < m.len() && #[trigger] m[i].0 == name
}

proof fn lemma_files_insert_len(m: Seq<(Seq<char>, Seq<char>)>, name: Seq<char>, body: Seq<char>)
    requires
        sorted_names(m),
    ensures
        files_insert(m, name, body).len() == m.len() + (if has_name(m, name) {
            0int
        } else {
            1int
        }),
        forall|x: Seq<char>| #[trigger] has_name(files_insert(m, name, body), x) <==> (x == name || has_name(m, x)),
    decreases m.len(),
{
    let r = files_insert(m, name, body);
    if m.len() == 0 {
        assert(r[0].0 == name);
    } else if m[0].0 == name {
        assert(has_name(m, name)) by {
            assert(m[0].0 == name);
        }
        assert forall|x: Seq<char>| #[trigger] has_name(r, x) <==> (x == name || has_name(m, x)) by {
            if has_name(r, x) {
                let i = choose|i: int| 0 <= i < r.len() && r[i].0 == x;
                if i > 0 {
                    assert(m[i].0 == x);
                }
            }
            if has_name(m, x) {
                let i = choose|i: int| 0 <= i < m.len() && m[i].0 == x;
                if i > 0 {
                    assert(r[i].0 == x);
                } else {
                    assert(r[0].0 == x);
                }
            }
            if x == name {
                assert(r[0].0 == x);
            }
        }
    } else if text_lt(name, m[0].0) {
        assert(!has_name(m, name)) by {
            if has_name(m, name) {
                let i = choose|i: int| 0 <= i < m.len() && m[i].0 == name;
                if i > 0 {
                    assert(text_lt(m[0].0, m[i].0));
                    lemma_text_lt_transitive(name, m[0].0, name);
                }
                lemma_text_lt_irreflexive(name);
            }
        }
        assert forall|x: Seq<char>| #[trigger] has_name(r, x) <==> (x == name || has_name(m, x)) by {
            if has_name(r, x) {
                let i = choose|i: int| 0 <= i < r.len() && r[i].0 == x;
                if i > 0 {
                    assert(m[i - 1].0 == x);
                }
            }
            if has_name(m, x) {
                let i = choose|i: int| 0 <= i < m.len() && m[i].0 == x;
                assert(r[i + 1].0 == x);
            }
            if x == name {
                assert(r[0].0 == x);
            }
        }
    } else {
        let t = m.drop_first();
        assert(sorted_names(t)) by {
            assert forall|i: int, j: int| 0 <= i < j < t.len() implies text_lt(#[trigger] t[i].0, #[trigger] t[j].0) by {
                assert(t[i] == m[i + 1]);
                assert(t[j] == m[j + 1]);
            }
        }
        lemma_files_insert_len(t, name, body);
        let rt = files_insert(t, name, body);
        assert(has_name(m, name) == has_name(t, name)) by {
            if has_name(m, name) {
                let i = choose|i: int| 0 <= i < m.len() && m[i].0 == name;
                assert(i > 0);
                assert(t[i - 1].0 == name);
            }
            if has_name(t, name) {
                let i = choose|i: int| 0 <= i < t.len() && t[i].0 == name;
                assert(m[i + 1].0 == name);
            }
        }
        assert forall|x: Seq<char>| #[trigger] has_name(r, x) <==> (x == name || has_name(m, x)) by {
            if has_name(r, x) {
                let i = choose|i: int| 0 <= i < r.len() && r[i].0 == x;
                if i > 0 {
                    assert(rt[i - 1].0 == x);
                    assert(has_name(rt, x));
                } else {
                    assert(m[0].0 == x);
                }
            }
            if has_name(m, x) {
                let i = choose|i: int| 0 <= i < m.len() && m[i].0 == x;
                if i > 0 {
                    assert(t[i - 1].0 == x);
                    assert(has_name(t, x));
                    assert(has_name(rt, x));
                    let k = choose|k: int| 0 <= k < rt.len() && rt[k].0 == x;
                    assert(r[k + 1].0 == x);
                } else {
                    assert(r[0].0 == x);
                }
            }
            if x == name {
                assert(has_name(rt, x));
                let k = choose|k: int| 0 <= k < rt.len() && rt[k].0 == x;
                assert(r[k + 1].0 == x);
            }
        }
    }
}

proof fn lemma_insert_files_distinct(files: Seq<(Seq<char>, Seq<char>)>)
    requires
        forall|i: int, j: int| 0 <= i < j < files.len() ==> #[trigger] files[i].0 != #[trigger] files[j].0,
    ensures
        insert_files(Seq::empty(), files).len() == files.len(),
        sorted_names(insert_files(Seq::empty(), files)),
        forall|x: Seq<char>|
            #[trigger] has_name(insert_files(Seq::empty(), files), x) <==> exists|i: int|
                0 <= i < files.len() && #[trigger] files[i].0 == x,
    decreases files.len(),
{
    lemma_insert_files_sorted(Seq::empty(), files);
    if files.len() > 0 {
        let f = files.drop_last();
        assert forall|i: int, j: int| 0 <= i < j < f.len() implies #[trigger] f[i].0 != #[trigger] f[j].0 by {
            assert(f[i] == files[i] && f[j] == files[j]);
        }
        lemma_insert_files_distinct(f);
        let prev = insert_files(Seq::empty(), f);
        let last = files.last();
        assert(files[files.len() - 1] == last);
        lemma_files_insert_len(prev, last.0, last.1);
        assert(!has_name(prev, last.0)) by {
            if has_name(prev, last.0) {
                let i = choose|i: int| 0 <= i < f.len() && f[i].0 == last.0;
                assert(files[i].0 == files[files.len() - 1].0);
            }
        }
        let r = insert_files(Seq::empty(), files);
        assert forall|x: Seq<char>| #[trigger] has_name(r, x) <==> exists|i: int|
            0 <= i < files.len() && #[trigger] files[i].0 == x by {
            if has_name(r, x) {
                if x == last.0 {
                    assert(files[files.len() - 1].0 == x);
                } else {
                    assert(has_name(prev, x));
                    let i = choose|i: int| 0 <= i < f.len() && f[i].0 == x;
                    assert(files[i].0 == x);
                }
            }
            if exists|i: int| 0 <= i < files.len() && #[trigger] files[i].0 == x {
                let i = choose|i: int| 0 <= i < files.len() && #[trigger] files[i].0 == x;
                if i < files.len() - 1 {
                    assert(f[i].0 == x);
                    assert(has_name(prev, x));
                }
            }
        }
    }
}

proof fn lemma_render_files_names(d: DocumentV, names: Seq<Seq<char>>, n: nat)
    requires
        render_files(d, names, n) is Ok,
    ensures
        render_files(d, names, n)->Ok_0.len() == n,
        forall|i: int| 0 <= i < n ==> #[trigger] render_files(d, names, n)->Ok_0[i].0 == names[i],
    decreases n,
{
    if n > 0 {
        lemma_render_files_names(d, names, (n - 1) as nat);
        let prev = render_files(d, names, (n - 1) as nat)->Ok_0;
        let r = render_files(d, names, n)->Ok_0;
        assert forall|i: int| 0 <= i < n implies #[trigger] r[i].0 == names[i] by {
            if i < n - 1 {
                assert(r[i] == prev[i]);
            }
        }
    }
}

/// A generated suite has exactly one file per operation, each under that
/// operation's file name, plus `README.md`.
pub proof fn lemma_one_file_per_operation(d: DocumentV)
    requires
        suite_of(d) is Ok,
    ensures
        suite_of(d)->Ok_0.len() == d.operations.len() + 1,
        has_name(suite_of(d)->Ok_0, "README.md"@),
        forall|i: int|
            0 <= i < d.operations.len() ==> has_name(
                suite_of(d)->Ok_0,
                #[trigger] file_names(d.operations)[i],
            ),
{
    let ops = d.operations;
    let names = file_names(ops);
    lemma_file_names(ops);
    let files = render_suite(d)->Ok_0;
    lemma_render_files_names(d, names, ops.len());
    assert forall|i: int, j: int| 0 <= i < j < files.len() implies #[trigger] files[i].0 != #[trigger] files[j].0 by {
        assert(files[i].0 == names[i] && files[j].0 == names[j]);
    }
    lemma_insert_files_distinct(files);
    let x = insert_files(Seq::empty(), files);
    reveal_strlit("README.md");
    reveal_strlit(".hurl");
    assert(!has_name(x, "README.md"@)) by {
        if has_name(x, "README.md"@) {
            let i = choose|i: int| 0 <= i < files.len() && #[trigger] files[i].0 == "README.md"@;
            assert(files[i].0 == names[i]);
            assert(ends_with(names[i], ".hurl"@));
            let t = "README.md"@;
            assert(t.subrange(t.len() - 5, t.len() as int)[0] == 'M');
        }
    }
    let readme = readme_text(d, names);
    lemma_files_insert_len(x, "README.md"@, readme);
    let r = suite_of(d)->Ok_0;
    assert(r == files_insert(x, "README.md"@, readme));
    assert(has_name(r, "README.md"@));
    assert forall|i: int| 0 <= i < ops.len() implies has_name(r, #[trigger] names[i]) by {
        assert(files[i].0 == names[i]);
        assert(has_name(x, names[i]));
    }
}

// ---------------------------------------------------------------------------
// Carriage returns.

/// Text that holds no carriage return.
pub open spec fn no_cr(s: Seq<char>) -> bool {
    forall|i: int| 0 <= i < s.len() ==> s[i] != '\r'
}

/// Joining texts without carriage returns gives one without.
pub broadcast proof fn lemma_no_cr_add(a: Seq<char>, b: Seq<char>)
    requires
        no_cr(a),
        no_cr(b),
    ensures
        #[trigger] no_cr(a + b),
{
    assert forall|i: int| 0 <= i < (a + b).len() implies (a + b)[i] != '\r' by {
        if i < a.len() {
            assert((a + b)[i] == a[i]);
        } else {
            assert((a + b)[i] == b[i - a.len()]);
        }
    }
}

proof fn lemma_one_line_no_cr(s: Seq<char>)
    ensures
        no_cr(one_line(s)),
{
    assert forall|i: int| 0 <= i < one_line(s).len() implies one_line(s)[i] != '\r' by {
        assert(one_line(s)[i] == flat_char(s[i]));
    }
}

proof fn lemma_escape_no_cr(s: Seq<char>, quote: char)
    requires
        quote != '\r',
    ensures
        no_cr(escape_value(s)),
        no_cr(escape_key(s)),
        no_cr(escape_quoted(s, quote)),
    decreases s.len(),
{
    broadcast use lemma_no_cr_add;

    if s.len() > 0 {
        lemma_escape_no_cr(s.drop_last(), quote);
        let c = s.last();
        assert(no_cr(value_char(c)));
        assert(no_cr(key_char(c)));
        assert(no_cr(quoted_char(c, quote)));
    }
}

proof fn lemma_decimal_no_cr(n: nat)
    ensures
        no_cr(decimal(n)),
    decreases n,
{
    broadcast use lemma_no_cr_add;

    if n >= 10 {
        lemma_decimal_no_cr(n / 10);
        let d = decimal(n / 10);
        assert(decimal(n) =~= d + seq![digit_char(n % 10)]);
        assert(no_cr(seq![digit_char(n % 10)]));
    } else {
        assert(no_cr(seq![digit_char(n)]));
    }
}

proof fn lemma_percent_byte_no_cr(b: nat)
    requires
        b < 256,
    ensures
        no_cr(percent_byte(b)),
{
    let p = percent_byte(b);
    assert(p[1] == hex_upper(b / 16));
    assert(p[2] == hex_upper(b % 16));
}

proof fn lemma_percent_no_cr(s: Seq<char>)
    ensures
        no_cr(percent_encode(s)),
    decreases s.len(),
{
    broadcast use lemma_no_cr_add;

    if s.len() > 0 {
        lemma_percent_no_cr(s.drop_last());
        let c = s.last();
        let u = c as nat;
        if is_unreserved(c) {
            assert(no_cr(seq![c]));
        } else if u < 0x80 {
            lemma_percent_byte_no_cr(u);
        } else if u < 0x800 {
            lemma_percent_byte_no_cr(0xC0 + u / 64);
            lemma_percent_byte_no_cr(0x80 + u % 64);
        } else if u < 0x10000 {
            lemma_percent_byte_no_cr(0xE0 + u / 4096);
            lemma_percent_byte_no_cr(0x80 + (u / 64) % 64);
            lemma_percent_byte_no_cr(0x80 + u % 64);
        } else {
            lemma_percent_byte_no_cr(0xF0 + (u / 262144) % 8);
            lemma_percent_byte_no_cr(0x80 + (u / 4096) % 64);
            lemma_percent_byte_no_cr(0x80 + (u / 64) % 64);
            lemma_percent_byte_no_cr(0x80 + u % 64);
        }
        assert(no_cr(percent_char(c)));
    }
}

proof fn lemma_fill_path_no_cr(path: Seq<char>, k: int, values: Seq<(Seq<char>, Seq<char>)>)
    requires
        no_cr(path),
    ensures
        no_cr(fill_path_from(path, k, values)),
    decreases path.len() - k,
{
    broadcast use lemma_no_cr_add;

    reveal_strlit("{");
    reveal_strlit("}");
    if 0 <= k < path.len() {
        if path[k] == '{' {
            crate::text::lemma_index_of_from(path, '}', k + 1);
            match crate::text::index_of_from(path, '}', k + 1) {
                Some(e) => {
                    let name = path.subrange(k + 1, e);
                    assert(no_cr(name)) by {
                        assert forall|i: int| 0 <= i < name.len() implies name[i] != '\r' by {
                            assert(name[i] == path[k + 1 + i]);
                        }
                    }
                    match lookup(values, name) {
                        Some(v) => lemma_percent_no_cr(v),
                        None => {},
                    }
                    lemma_fill_path_no_cr(path, e + 1, values);
                },
                None => {
                    let rest = path.subrange(k, path.len() as int);
                    assert forall|i: int| 0 <= i < rest.len() implies rest[i] != '\r' by {
                        assert(rest[i] == path[k + i]);
                    }
                },
            }
        } else {
            assert(no_cr(seq![path[k]]));
            lemma_fill_path_no_cr(path, k + 1, values);
        }
    }
}

proof fn lemma_pair_lines_no_cr(pairs: Seq<(Seq<char>, Seq<char>)>)
    ensures
        no_cr(pair_lines(pairs)),
    decreases pairs.len(),
{
    broadcast use lemma_no_cr_add;

    reveal_strlit(": ");
    reveal_strlit("\n");
    if pairs.len() > 0 {
        lemma_pair_lines_no_cr(pairs.drop_last());
        lemma_escape_no_cr(pairs.last().0, '"');
        lemma_escape_no_cr(pairs.last().1, '"');
    }
}

proof fn lemma_section_no_cr(title: Seq<char>, pairs: Seq<(Seq<char>, Seq<char>)>)
    requires
        no_cr(title),
    ensures
        no_cr(section(title, pairs)),
{
    broadcast use lemma_no_cr_add;

    reveal_strlit("\n");
    lemma_pair_lines_no_cr(pairs);
}

proof fn lemma_note_lines_no_cr(notes: Seq<Seq<char>>)
    ensures
        no_cr(note_lines(notes)),
    decreases notes.len(),
{
    broadcast use lemma_no_cr_add;

    reveal_strlit("# note: ");
    reveal_strlit("\n");
    if notes.len() > 0 {
        lemma_note_lines_no_cr(notes.drop_last());
        lemma_one_line_no_cr(notes.last());
    }
}

/// Every number of a JSON value prints without a carriage return.
pub open spec fn floats_ok(v: JsonV) -> bool
    decreases v,
{
    match v {
        JsonV::Number(NumV::Float(t)) => no_cr(t),
        JsonV::Array(items) => items_floats_ok(items),
        JsonV::Object(m) => entries_floats_ok(m),
        _ => true,
    }
}

/// `floats_ok` for every item.
pub open spec fn items_floats_ok(s: Seq<JsonV>) -> bool
    decreases s,
{
    if s.len() == 0 {
        true
    } else {
        items_floats_ok(s.drop_last()) && floats_ok(s.last())
    }
}

/// `floats_ok` for every entry value.
pub open spec fn entries_floats_ok(m: Seq<(Seq<char>, JsonV)>) -> bool
    decreases m,
{
    if m.len() == 0 {
        true
    } else {
        entries_floats_ok(m.drop_last()) && floats_ok(m.last().1)
    }
}

proof fn lemma_escape_text_no_cr(s: Seq<char>)
    ensures
        no_cr(escape_text(s)),
        no_cr(json_quoted(s)),
    decreases s.len(),
{
    broadcast use lemma_no_cr_add;

    if s.len() > 0 {
        lemma_escape_text_no_cr(s.drop_last());
        let c = s.last();
        let e = escape_char(c);
        if c != '"' && c != '\\' && c != '\u{8}' && c != '\u{c}' && c != '\n' && c != '\r' && c
            != '\t' && (c as u32) < 0x20 {
            assert(e[4] == hex_digit((c as u32 / 16) as nat));
            assert(e[5] == hex_digit((c as u32 % 16) as nat));
        }
        assert(no_cr(e));
    }
    assert(no_cr(seq!['"']));
}

proof fn lemma_num_text_no_cr(n: NumV)
    requires
        n matches NumV::Float(t) ==> no_cr(t),
    ensures
        no_cr(num_text(n)),
{
    broadcast use lemma_no_cr_add;

    match n {
        NumV::PosInt(u) => lemma_decimal_no_cr(u as nat),
        NumV::NegInt(i) => {
            if i < 0 {
                lemma_decimal_no_cr((-i) as nat);
                assert(no_cr(seq!['-']));
            } else {
                lemma_decimal_no_cr(i as nat);
            }
        },
        NumV::Float(t) => {},
    }
}

proof fn lemma_pretty_no_cr(v: JsonV, indent: Seq<char>)
    requires
        floats_ok(v),
        no_cr(indent),
    ensures
        no_cr(pretty(v, indent)),
    decreases v,
{
    broadcast use lemma_no_cr_add;

    let inner = indent + seq![' ', ' '];
    assert(no_cr(seq![' ', ' ']));
    assert(no_cr(seq!['[', '\n']) && no_cr(seq!['{', '\n']) && no_cr(seq!['\n']) && no_cr(seq![']'])
        && no_cr(seq!['}']) && no_cr(seq!['[', ']']) && no_cr(seq!['{', '}']));
    match v {
        JsonV::Array(items) => {
            if items.len() > 0 {
                lemma_pretty_items_no_cr(items, inner);
            }
        },
        JsonV::Object(m) => {
            if m.len() > 0 {
                lemma_pretty_entries_no_cr(m, inner);
            }
        },
        JsonV::Null => {
            assert(no_cr(seq!['n', 'u', 'l', 'l']));
        },
        JsonV::Bool(b) => {
            assert(no_cr(seq!['t', 'r', 'u', 'e']));
            assert(no_cr(seq!['f', 'a', 'l', 's', 'e']));
        },
        JsonV::Number(n) => lemma_num_text_no_cr(n),
        JsonV::Str(t) => lemma_escape_text_no_cr(t),
    }
}

proof fn lemma_pretty_items_no_cr(s: Seq<JsonV>, indent: Seq<char>)
    requires
        items_floats_ok(s),
        no_cr(indent),
    ensures
        no_cr(pretty_items(s, indent)),
    decreases s,
{
    broadcast use lemma_no_cr_add;

    assert(no_cr(seq![',', '\n']));
    if s.len() == 1 {
        assert(s[0] == s.last());
        lemma_pretty_no_cr(s[0], indent);
    } else if s.len() > 1 {
        lemma_pretty_items_no_cr(s.drop_last(), indent);
        lemma_pretty_no_cr(s.last(), indent);
    }
}

proof fn lemma_pretty_entries_no_cr(m: Seq<(Seq<char>, JsonV)>, indent: Seq<char>)
    requires
        entries_floats_ok(m),
        no_cr(indent),
    ensures
        no_cr(pretty_entries(m, indent)),
    decreases m,
{
    broadcast use lemma_no_cr_add;

    assert(no_cr(seq![',', '\n']) && no_cr(seq![':', ' ']));
    if m.len() == 1 {
        assert(m[0] == m.last());
        lemma_escape_text_no_cr(m[0].0);
        lemma_pretty_no_cr(m[0].1, indent);
    } else if m.len() > 1 {
        lemma_pretty_entries_no_cr(m.drop_last(), indent);
        lemma_escape_text_no_cr(m.last().0);
        lemma_pretty_no_cr(m.last().1, indent);
    }
}


proof fn lemma_opt_comment_no_cr(label: Seq<char>, value: Option<Seq<char>>)
    requires
        no_cr(label),
    ensures
        no_cr(opt_comment(label, value)),
{
    broadcast use lemma_no_cr_add;

    reveal_strlit("# ");
    reveal_strlit(": ");
    reveal_strlit("\n");
    match value {
        Some(t) => lemma_one_line_no_cr(t),
        None => {},
    }
}

proof fn lemma_comment_no_cr(d: DocumentV, op: OperationV)
    ensures
        no_cr(comment_text(d, op)),
{
    broadcast use lemma_no_cr_add;

    reveal_strlit("# ");
    reveal_strlit("\n");
    reveal_strlit("# deprecated\n");
    reveal_strlit("operationId");
    reveal_strlit("summary");
    reveal_strlit("base_url");
    lemma_one_line_no_cr(op.method + " "@ + op.path);
    lemma_opt_comment_no_cr("operationId"@, kw_str(op.raw, "operationId"@));
    lemma_opt_comment_no_cr("summary"@, kw_str(op.raw, "summary"@));
    lemma_opt_comment_no_cr("base_url"@, server_hint(d.servers));
    assert(no_cr(Seq::<char>::empty()));
}

proof fn lemma_response_no_cr(st: StatusV)
    ensures
        no_cr(accept_line(st)),
        no_cr(response_text(st)),
{
    broadcast use lemma_no_cr_add;

    reveal_strlit("Accept: ");
    reveal_strlit("HTTP ");
    reveal_strlit("\n");
    reveal_strlit("[Asserts]\n");
    reveal_strlit("status >= 200\nstatus < 300\n");
    reveal_strlit("header \"Content-Type\" contains \"");
    reveal_strlit("\"\n");
    assert(no_cr(Seq::<char>::empty()));
    lemma_one_line_no_cr(st.code);
    match response_media(st.response) {
        Some(key) => {
            lemma_escape_no_cr(key, '"');
            lemma_escape_no_cr(base_content_type(key), '"');
        },
        None => {},
    }
    assert(no_cr(assert_lines(st)));
}

/// The sample a request body is written from, when there is one.
pub open spec fn body_sample(doc: JsonV, body: Option<JsonV>) -> Option<JsonV> {
    match body {
        Some(b) => match json_get(b, "content"@) {
            Some(JsonV::Object(m)) => match choose_media(m) {
                Some(i) => match sample_media(doc, m[i].1) {
                    Ok(Some(v)) => Some(v),
                    _ => None,
                },
                None => None,
            },
            _ => None,
        },
        None => None,
    }
}

proof fn lemma_body_no_cr(doc: JsonV, body: Option<JsonV>)
    requires
        body_part(doc, body) is Ok,
        body_sample(doc, body) matches Some(v) ==> floats_ok(v),
    ensures
        no_cr(body_part(doc, body)->Ok_0.text),
        no_cr(content_type_line(body_part(doc, body)->Ok_0.content_type)),
{
    broadcast use lemma_no_cr_add;

    reveal_strlit("\n");
    reveal_strlit("`");
    reveal_strlit("`\n");
    reveal_strlit("Content-Type: ");
    assert(no_cr(Seq::<char>::empty()));
    match body {
        Some(b) => match json_get(b, "content"@) {
            Some(JsonV::Object(m)) => match choose_media(m) {
                Some(i) => {
                    lemma_escape_no_cr(m[i].0, '"');
                    match sample_media(doc, m[i].1) {
                        Ok(Some(v)) => {
                            let rank = media_rank(m[i].0);
                            if rank == 0 {
                                lemma_pretty_no_cr(v, Seq::empty());
                            } else if rank == 2 {
                                lemma_escape_no_cr(value_to_wire_string(v), '`');
                            }
                        },
                        _ => {},
                    }
                },
                None => {},
            },
            _ => {},
        },
        None => {},
    }
}

proof fn lemma_request_no_cr(
    op: OperationV,
    pathv: Seq<(Seq<char>, Seq<char>)>,
    headerv: Seq<(Seq<char>, Seq<char>)>,
    queryv: Seq<(Seq<char>, Seq<char>)>,
    body: BodyV,
    st: StatusV,
)
    requires
        no_cr(op.method),
        no_cr(op.path),
        no_cr(body.text),
        no_cr(content_type_line(body.content_type)),
    ensures
        no_cr(request_text(op, pathv, headerv, queryv, body, st)),
{
    broadcast use lemma_no_cr_add;

    reveal_strlit(" {{base_url}}");
    reveal_strlit("\n");
    reveal_strlit("[Query]");
    reveal_strlit("[Form]");
    lemma_fill_path_no_cr(op.path, 0, pathv);
    lemma_pair_lines_no_cr(headerv);
    lemma_response_no_cr(st);
    lemma_section_no_cr("[Query]"@, queryv);
    lemma_section_no_cr("[Form]"@, body.form);
}

/// An operation's file holds no carriage return, when the operation's method and
/// path hold none and neither do the numbers of the sample its body is written
/// from.
pub proof fn lemma_operation_file_has_no_cr(d: DocumentV, op: OperationV)
    requires
        render_operation(d, op) is Ok,
        no_cr(op.method),
        no_cr(op.path),
        body_sample(d.doc, op.request_body) matches Some(v) ==> floats_ok(v),
    ensures
        no_cr(render_operation(d, op)->Ok_0),
{
    broadcast use lemma_no_cr_add;

    reveal_strlit("\n");
    let st = choose_status(op.responses);
    let pathv = param_values(d.doc, op.parameters, "path"@)->Ok_0;
    let headerv = param_values(d.doc, op.parameters, "header"@)->Ok_0;
    let queryv = param_values(d.doc, op.parameters, "query"@)->Ok_0;
    let body = body_part(d.doc, op.request_body)->Ok_0;
    lemma_body_no_cr(d.doc, op.request_body);
    lemma_comment_no_cr(d, op);
    lemma_note_lines_no_cr(operation_notes(op, body, st));
    lemma_request_no_cr(op, pathv, headerv, queryv, body, st);
    lemma_response_no_cr(st);
    assert(render_operation(d, op)->Ok_0 == operation_text(d, op, pathv, headerv, queryv, body));
}


proof fn lemma_bullets_no_cr(urls: Seq<Seq<char>>)
    ensures
        no_cr(bullet_lines(urls)),
    decreases urls.len(),
{
    broadcast use lemma_no_cr_add;

    reveal_strlit("- ");
    reveal_strlit("\n");
    if urls.len() > 0 {
        lemma_bullets_no_cr(urls.drop_last());
        lemma_one_line_no_cr(urls.last());
    }
}

proof fn lemma_table_no_cr(names: Seq<Seq<char>>, ops: Seq<OperationV>)
    ensures
        no_cr(table_rows(names, ops)),
    decreases ops.len(),
{
    broadcast use lemma_no_cr_add;

    reveal_strlit("| `");
    reveal_strlit("` | `");
    reveal_strlit("` |\n");
    if ops.len() > 0 && names.len() >= ops.len() {
        let i = ops.len() - 1;
        lemma_table_no_cr(names, ops.drop_last());
        lemma_one_line_no_cr(names[i]);
        lemma_one_line_no_cr(ops[i].method + " "@ + ops[i].path);
    }
}

/// The README of a suite holds no carriage return.
pub proof fn lemma_readme_has_no_cr(d: DocumentV, names: Seq<Seq<char>>)
    ensures
        no_cr(readme_text(d, names)),
{
    let l1 = "# "@;
    let l2 = " contract tests\n\nHurl contract tests for "@;
    let l3 = " "@;
    let l4 = " (OpenAPI "@;
    let l5 = "), from `"@;
    let l6 = "`.\n\nRun them against a server:\n\n```sh\nhurl --variable base_url="@;
    let l7 = " --test .\n```\n"@;
    let l8 = "\nServers listed in the document:\n\n"@;
    let l9 = "\n| File | Operation |\n| --- | --- |\n"@;
    let l10 = "\nWebhooks are not covered.\n"@;
    reveal_strlit("# ");
    reveal_strlit(" contract tests\n\nHurl contract tests for ");
    reveal_strlit(" ");
    reveal_strlit(" (OpenAPI ");
    reveal_strlit("), from `");
    reveal_strlit("`.\n\nRun them against a server:\n\n```sh\nhurl --variable base_url=");
    reveal_strlit(" --test .\n```\n");
    reveal_strlit("\nServers listed in the document:\n\n");
    reveal_strlit("\n| File | Operation |\n| --- | --- |\n");
    reveal_strlit("\nWebhooks are not covered.\n");
    reveal_strlit("http://localhost:8080");
    assert(no_cr(l1) && no_cr(l2) && no_cr(l3) && no_cr(l4) && no_cr(l5));
    assert(no_cr(l6) && no_cr(l7) && no_cr(l8) && no_cr(l9) && no_cr(l10));
    assert(no_cr(Seq::<char>::empty()));
    assert(no_cr("http://localhost:8080"@));
    lemma_one_line_no_cr(d.title);
    lemma_one_line_no_cr(d.version);
    lemma_one_line_no_cr(d.openapi);
    lemma_one_line_no_cr(d.source_name);
    match server_hint(d.servers) {
        Some(h) => lemma_one_line_no_cr(h),
        None => {},
    }
    let base = readme_base(d.servers);
    assert(no_cr(base));
    lemma_bullets_no_cr(d.servers);
    lemma_table_no_cr(names, d.operations);
    let servers: Seq<char> = if d.servers.len() == 0 {
        Seq::empty()
    } else {
        l8 + bullet_lines(d.servers)
    };
    let tail: Seq<char> = if d.has_webhooks {
        l10
    } else {
        Seq::empty()
    };
    if d.servers.len() > 0 {
        lemma_no_cr_add(l8, bullet_lines(d.servers));
    }
    let a1 = l1 + one_line(d.title);
    lemma_no_cr_add(l1, one_line(d.title));
    let a2 = a1 + l2;
    lemma_no_cr_add(a1, l2);
    let a3 = a2 + one_line(d.title);
    lemma_no_cr_add(a2, one_line(d.title));
    let a4 = a3 + l3;
    lemma_no_cr_add(a3, l3);
    let a5 = a4 + one_line(d.version);
    lemma_no_cr_add(a4, one_line(d.version));
    let a6 = a5 + l4;
    lemma_no_cr_add(a5, l4);
    let a7 = a6 + one_line(d.openapi);
    lemma_no_cr_add(a6, one_line(d.openapi));
    let a8 = a7 + l5;
    lemma_no_cr_add(a7, l5);
    let a9 = a8 + one_line(d.source_name);
    lemma_no_cr_add(a8, one_line(d.source_name));
    let a10 = a9 + l6;
    lemma_no_cr_add(a9, l6);
    let a11 = a10 + base;
    lemma_no_cr_add(a10, base);
    let a12 = a11 + l7;
    lemma_no_cr_add(a11, l7);
    let a13 = a12 + servers;
    lemma_no_cr_add(a12, servers);
    let a14 = a13 + l9;
    lemma_no_cr_add(a13, l9);
    let a15 = a14 + table_rows(names, d.operations);
    lemma_no_cr_add(a14, table_rows(names, d.operations));
    let a16 = a15 + tail;
    lemma_no_cr_add(a15, tail);
    assert(readme_text(d, names) == a16);
}

/// Every file of a list holds no carriage return.
pub open spec fn all_no_cr(m: Seq<(Seq<char>, Seq<char>)>) -> bool {
    forall|i: int| 0 <= i < m.len() ==> no_cr(#[trigger] m[i].1)
}

proof fn lemma_insert_keeps_no_cr(m: Seq<(Seq<char>, Seq<char>)>, name: Seq<char>, body: Seq<char>)
    requires
        all_no_cr(m),
        no_cr(body),
    ensures
        all_no_cr(files_insert(m, name, body)),
    decreases m.len(),
{
    let r = files_insert(m, name, body);
    if m.len() == 0 {
    } else if m[0].0 == name {
        assert forall|i: int| 0 <= i < r.len() implies no_cr(#[trigger] r[i].1) by {
            if i > 0 {
                assert(r[i] == m[i]);
            }
        }
    } else if text_lt(name, m[0].0) {
        assert forall|i: int| 0 <= i < r.len() implies no_cr(#[trigger] r[i].1) by {
            if i > 0 {
                assert(r[i] == m[i - 1]);
            }
        }
    } else {
        let t = m.drop_first();
        assert(all_no_cr(t)) by {
            assert forall|i: int| 0 <= i < t.len() implies no_cr(#[trigger] t[i].1) by {
                assert(t[i] == m[i + 1]);
            }
        }
        lemma_insert_keeps_no_cr(t, name, body);
        let rt = files_insert(t, name, body);
        assert forall|i: int| 0 <= i < r.len() implies no_cr(#[trigger] r[i].1) by {
            if i > 0 {
                assert(r[i] == rt[i - 1]);
            }
        }
    }
}

proof fn lemma_insert_files_keeps_no_cr(m: Seq<(Seq<char>, Seq<char>)>, files: Seq<(Seq<char>, Seq<char>)>)
    requires
        all_no_cr(m),
        all_no_cr(files),
    ensures
        all_no_cr(insert_files(m, files)),
    decreases files.len(),
{
    if files.len() > 0 {
        let f = files.drop_last();
        assert(all_no_cr(f)) by {
            assert forall|i: int| 0 <= i < f.len() implies no_cr(#[trigger] f[i].1) by {
                assert(f[i] == files[i]);
            }
        }
        lemma_insert_files_keeps_no_cr(m, f);
        assert(files[files.len() - 1] == files.last());
        lemma_insert_keeps_no_cr(insert_files(m, f), files.last().0, files.last().1);
    }
}

/// What an operation's file needs to hold no carriage return: a method and a
/// path without one, and a body sample whose numbers print without one.
pub open spec fn operation_text_clean(d: DocumentV, op: OperationV) -> bool {
    &&& no_cr(op.method)
    &&& no_cr(op.path)
    &&& (body_sample(d.doc, op.request_body) matches Some(v) ==> floats_ok(v))
}

proof fn lemma_render_files_no_cr(d: DocumentV, names: Seq<Seq<char>>, n: nat)
    requires
        render_files(d, names, n) is Ok,
        n <= d.operations.len(),
        forall|i: int| 0 <= i < d.operations.len() ==> operation_text_clean(d, #[trigger] d.operations[i]),
    ensures
        all_no_cr(render_files(d, names, n)->Ok_0),
    decreases n,
{
    if n > 0 {
        lemma_render_files_no_cr(d, names, (n - 1) as nat);
        assert(operation_text_clean(d, d.operations[n - 1]));
        lemma_operation_file_has_no_cr(d, d.operations[n - 1]);
        let prev = render_files(d, names, (n - 1) as nat)->Ok_0;
        let r = render_files(d, names, n)->Ok_0;
        assert forall|i: int| 0 <= i < r.len() implies no_cr(#[trigger] r[i].1) by {
            if i < prev.len() {
                assert(r[i] == prev[i]);
            }
        }
    }
}

/// No file of a generated suite holds a carriage return, when no operation's
/// method, path or body-sample number holds one.
pub proof fn lemma_suite_files_have_no_cr(d: DocumentV)
    requires
        suite_of(d) is Ok,
        forall|i: int| 0 <= i < d.operations.len() ==> operation_text_clean(d, #[trigger] d.operations[i]),
    ensures
        all_no_cr(suite_of(d)->Ok_0),
{
    let files = render_suite(d)->Ok_0;
    lemma_render_files_no_cr(d, file_names(d.operations), d.operations.len());
    lemma_insert_files_keeps_no_cr(Seq::empty(), files);
    lemma_readme_has_no_cr(d, file_names(d.operations));
    lemma_insert_keeps_no_cr(
        insert_files(Seq::empty(), files),
        "README.md"@,
        readme_text(d, file_names(d.operations)),
    );
}


/// Method/operation pairs whose method names hold no carriage return.
pub open spec fn method_names_no_cr(ms: Seq<(Seq<char>, JsonV)>) -> bool {
    forall|i: int| 0 <= i < ms.len() ==> no_cr(#[trigger] ms[i].0)
}

/// Operations whose methods hold no carriage return.
pub open spec fn op_methods_no_cr(ops: Seq<OperationV>) -> bool {
    forall|i: int| 0 <= i < ops.len() ==> no_cr(#[trigger] ops[i].method)
}

proof fn lemma_method_names_add(a: Seq<(Seq<char>, JsonV)>, b: Seq<(Seq<char>, JsonV)>)
    requires
        method_names_no_cr(a),
        method_names_no_cr(b),
    ensures
        method_names_no_cr(a + b),
{
    assert forall|i: int| 0 <= i < (a + b).len() implies no_cr(#[trigger] (a + b)[i].0) by {
        if i < a.len() {
            assert((a + b)[i] == a[i]);
        } else {
            assert((a + b)[i] == b[i - a.len()]);
        }
    }
}

proof fn lemma_method_entry_no_cr(v: JsonV, upper: Seq<char>, lower: Seq<char>)
    requires
        no_cr(upper),
    ensures
        method_names_no_cr(method_entry(v, upper, lower)),
{
}

proof fn lemma_methods_no_cr(v: JsonV)
    ensures
        method_names_no_cr(methods(v)),
{
    reveal_strlit("GET");
    reveal_strlit("POST");
    reveal_strlit("PUT");
    reveal_strlit("PATCH");
    reveal_strlit("DELETE");
    reveal_strlit("HEAD");
    reveal_strlit("OPTIONS");
    reveal_strlit("TRACE");
    assert(no_cr("GET"@) && no_cr("POST"@) && no_cr("PUT"@) && no_cr("PATCH"@));
    assert(no_cr("DELETE"@) && no_cr("HEAD"@) && no_cr("OPTIONS"@) && no_cr("TRACE"@));
    let e1 = method_entry(v, "GET"@, "get"@);
    let e2 = method_entry(v, "POST"@, "post"@);
    let e3 = method_entry(v, "PUT"@, "put"@);
    let e4 = method_entry(v, "PATCH"@, "patch"@);
    let e5 = method_entry(v, "DELETE"@, "delete"@);
    let e6 = method_entry(v, "HEAD"@, "head"@);
    let e7 = method_entry(v, "OPTIONS"@, "options"@);
    let e8 = method_entry(v, "TRACE"@, "trace"@);
    lemma_method_entry_no_cr(v, "GET"@, "get"@);
    lemma_method_entry_no_cr(v, "POST"@, "post"@);
    lemma_method_entry_no_cr(v, "PUT"@, "put"@);
    lemma_method_entry_no_cr(v, "PATCH"@, "patch"@);
    lemma_method_entry_no_cr(v, "DELETE"@, "delete"@);
    lemma_method_entry_no_cr(v, "HEAD"@, "head"@);
    lemma_method_entry_no_cr(v, "OPTIONS"@, "options"@);
    lemma_method_entry_no_cr(v, "TRACE"@, "trace"@);
    lemma_method_names_add(e1, e2);
    lemma_method_names_add(e1 + e2, e3);
    lemma_method_names_add(e1 + e2 + e3, e4);
    lemma_method_names_add(e1 + e2 + e3 + e4, e5);
    lemma_method_names_add(e1 + e2 + e3 + e4 + e5, e6);
    lemma_method_names_add(e1 + e2 + e3 + e4 + e5 + e6, e7);
    lemma_method_names_add(e1 + e2 + e3 + e4 + e5 + e6 + e7, e8);
}

proof fn lemma_method_operations_no_cr(
    doc: JsonV,
    path: Seq<char>,
    pp: Seq<JsonV>,
    ms: Seq<(Seq<char>, JsonV)>,
)
    requires
        method_names_no_cr(ms),
        method_operations(doc, path, pp, ms) is Ok,
    ensures
        op_methods_no_cr(method_operations(doc, path, pp, ms)->Ok_0),
    decreases ms.len(),
{
    if ms.len() > 0 {
        let f = ms.drop_last();
        assert(method_names_no_cr(f)) by {
            assert forall|i: int| 0 <= i < f.len() implies no_cr(#[trigger] f[i].0) by {
                assert(f[i] == ms[i]);
            }
        }
        lemma_method_operations_no_cr(doc, path, pp, f);
        assert(ms[ms.len() - 1] == ms.last());
        let prev = method_operations(doc, path, pp, f)->Ok_0;
        let op = build_operation(doc, path, pp, ms.last().0, ms.last().1)->Ok_0;
        assert(op.method == ms.last().0);
        let r = method_operations(doc, path, pp, ms)->Ok_0;
        assert(r == prev.push(op));
        assert forall|i: int| 0 <= i < r.len() implies no_cr(#[trigger] r[i].method) by {
            if i < prev.len() {
                assert(r[i] == prev[i]);
            }
        }
    }
}

proof fn lemma_collect_no_cr(doc: JsonV, paths: Seq<(Seq<char>, JsonV)>)
    requires
        collect(doc, paths) is Ok,
    ensures
        op_methods_no_cr(collect(doc, paths)->Ok_0),
    decreases paths.len(),
{
    if paths.len() > 0 {
        lemma_collect_no_cr(doc, paths.drop_last());
        let prev = collect(doc, paths.drop_last())->Ok_0;
        let path = paths.last().0;
        let item = paths.last().1;
        let resolved = resolve_path_item(doc, item, Seq::empty())->Ok_0;
        let pp = resolve_params(doc, params_of(resolved))->Ok_0;
        lemma_methods_no_cr(resolved);
        lemma_method_operations_no_cr(doc, path, pp, methods(resolved));
        let ops = path_operations(doc, path, item)->Ok_0;
        assert(ops == method_operations(doc, path, pp, methods(resolved))->Ok_0);
        let r = collect(doc, paths)->Ok_0;
        assert(r == prev + ops);
        assert forall|i: int| 0 <= i < r.len() implies no_cr(#[trigger] r[i].method) by {
            if i < prev.len() {
                assert(r[i] == prev[i]);
            } else {
                assert(r[i] == ops[i - prev.len()]);
            }
        }
    }
}

/// The document read from a text, when it can be read.
pub open spec fn document_of(source_name: Seq<char>, source: Seq<char>) -> DocumentV {
    load_text(source_name, source_name, source)->Ok_0
}

/// What a document's operation needs for its file to hold no carriage return,
/// besides a method name (which a read document always has without one): a path
/// without one, and a body sample whose numbers print without one.
pub open spec fn path_and_body_no_cr(d: DocumentV, op: OperationV) -> bool {
    &&& no_cr(op.path)
    &&& (body_sample(d.doc, op.request_body) matches Some(v) ==> floats_ok(v))
}

/// No file generated from a document's text holds a carriage return, when no
/// operation's path, and no number of a request-body sample, holds one.
pub proof fn lemma_generated_files_have_no_cr(source_name: Seq<char>, source: Seq<char>)
    requires
        generated(source_name, source) is Ok,
        forall|i: int|
            0 <= i < document_of(source_name, source).operations.len() ==> path_and_body_no_cr(
                document_of(source_name, source),
                #[trigger] document_of(source_name, source).operations[i],
            ),
    ensures
        all_no_cr(generated(source_name, source)->Ok_0),
{
    let d = document_of(source_name, source);
    let text = strip_bom(source);
    let tree = yaml_parse(text)->Ok_0;
    let doc = tree_to_json(tree)->Ok_0;
    let paths = json_get(doc, "paths"@)->0->Object_0;
    assert(load_json(source_name, source_name, doc) is Ok);
    lemma_collect_no_cr(doc, paths);
    assert(d.operations == collect(doc, paths)->Ok_0);
    assert forall|i: int| 0 <= i < d.operations.len() implies operation_text_clean(
        d,
        #[trigger] d.operations[i],
    ) by {
        assert(path_and_body_no_cr(d, d.operations[i]));
    }
    lemma_suite_files_have_no_cr(d);
}


// ---------------------------------------------------------------------------
// Operation-level parameters override path-level ones.

/// No two parameters of a list share a location and a name.
pub open spec fn params_distinct(m: Seq<JsonV>) -> bool {
    forall|i: int, j: int|
        0 <= i < j < m.len() ==> !(param_in(#[trigger] m[i]) == param_in(#[trigger] m[j])
            && param_name(m[i]) == param_name(m[j]))
}

/// The parameter at `j` is the last of the list with its location and name.
pub open spec fn last_of_its_kind(s: Seq<JsonV>, j: int) -> bool {
    forall|k: int|
        j < k < s.len() ==> !(param_in(#[trigger] s[k]) == param_in(s[j]) && param_name(s[k])
            == param_name(s[j]))
}

proof fn lemma_find_same_result(m: Seq<JsonV>, p: JsonV, k: int)
    requires
        0 <= k,
    ensures
        find_same(m, p, k) matches Some(i) ==> k <= i < m.len() && param_in(m[i]) == param_in(p)
            && param_name(m[i]) == param_name(p),
        find_same(m, p, k) is None ==> forall|i: int|
            k <= i < m.len() ==> !(param_in(#[trigger] m[i]) == param_in(p) && param_name(m[i])
                == param_name(p)),
    decreases m.len() - k,
{
    if k < m.len() && !same_param(m[k], p) {
        lemma_find_same_result(m, p, k + 1);
    }
}

proof fn lemma_merge_all(s: Seq<JsonV>)
    ensures
        params_distinct(merge_all(s)),
        forall|j: int| 0 <= j < s.len() && last_of_its_kind(s, j) ==> merge_all(s).contains(#[trigger] s[j]),
        forall|i: int| 0 <= i < merge_all(s).len() ==> s.contains(#[trigger] merge_all(s)[i]),
    decreases s.len(),
{
    if s.len() > 0 {
        let t = s.drop_last();
        let m = merge_all(t);
        let p = s.last();
        lemma_merge_all(t);
        lemma_find_same_result(m, p, 0);
        let r = merge_all(s);
        assert(r == merge_one(m, p));
        assert forall|j: int| 0 <= j < s.len() && last_of_its_kind(s, j) implies r.contains(#[trigger] s[j]) by {
            if j == s.len() - 1 {
                match find_same(m, p, 0) {
                    Some(k) => assert(r[k] == p),
                    None => assert(r[r.len() - 1] == p),
                }
            } else {
                assert(s[j] == t[j]);
                assert(last_of_its_kind(t, j)) by {
                    assert forall|k: int| j < k < t.len() implies !(param_in(#[trigger] t[k]) == param_in(t[j])
                        && param_name(t[k]) == param_name(t[j])) by {
                        assert(t[k] == s[k]);
                    }
                }
                assert(m.contains(t[j]));
                let i = choose|i: int| 0 <= i < m.len() && m[i] == t[j];
                assert(s[s.len() - 1] == p);
                match find_same(m, p, 0) {
                    Some(k) => {
                        assert(k != i);
                        assert(r[i] == m[i]);
                    },
                    None => assert(r[i] == m[i]),
                }
            }
        }
        assert forall|i: int| 0 <= i < r.len() implies s.contains(#[trigger] r[i]) by {
            assert(s[s.len() - 1] == p);
            if r[i] != p {
                assert(i < m.len() && r[i] == m[i]);
                assert(t.contains(m[i]));
                let k = choose|k: int| 0 <= k < t.len() && t[k] == m[i];
                assert(s[k] == t[k]);
            }
        }
        assert(params_distinct(r)) by {
            match find_same(m, p, 0) {
                Some(k) => {
                    assert forall|a: int, b: int| 0 <= a < b < r.len() implies !(param_in(#[trigger] r[a]) == param_in(#[trigger] r[b])
                        && param_name(r[a]) == param_name(r[b])) by {
                        assert(param_in(r[k]) == param_in(m[k]) && param_name(r[k]) == param_name(m[k]));
                        if a != k {
                            assert(r[a] == m[a]);
                        }
                        if b != k {
                            assert(r[b] == m[b]);
                        }
                    }
                },
                None => {
                    assert forall|a: int, b: int| 0 <= a < b < r.len() implies !(param_in(#[trigger] r[a]) == param_in(#[trigger] r[b])
                        && param_name(r[a]) == param_name(r[b])) by {
                        assert(r[a] == m[a]);
                        if b < m.len() {
                            assert(r[b] == m[b]);
                        } else {
                            assert(r[b] == p);
                        }
                    }
                },
            }
        }
    }
}

/// An operation-level parameter overrides the path-level one with the same
/// location and name: after merging, the list holds no two parameters with the
/// same location and name, and it holds each operation-level parameter itself
/// (the last one, where the operation lists a location and name twice), so any
/// parameter of the merged list with that location and name is that parameter.
pub proof fn lemma_operation_parameter_overrides(
    path_params: Seq<JsonV>,
    op_params: Seq<JsonV>,
    j: int,
)
    requires
        0 <= j < op_params.len(),
        last_of_its_kind(op_params, j),
    ensures
        params_distinct(merge_parameters(path_params, op_params)),
        merge_parameters(path_params, op_params).contains(op_params[j]),
        forall|i: int|
            0 <= i < merge_parameters(path_params, op_params).len() && param_in(
                #[trigger] merge_parameters(path_params, op_params)[i],
            ) == param_in(op_params[j]) && param_name(merge_parameters(path_params, op_params)[i])
                == param_name(op_params[j]) ==> merge_parameters(path_params, op_params)[i]
                == op_params[j],
{
    let s = path_params + op_params;
    let r = merge_parameters(path_params, op_params);
    let n = path_params.len() as int;
    lemma_merge_all(s);
    assert(s[n + j] == op_params[j]);
    assert(last_of_its_kind(s, n + j)) by {
        assert forall|k: int| n + j < k < s.len() implies !(param_in(#[trigger] s[k]) == param_in(s[n + j])
            && param_name(s[k]) == param_name(s[n + j])) by {
            assert(s[k] == op_params[k - n]);
        }
    }
    assert(r.contains(s[n + j]));
    let i0 = choose|i: int| 0 <= i < r.len() && r[i] == s[n + j];
    assert forall|i: int|
        0 <= i < r.len() && param_in(#[trigger] r[i]) == param_in(op_params[j]) && param_name(r[i])
            == param_name(op_params[j]) implies r[i] == op_params[j] by {
        if i < i0 {
            assert(!(param_in(r[i]) == param_in(r[i0]) && param_name(r[i]) == param_name(r[i0])));
        } else if i > i0 {
            assert(!(param_in(r[i0]) == param_in(r[i]) && param_name(r[i0]) == param_name(r[i])));
        }
    }
}

/// A path-level parameter that no operation-level parameter overrides is kept
/// (the last one, where the path lists a location and name twice), and the
/// merged list holds only parameters of the two lists.
pub proof fn lemma_path_parameter_kept(path_params: Seq<JsonV>, op_params: Seq<JsonV>, j: int)
    requires
        0 <= j < path_params.len(),
        last_of_its_kind(path_params, j),
        forall|k: int|
            0 <= k < op_params.len() ==> !(param_in(#[trigger] op_params[k]) == param_in(
                path_params[j],
            ) && param_name(op_params[k]) == param_name(path_params[j])),
    ensures
        merge_parameters(path_params, op_params).contains(path_params[j]),
        forall|i: int|
            0 <= i < merge_parameters(path_params, op_params).len() ==> (path_params
                + op_params).contains(#[trigger] merge_parameters(path_params, op_params)[i]),
{
    let s = path_params + op_params;
    let n = path_params.len() as int;
    lemma_merge_all(s);
    assert(s[j] == path_params[j]);
    assert(last_of_its_kind(s, j)) by {
        assert forall|k: int| j < k < s.len() implies !(param_in(#[trigger] s[k]) == param_in(s[j])
            && param_name(s[k]) == param_name(s[j])) by {
            if k < n {
                assert(s[k] == path_params[k]);
            } else {
                assert(s[k] == op_params[k - n]);
            }
        }
    }
}

// ---------------------------------------------------------------------------
// Samples the author wrote.

/// A parameter's own `example`, or a `content` media type with an example,
/// is a sample its author wrote.
pub proof fn lemma_parameter_example_is_a_sample(p: JsonV)
    ensures
        present(p, "example"@) is Some ==> has_explicit_sample(
            present(p, "schema"@),
            present(p, "example"@),
            present(p, "content"@),
        ),
        present(p, "content"@) matches Some(JsonV::Object(m)) ==> (exists|i: int|
            0 <= i < m.len() && media_has_example(#[trigger] m[i].1)) ==> has_explicit_sample(
            present(p, "schema"@),
            present(p, "example"@),
            present(p, "content"@),
        ),
{
}

/// A parameter whose schema gives an `example`, a `const` or a `default` carries
/// a sample its author wrote, so an optional header or query parameter with such
/// a schema is still rendered (when its header name is not one OpenAPI ignores).
pub proof fn lemma_schema_value_is_a_sample(p: JsonV, location: Seq<char>)
    requires
        present(p, "schema"@) matches Some(s) && (kw(s, "example"@) is Some || kw(s, "const"@) is Some
            || kw(s, "default"@) is Some),
    ensures
        has_explicit_sample(present(p, "schema"@), present(p, "example"@), present(p, "content"@)),
        has_explicit_sample(present(p, "schema"@), None, None),
        param_in(p) == location && location != "cookie"@ && (location == "header"@
            ==> !ignored_header(param_name(p))) ==> param_rendered(p, location),
{
}

// ---------------------------------------------------------------------------
// String formats.

/// Whether a text is an RFC 3339 `full-date`: `YYYY-MM-DD` in ASCII digits.
pub open spec fn is_full_date(t: Seq<char>) -> bool {
    &&& t.len() == 10
    &&& t[4] == '-'
    &&& t[7] == '-'
    &&& forall|i: int| 0 <= i < 10 && i != 4 && i != 7 ==> '0' <= #[trigger] t[i] <= '9'
}

/// A string schema with `format: date` and no length bounds samples a date:
/// the text is a `full-date`, namely `2020-01-01`.
pub proof fn lemma_date_format_samples_a_date(schema: JsonV)
    requires
        kw_str(schema, "format"@) == Some("date"@),
        kw_u64(schema, "minLength"@) is None,
        kw_u64(schema, "maxLength"@) is None,
    ensures
        is_full_date(sample_string(schema)),
        sample_string(schema) == "2020-01-01"@,
{
    reveal_strlit("date");
    reveal_strlit("date-time");
    reveal_strlit("2020-01-01");
    assert("date"@ != "date-time"@) by {
        assert("date"@.len() != "date-time"@.len());
    }
    assert(sample_string(schema) == "2020-01-01"@);
}

// ---------------------------------------------------------------------------
// Wire texts.

/// A parameter or form value that is not a string, an array or an object is
/// sent as its JSON text (`false` as `false`, `2` as `2`, `null` as `null`); a
/// string is sent as it is, without quotes.
pub proof fn lemma_scalar_wire_is_json_text(v: JsonV)
    ensures
        is_scalar(v) && !(v is Str) ==> value_to_wire_string(v) == compact(v),
        v matches JsonV::Str(t) ==> value_to_wire_string(v) == t,
        v matches JsonV::Bool(b) ==> (value_to_wire_string(v) == "true"@ <==> b),
{
    reveal_strlit("null");
    reveal_strlit("true");
    reveal_strlit("false");
    assert("true"@ =~= seq!['t', 'r', 'u', 'e']);
    assert("false"@ =~= seq!['f', 'a', 'l', 's', 'e']);
    assert("null"@ =~= seq!['n', 'u', 'l', 'l']);
}

// ---------------------------------------------------------------------------
// Request body media types.

/// Every JSON media type (`application/json` or a `+json` suffix, parameters and
/// case aside) ranks first, and only those do.
pub proof fn lemma_json_media_ranks_first(ct: Seq<char>)
    ensures
        ends_with(base_content_type(ct), "+json"@) ==> media_rank(ct) == 0,
        base_content_type(ct) == "application/json"@ ==> media_rank(ct) == 0,
        media_rank(ct) == 0 <==> is_json_content_type(ct),
{
}

proof fn lemma_choose_media_least(content: Seq<(Seq<char>, JsonV)>)
    ensures
        content.len() > 0 <==> choose_media(content) is Some,
        choose_media(content) matches Some(i) ==> 0 <= i < content.len() && forall|j: int|
            0 <= j < content.len() ==> media_rank(content[i].0) <= media_rank(#[trigger] content[j].0),
    decreases content.len(),
{
    if content.len() > 0 {
        let t = content.drop_last();
        lemma_choose_media_least(t);
        match choose_media(content) {
            Some(i) => {
                assert forall|j: int| 0 <= j < content.len() implies media_rank(content[i].0) <= media_rank(
                    #[trigger] content[j].0,
                ) by {
                    if j < t.len() {
                        assert(content[j] == t[j]);
                    }
                    match choose_media(t) {
                        Some(b) => {
                            assert(content[b] == t[b]);
                        },
                        None => {},
                    }
                }
            },
            None => {},
        }
    }
}

/// The media type chosen for a request body ranks no lower than any other
/// documented one: when a `content` map lists a JSON media type, the chosen one
/// is JSON.
pub proof fn lemma_json_body_is_chosen(content: Seq<(Seq<char>, JsonV)>, j: int)
    requires
        0 <= j < content.len(),
    ensures
        choose_media(content) is Some,
        forall|k: int| 0 <= k < content.len() ==> media_rank(content[choose_media(content)->0].0)
            <= media_rank(#[trigger] content[k].0),
        is_json_content_type(content[j].0) ==> is_json_content_type(
            content[choose_media(content)->0].0,
        ),
{
    lemma_choose_media_least(content);
    lemma_json_media_ranks_first(content[j].0);
    lemma_json_media_ranks_first(content[choose_media(content)->0].0);
}

} // verus!
