//! Generating an in-memory Hurl suite, and comparing it with what a directory holds.
use vstd::prelude::*;

use crate::document::{load_str, load_text, texts_view, Document, DocumentV};
use crate::error::{Error, ErrorV};
use crate::render::{
    exec_file_names, exec_readme, exec_render_suite, file_names, pairs_view, readme_text,
    render_suite,
};
use crate::text::{
    chars_eq, chars_lt, chars_of, copy_chars, has_char, push_all, push_str, string_of, text_lt,
};

verus! {

broadcast use vstd::std_specs::vec::group_vec_axioms;

/// A deterministic set of files, as generation would write them: file name to
/// UTF-8 contents, sorted by name with no name twice. Names are flat
/// (`get_pets.hurl`, `README.md`).
#[derive(Debug, Clone, PartialEq, Eq)]
pub struct Suite {
    pub files: Vec<(String, String)>,
}

/// Views of name/contents pairs.
pub open spec fn strings_view(s: Seq<(String, String)>) -> Seq<(Seq<char>, Seq<char>)> {
    s.map_values(|p: (String, String)| (p.0@, p.1@))
}

impl View for Suite {
    type V = Seq<(Seq<char>, Seq<char>)>;

    open spec fn view(&self) -> Seq<(Seq<char>, Seq<char>)> {
        strings_view(self.files@)
    }
}

// ---------------------------------------------------------------------------
// Sorted file maps.

/// Insertion into files sorted by name, replacing a file with the same name
/// (what `BTreeMap::insert` does).
pub open spec fn files_insert(m: Seq<(Seq<char>, Seq<char>)>, name: Seq<char>, body: Seq<char>) -> Seq<
    (Seq<char>, Seq<char>),
>
    decreases m.len(),
{
    if m.len() == 0 {
        seq![(name, body)]
    } else if m[0].0 == name {
        m.update(0, (name, body))
    } else if text_lt(name, m[0].0) {
        seq![(name, body)] + m
    } else {
        seq![m[0]] + files_insert(m.drop_first(), name, body)
    }
}

/// Files inserted one after the other.
pub open spec fn insert_files(m: Seq<(Seq<char>, Seq<char>)>, files: Seq<(Seq<char>, Seq<char>)>) -> Seq<
    (Seq<char>, Seq<char>),
>
    decreases files.len(),
{
    if files.len() == 0 {
        m
    } else {
        files_insert(insert_files(m, files.drop_last()), files.last().0, files.last().1)
    }
}

proof fn lemma_files_insert_split(m: Seq<(Seq<char>, Seq<char>)>, i: int, name: Seq<char>, body: Seq<char>)
    requires
        0 <= i <= m.len(),
        forall|j: int| 0 <= j < i ==> m[j].0 != name && !text_lt(name, m[j].0),
    ensures
        files_insert(m, name, body) == m.subrange(0, i) + files_insert(
            m.subrange(i, m.len() as int),
            name,
            body,
        ),
    decreases i,
{
    if i > 0 {
        lemma_files_insert_split(m.drop_first(), i - 1, name, body);
        assert(m.drop_first().subrange(0, i - 1) =~= m.subrange(1, i));
        assert(m.drop_first().subrange(i - 1, m.len() - 1) =~= m.subrange(i, m.len() as int));
        assert(seq![m[0]] + m.subrange(1, i) =~= m.subrange(0, i));
        assert((seq![m[0]] + m.subrange(1, i)) + files_insert(
            m.subrange(i, m.len() as int),
            name,
            body,
        ) =~= seq![m[0]] + (m.subrange(1, i) + files_insert(
            m.subrange(i, m.len() as int),
            name,
            body,
        )));
    } else {
        assert(m.subrange(0, m.len() as int) =~= m);
        assert(m.subrange(0, 0) + files_insert(m, name, body) =~= files_insert(m, name, body));
    }
}

fn file_position(m: &Vec<(Vec<char>, Vec<char>)>, name: &Vec<char>) -> (i: usize)
    ensures
        i <= m.len(),
        forall|j: int| 0 <= j < i ==> pairs_view(m@)[j].0 != name@ && !text_lt(name@, pairs_view(m@)[j].0),
        i < m.len() ==> (pairs_view(m@)[i as int].0 == name@ || text_lt(name@, pairs_view(m@)[i as int].0)),
{
    let ghost mv = pairs_view(m@);
    let mut i: usize = 0;
    while i < m.len()
        invariant
            i <= m.len(),
            mv == pairs_view(m@),
            forall|j: int| 0 <= j < i ==> mv[j].0 != name@ && !text_lt(name@, mv[j].0),
        decreases m.len() - i,
    {
        assert(mv[i as int].0 == m@[i as int].0@);
        if chars_eq(&m[i].0, name) || chars_lt(name, &m[i].0) {
            return i;
        }
        i += 1;
    }
    i
}

fn insert_file(m: &mut Vec<(Vec<char>, Vec<char>)>, name: Vec<char>, body: Vec<char>)
    ensures
        pairs_view(final(m)@) == files_insert(pairs_view(old(m)@), name@, body@),
{
    let ghost mv = pairs_view(m@);
    let i = file_position(m, &name);
    proof {
        lemma_files_insert_split(mv, i as int, name@, body@);
    }
    let ghost rest = mv.subrange(i as int, mv.len() as int);
    let ghost nv = name@;
    let ghost bv = body@;
    if i < m.len() && chars_eq(&m[i].0, &name) {
        m.set(i, (name, body));
        assert(rest[0].0 == nv);
        assert(pairs_view(m@) =~= mv.subrange(0, i as int) + rest.update(0, (nv, bv)));
    } else {
        proof {
            if i < mv.len() {
                assert(text_lt(nv, rest[0].0));
            }
        }
        m.insert(i, (name, body));
        assert(pairs_view(m@) =~= mv.subrange(0, i as int) + (seq![(nv, bv)] + rest));
    }
}

// ---------------------------------------------------------------------------
// Generation.

/// A file name that is safe to write inside the output directory: not empty,
/// not `.` or `..`, and without `/`, `\` or NUL.
pub open spec fn is_safe_file_name(name: Seq<char>) -> bool {
    &&& name.len() > 0
    &&& name != "."@
    &&& name != ".."@
    &&& !name.contains('/')
    &&& !name.contains('\\')
    &&& !name.contains('\0')
}

/// The first file name from `k` on that is not safe.
pub open spec fn first_unsafe(files: Seq<(Seq<char>, Seq<char>)>, k: int) -> Option<Seq<char>>
    decreases files.len() - k,
{
    if k < 0 || k >= files.len() {
        None
    } else if !is_safe_file_name(files[k].0) {
        Some(files[k].0)
    } else {
        first_unsafe(files, k + 1)
    }
}

/// The suite of a loaded document: one Hurl file per operation and `README.md`,
/// or the first rendering error, or the refusal of an unsafe file name.
pub open spec fn suite_of(d: DocumentV) -> Result<Seq<(Seq<char>, Seq<char>)>, ErrorV> {
    match render_suite(d) {
        Err(e) => Err(e),
        Ok(files) => match first_unsafe(files, 0) {
            Some(name) => Err(
                ErrorV::Spec { message: "refusing to write unsafe file name '"@ + name + "'"@ },
            ),
            None => Ok(
                files_insert(
                    insert_files(Seq::empty(), files),
                    "README.md"@,
                    readme_text(d, file_names(d.operations)),
                ),
            ),
        },
    }
}

/// The suite generated from a document's text; `source_name` names it in
/// diagnostics and in the generated comments.
pub open spec fn generated(source_name: Seq<char>, source: Seq<char>) -> Result<
    Seq<(Seq<char>, Seq<char>)>,
    ErrorV,
> {
    match load_text(source_name, source_name, source) {
        Err(e) => Err(e),
        Ok(d) => suite_of(d),
    }
}

/// The view of a suite result.
pub open spec fn suite_res(r: Result<Suite, Error>) -> Result<Seq<(Seq<char>, Seq<char>)>, ErrorV> {
    match r {
        Ok(s) => Ok(s@),
        Err(e) => Err(e@),
    }
}

fn exec_is_safe_file_name(name: &Vec<char>) -> (r: bool)
    ensures
        r == is_safe_file_name(name@),
{
    name.len() > 0 && !crate::text::chars_eq_str(name, ".") && !crate::text::chars_eq_str(name, "..")
        && !has_char(name, '/') && !has_char(name, '\\') && !has_char(name, '\0')
}

fn to_suite(files: &Vec<(Vec<char>, Vec<char>)>) -> (r: Suite)
    ensures
        r@ == pairs_view(files@),
{
    let mut out: Vec<(String, String)> = Vec::new();
    let mut i: usize = 0;
    while i < files.len()
        invariant
            i <= files.len(),
            strings_view(out@) == pairs_view(files@).take(i as int),
        decreases files.len() - i,
    {
        let ghost before = out@;
        let a = string_of(files[i].0.as_slice());
        let b = string_of(files[i].1.as_slice());
        assert(a@ == files@[i as int].0@);
        assert(b@ == files@[i as int].1@);
        out.push((a, b));
        assert(strings_view(out@) =~= strings_view(before).push((files@[i as int].0@, files@[i as int].1@)));
        assert(pairs_view(files@).take(i + 1) =~= pairs_view(files@).take(i as int).push(
            (files@[i as int].0@, files@[i as int].1@),
        ));
        assert(strings_view(out@) =~= pairs_view(files@).take(i + 1));
        i += 1;
    }
    assert(pairs_view(files@).take(i as int) =~= pairs_view(files@));
    Suite { files: out }
}

/// Generates the suite of a loaded document; see [`suite_of`].
pub fn suite_from_document(d: &Document) -> (r: Result<Suite, Error>)
    ensures
        suite_res(r) == suite_of(d@),
{
    let rendered = match exec_render_suite(d) {
        Err(e) => {
            return Err(e);
        },
        Ok(f) => f,
    };
    let ghost rv = pairs_view(rendered@);
    let mut files: Vec<(Vec<char>, Vec<char>)> = Vec::new();
    assert(pairs_view(files@) =~= Seq::<(Seq<char>, Seq<char>)>::empty());
    let mut i: usize = 0;
    while i < rendered.len()
        invariant
            i <= rendered.len(),
            rv == pairs_view(rendered@),
            render_suite(d@) == Ok::<Seq<(Seq<char>, Seq<char>)>, ErrorV>(rv),
            first_unsafe(rv, 0) == first_unsafe(rv, i as int),
            pairs_view(files@) == insert_files(Seq::empty(), rv.take(i as int)),
        decreases rendered.len() - i,
    {
        assert(rv.take(i + 1).drop_last() =~= rv.take(i as int));
        assert(rv[i as int] == (rendered@[i as int].0@, rendered@[i as int].1@));
        if !exec_is_safe_file_name(&rendered[i].0) {
            let mut m = chars_of("refusing to write unsafe file name '");
            push_all(&mut m, &rendered[i].0);
            push_str(&mut m, "'");
            return Err(Error::spec(&m));
        }
        insert_file(&mut files, copy_chars(&rendered[i].0), copy_chars(&rendered[i].1));
        i += 1;
    }
    assert(rv.take(i as int) =~= rv);
    let names = exec_file_names(&d.operations);
    let readme = exec_readme(d, &names);
    insert_file(&mut files, chars_of("README.md"), readme);
    Ok(to_suite(&files))
}

/// Generates a suite from a document already in memory.
///
/// `source_name` is the file name recorded in generated comments. It should be
/// a file name, not a directory path, so the output stays stable.
pub fn generate_from_str(source_name: &str, source: &str) -> (r: Result<Suite, Error>)
    ensures
        suite_res(r) == generated(source_name@, source@),
{
    let name = chars_of(source_name);
    match load_str(&name, &name, source) {
        Err(e) => Err(e),
        Ok(d) => suite_from_document(&d),
    }
}

/// `String::from_utf8`: the text of the bytes when they are valid UTF-8, as the
/// standard library documents it (`vstd`'s `valid_utf8` and `decode_utf8` state
/// what valid UTF-8 is and what it decodes to).
#[verifier::external_body]
fn utf8_text(bytes: Vec<u8>) -> (r: Option<String>)
    ensures
        r is Some <==> vstd::utf8::valid_utf8(bytes@),
        r is Some ==> r->0@ == vstd::utf8::decode_utf8(bytes@),
{
    String::from_utf8(bytes).ok()
}

/// The message for a document that is not UTF-8.
pub open spec fn not_utf8_msg() -> Seq<char> {
    "file is not valid UTF-8 (OpenAPI documents must be UTF-8 YAML or JSON)"@
}

/// The suite generated from a document file: `contents` is what reading
/// `spec_path` gave (the bytes, or the read error's text), `file_name` the last
/// component of the path (`openapi` is used when there is none).
pub open spec fn generated_from_file(
    spec_path: Seq<char>,
    file_name: Option<Seq<char>>,
    contents: Result<Seq<u8>, Seq<char>>,
) -> Result<Seq<(Seq<char>, Seq<char>)>, ErrorV> {
    match contents {
        Err(m) => Err(ErrorV::Read { path: spec_path, message: m }),
        Ok(bytes) => if !vstd::utf8::valid_utf8(bytes) {
            Err(ErrorV::Parse { path: spec_path, message: not_utf8_msg() })
        } else {
            let name = match file_name {
                Some(n) => n,
                None => "openapi"@,
            };
            match load_text(spec_path, name, vstd::utf8::decode_utf8(bytes)) {
                Err(e) => Err(e),
                Ok(d) => suite_of(d),
            }
        },
    }
}

/// Generates a suite from the contents of an OpenAPI file.
///
/// `spec_path` is the path as shown in diagnostics, `file_name` its last
/// component, and `contents` the bytes read from it or the read error's text.
pub fn generate_suite(spec_path: &str, file_name: Option<&str>, contents: Result<Vec<u8>, String>) -> (r:
    Result<Suite, Error>)
    ensures
        suite_res(r) == generated_from_file(
            spec_path@,
            match file_name {
                Some(n) => Some(n@),
                None => None,
            },
            match contents {
                Ok(b) => Ok(b@),
                Err(m) => Err(m@),
            },
        ),
{
    let path = chars_of(spec_path);
    let bytes = match contents {
        Err(m) => {
            return Err(Error::Read { path: string_of(path.as_slice()), message: m });
        },
        Ok(b) => b,
    };
    let text = match utf8_text(bytes) {
        None => {
            return Err(
                Error::parse(
                    &path,
                    &chars_of("file is not valid UTF-8 (OpenAPI documents must be UTF-8 YAML or JSON)"),
                ),
            );
        },
        Some(t) => t,
    };
    let name = match file_name {
        Some(n) => chars_of(n),
        None => chars_of("openapi"),
    };
    match load_str(&path, &name, text.as_str()) {
        Err(e) => Err(e),
        Ok(d) => suite_from_document(&d),
    }
}

impl Suite {
    /// The number of files.
    pub fn len(&self) -> (r: usize)
        ensures
            r == self@.len(),
    {
        self.files.len()
    }

    /// The contents of the file with the given name, if the suite has one.
    pub fn file(&self, name: &str) -> (r: Option<&String>)
        ensures
            match r {
                Some(t) => exists|i: int| 0 <= i < self@.len() && self@[i].0 == name@ && self@[i].1 == t@,
                None => forall|i: int| 0 <= i < self@.len() ==> self@[i].0 != name@,
            },
    {
        let n = chars_of(name);
        let mut i: usize = 0;
        while i < self.files.len()
            invariant
                i <= self.files.len(),
                n@ == name@,
                forall|j: int| 0 <= j < i ==> self@[j].0 != name@,
            decreases self.files.len() - i,
        {
            let k = chars_of(self.files[i].0.as_str());
            if chars_eq(&k, &n) {
                assert(self@[i as int] == (self.files@[i as int].0@, self.files@[i as int].1@));
                return Some(&self.files[i].1);
            }
            i += 1;
        }
        None
    }

    /// Whether the suite has a file with the given name.
    pub fn contains_key(&self, name: &str) -> (r: bool)
        ensures
            r == exists|i: int| 0 <= i < self@.len() && self@[i].0 == name@,
    {
        match self.file(name) {
            Some(_) => true,
            None => false,
        }
    }
}

// ---------------------------------------------------------------------------
// Drift checking.

/// Line endings normalized from position `k` on: `\r\n` and a lone `\r` both
/// become `\n` (what `replace("\r\n", "\n").replace('\r', "\n")` does).
pub open spec fn normalize_from(s: Seq<char>, k: int) -> Seq<char>
    decreases s.len() - k,
{
    if k < 0 || k >= s.len() {
        Seq::empty()
    } else if s[k] == '\r' && k + 1 < s.len() && s[k + 1] == '\n' {
        seq!['\n'] + normalize_from(s, k + 2)
    } else if s[k] == '\r' {
        seq!['\n'] + normalize_from(s, k + 1)
    } else {
        seq![s[k]] + normalize_from(s, k + 1)
    }
}

/// Text with its line endings normalized to `\n`.
pub open spec fn normalize(s: Seq<char>) -> Seq<char> {
    normalize_from(s, 0)
}

/// `s` split at every `c` (what `str::split` gives: one more piece than there
/// are separators).
pub open spec fn split_char(s: Seq<char>, c: char) -> Seq<Seq<char>>
    decreases s.len(),
{
    if s.len() == 0 {
        seq![Seq::empty()]
    } else {
        let prev = split_char(s.drop_last(), c);
        if s.last() == c {
            prev.push(Seq::empty())
        } else {
            prev.update(prev.len() - 1, prev.last().push(s.last()))
        }
    }
}

/// The first index from `k` on where the two line lists differ, within both.
pub open spec fn first_diff_index(a: Seq<Seq<char>>, e: Seq<Seq<char>>, k: int) -> Option<int>
    decreases a.len() - k,
{
    if k < 0 || k >= a.len() || k >= e.len() {
        None
    } else if a[k] != e[k] {
        Some(k)
    } else {
        first_diff_index(a, e, k + 1)
    }
}

/// Where a committed file first differs from the generated one: the first
/// differing line (1-based) among the lines both have, else both line counts.
pub open spec fn first_difference(actual: Seq<char>, expected: Seq<char>) -> Seq<char> {
    let a = split_char(actual, '\n');
    let e = split_char(expected, '\n');
    match first_diff_index(a, e, 0) {
        Some(i) => "first difference at line "@ + crate::text::decimal((i + 1) as nat),
        None => "generated file has "@ + crate::text::decimal(e.len()) + " lines, committed file has "@
            + crate::text::decimal(a.len()) + " lines"@,
    }
}

/// What reading one generated file's path in the directory gave.
pub enum FileRead {
    /// The file's bytes.
    Contents(Vec<u8>),
    /// There is no such file.
    NotFound,
    /// Reading failed for another reason: the path read and the error's text.
    Failed { path: String, message: String },
}

/// The mathematical form of a [`FileRead`].
pub enum FileReadV {
    Contents(Seq<u8>),
    NotFound,
    Failed(Seq<char>, Seq<char>),
}

impl View for FileRead {
    type V = FileReadV;

    open spec fn view(&self) -> FileReadV {
        match self {
            FileRead::Contents(b) => FileReadV::Contents(b@),
            FileRead::NotFound => FileReadV::NotFound,
            FileRead::Failed { path, message } => FileReadV::Failed(path@, message@),
        }
    }
}

/// Views of file reads.
pub open spec fn reads_view(s: Seq<FileRead>) -> Seq<FileReadV> {
    s.map_values(|r: FileRead| r@)
}

/// What the directory to check is.
pub enum DirState {
    /// Nothing exists at the path.
    Missing,
    /// Something that is not a directory exists at the path.
    NotDirectory,
    /// A directory exists at the path.
    Directory,
}

/// The `missing:` lines for the first `n` files.
pub open spec fn missing_lines(files: Seq<(Seq<char>, Seq<char>)>, reads: Seq<FileReadV>, n: nat) -> Seq<
    Seq<char>,
>
    decreases n,
{
    if n == 0 {
        Seq::empty()
    } else {
        let prev = missing_lines(files, reads, (n - 1) as nat);
        if reads[n - 1] is NotFound {
            prev.push("missing: "@ + files[n - 1].0)
        } else {
            prev
        }
    }
}

/// The `mismatch:` line for a file whose committed bytes were read, if they differ.
pub open spec fn mismatch_line(name: Seq<char>, expected: Seq<char>, bytes: Seq<u8>) -> Option<Seq<char>> {
    if !vstd::utf8::valid_utf8(bytes) {
        Some("mismatch: "@ + name + " (not valid UTF-8)"@)
    } else {
        let a = normalize(vstd::utf8::decode_utf8(bytes));
        let e = normalize(expected);
        if a != e {
            Some("mismatch: "@ + name + " ("@ + first_difference(a, e) + ")"@)
        } else {
            None
        }
    }
}

/// The `mismatch:` lines for the first `n` files.
pub open spec fn mismatch_lines(files: Seq<(Seq<char>, Seq<char>)>, reads: Seq<FileReadV>, n: nat) -> Seq<
    Seq<char>,
>
    decreases n,
{
    if n == 0 {
        Seq::empty()
    } else {
        let prev = mismatch_lines(files, reads, (n - 1) as nat);
        match reads[n - 1] {
            FileReadV::Contents(b) => match mismatch_line(files[n - 1].0, files[n - 1].1, b) {
                Some(l) => prev.push(l),
                None => prev,
            },
            _ => prev,
        }
    }
}

/// The first read from `k` on that failed, as its path and error text.
pub open spec fn first_failed(reads: Seq<FileReadV>, k: int) -> Option<(Seq<char>, Seq<char>)>
    decreases reads.len() - k,
{
    if k < 0 || k >= reads.len() {
        None
    } else {
        match reads[k] {
            FileReadV::Failed(p, m) => Some((p, m)),
            _ => first_failed(reads, k + 1),
        }
    }
}

/// Whether the suite has a file of that name.
pub open spec fn has_file(files: Seq<(Seq<char>, Seq<char>)>, name: Seq<char>) -> bool {
    exists|i: int| 0 <= i < files.len() && #[trigger] files[i].0 == name
}

/// The `unexpected:` lines for listed `.hurl` files the suite does not have, in
/// listing order (names that are not UTF-8 are skipped).
pub open spec fn unexpected_lines(listing: Seq<Option<Seq<char>>>, files: Seq<(Seq<char>, Seq<char>)>) -> Seq<
    Seq<char>,
>
    decreases listing.len(),
{
    if listing.len() == 0 {
        Seq::empty()
    } else {
        let prev = unexpected_lines(listing.drop_last(), files);
        match listing.last() {
            Some(name) => if crate::text::ends_with(name, ".hurl"@) && !has_file(files, name) {
                prev.push("unexpected: "@ + name)
            } else {
                prev
            },
            None => prev,
        }
    }
}

/// Every problem found: missing files, then mismatches, then unexpected files
/// in sorted order.
pub open spec fn problems(
    files: Seq<(Seq<char>, Seq<char>)>,
    reads: Seq<FileReadV>,
    listing: Seq<Option<Seq<char>>>,
) -> Seq<Seq<char>> {
    missing_lines(files, reads, files.len()) + mismatch_lines(files, reads, files.len())
        + crate::sample::sort_texts(unexpected_lines(listing, files))
}

/// The indented problem lines, at most the first `n` of them.
pub open spec fn problem_text(ps: Seq<Seq<char>>, n: nat) -> Seq<char>
    decreases n,
{
    if n == 0 || ps.len() == 0 {
        Seq::empty()
    } else {
        let k = if n <= ps.len() {
            n
        } else {
            ps.len()
        };
        problem_text(ps, (k - 1) as nat) + "\n  "@ + ps[k - 1]
    }
}

/// How to regenerate the suite.
pub open spec fn regenerate_hint(spec_path: Seq<char>, dir: Seq<char>) -> Seq<char> {
    "\nRegenerate with: spechurl generate "@ + spec_path + " --out "@ + dir
}

/// The drift report: a heading, the first hundred problems, how many more there
/// are, and how to regenerate.
pub open spec fn drift_message(spec_path: Seq<char>, dir: Seq<char>, ps: Seq<Seq<char>>) -> Seq<char> {
    "Hurl suite is out of sync with '"@ + spec_path + "':"@ + problem_text(ps, 100) + (if ps.len()
        > 100 {
        "\n  ... and "@ + crate::text::decimal((ps.len() - 100) as nat) + " more"@
    } else {
        Seq::empty()
    }) + regenerate_hint(spec_path, dir)
}

/// The outcome of checking a directory against a generated suite: the number
/// of files compared when nothing drifted, else the error.
pub open spec fn check_outcome(
    spec_path: Seq<char>,
    dir: Seq<char>,
    files: Seq<(Seq<char>, Seq<char>)>,
    dir_state: DirState,
    reads: Seq<FileReadV>,
    listing: Result<Seq<Option<Seq<char>>>, Seq<char>>,
) -> Result<nat, ErrorV> {
    match dir_state {
        DirState::Missing => Err(
            ErrorV::Drift {
                message: "Hurl suite is out of sync with '"@ + spec_path + "':\n  directory '"@ + dir
                    + "' does not exist"@ + regenerate_hint(spec_path, dir),
            },
        ),
        DirState::NotDirectory => Err(ErrorV::Spec { message: "'"@ + dir + "' is not a directory"@ }),
        DirState::Directory => match first_failed(reads, 0) {
            Some((p, m)) => Err(ErrorV::Read { path: p, message: m }),
            None => match listing {
                Err(m) => Err(ErrorV::Read { path: dir, message: m }),
                Ok(names) => {
                    let ps = problems(files, reads, names);
                    if ps.len() == 0 {
                        Ok(files.len())
                    } else {
                        Err(ErrorV::Drift { message: drift_message(spec_path, dir, ps) })
                    }
                },
            },
        },
    }
}

proof fn lemma_split_char_len(s: Seq<char>, c: char)
    ensures
        split_char(s, c).len() >= 1,
    decreases s.len(),
{
    if s.len() > 0 {
        lemma_split_char_len(s.drop_last(), c);
    }
}

/// Normalizes line endings; see [`normalize`].
pub fn exec_normalize(s: &Vec<char>) -> (r: Vec<char>)
    ensures
        r@ == normalize(s@),
{
    let mut out: Vec<char> = Vec::new();
    let mut k: usize = 0;
    while k < s.len()
        invariant
            k <= s.len(),
            normalize_from(s@, 0) == out@ + normalize_from(s@, k as int),
        decreases s.len() - k,
    {
        let ghost before = out@;
        if s[k] == '\r' && k + 1 < s.len() && s[k + 1] == '\n' {
            out.push('\n');
            k += 2;
        } else if s[k] == '\r' {
            out.push('\n');
            k += 1;
        } else {
            out.push(s[k]);
            k += 1;
        }
    }
    assert(out@ + normalize_from(s@, k as int) =~= out@);
    out
}

fn exec_split_lines(s: &Vec<char>) -> (r: Vec<Vec<char>>)
    ensures
        texts_view(r@) == split_char(s@, '\n'),
{
    let mut lines: Vec<Vec<char>> = Vec::new();
    lines.push(Vec::new());
    assert(texts_view(lines@) =~= split_char(s@.take(0), '\n'));
    let mut i: usize = 0;
    while i < s.len()
        invariant
            i <= s.len(),
            lines.len() >= 1,
            texts_view(lines@) == split_char(s@.take(i as int), '\n'),
        decreases s.len() - i,
    {
        assert(s@.take(i + 1).drop_last() =~= s@.take(i as int));
        let ghost before = lines@;
        if s[i] == '\n' {
            lines.push(Vec::new());
            assert(texts_view(lines@) =~= texts_view(before).push(Seq::<char>::empty()));
        } else {
            let mut last = lines.pop().unwrap();
            last.push(s[i]);
            let ghost lv = last@;
            lines.push(last);
            assert(texts_view(lines@) =~= texts_view(before).update(
                texts_view(before).len() - 1,
                texts_view(before).last().push(s@[i as int]),
            ));
        }
        i += 1;
    }
    assert(s@.take(i as int) =~= s@);
    lines
}

/// Where a committed file first differs from the generated one; see
/// [`first_difference`].
pub fn exec_first_difference(actual: &Vec<char>, expected: &Vec<char>) -> (r: Vec<char>)
    ensures
        r@ == first_difference(actual@, expected@),
{
    let a = exec_split_lines(actual);
    let e = exec_split_lines(expected);
    let ghost av = texts_view(a@);
    let ghost ev = texts_view(e@);
    let mut k: usize = 0;
    while k < a.len() && k < e.len()
        invariant
            k <= a.len(),
            av == texts_view(a@),
            ev == texts_view(e@),
            av == split_char(actual@, '\n'),
            ev == split_char(expected@, '\n'),
            first_diff_index(av, ev, 0) == first_diff_index(av, ev, k as int),
        decreases a.len() - k,
    {
        if !chars_eq(&a[k], &e[k]) {
            let mut m = chars_of("first difference at line ");
            let d = crate::text::usize_text(k + 1);
            push_all(&mut m, &d);
            return m;
        }
        k += 1;
    }
    let mut m = chars_of("generated file has ");
    push_all(&mut m, &crate::text::usize_text(e.len()));
    push_str(&mut m, " lines, committed file has ");
    push_all(&mut m, &crate::text::usize_text(a.len()));
    push_str(&mut m, " lines");
    m
}

/// The view of a directory listing: entry names (`None` for a name that is not
/// UTF-8), or the text of the error that stopped the listing.
pub open spec fn listing_view(l: Result<Vec<Option<String>>, String>) -> Result<
    Seq<Option<Seq<char>>>,
    Seq<char>,
> {
    match l {
        Ok(names) => Ok(names@.map_values(|n: Option<String>| match n {
            Some(t) => Some(t@),
            None => None,
        })),
        Err(m) => Err(m@),
    }
}

fn exec_has_file(files: &Vec<(String, String)>, name: &Vec<char>) -> (r: bool)
    ensures
        r == has_file(strings_view(files@), name@),
{
    let mut i: usize = 0;
    while i < files.len()
        invariant
            i <= files.len(),
            forall|j: int| 0 <= j < i ==> strings_view(files@)[j].0 != name@,
        decreases files.len() - i,
    {
        let k = chars_of(files[i].0.as_str());
        if chars_eq(&k, name) {
            assert(strings_view(files@)[i as int].0 == name@);
            return true;
        }
        i += 1;
    }
    false
}

fn push_problem_text(out: &mut Vec<char>, ps: &Vec<Vec<char>>)
    ensures
        final(out)@ == old(out)@ + problem_text(texts_view(ps@), 100),
{
    let ghost pv = texts_view(ps@);
    let limit: usize = if ps.len() < 100 {
        ps.len()
    } else {
        100
    };
    let mut i: usize = 0;
    while i < limit
        invariant
            i <= limit,
            limit <= ps.len(),
            limit <= 100,
            pv == texts_view(ps@),
            out@ == old(out)@ + problem_text(pv, i as nat),
        decreases limit - i,
    {
        push_str(out, "\n  ");
        push_all(out, &ps[i]);
        i += 1;
        assert(out@ =~= old(out)@ + problem_text(pv, i as nat));
    }
    proof {
        if ps.len() < 100 && ps.len() > 0 {
            assert(problem_text(pv, 100) == problem_text(pv, (pv.len() - 1) as nat) + "\n  "@ + pv[pv.len() - 1]);
            assert(problem_text(pv, pv.len()) == problem_text(pv, (pv.len() - 1) as nat) + "\n  "@ + pv[pv.len() - 1]);
        }
    }
}

fn exec_mismatch_line(name: &Vec<char>, expected: &Vec<char>, bytes: &Vec<u8>) -> (r: Option<Vec<char>>)
    ensures
        match mismatch_line(name@, expected@, bytes@) {
            Some(l) => r is Some && r->0@ == l,
            None => r is None,
        },
{
    let text = match utf8_text(bytes.clone()) {
        None => {
            let mut m = chars_of("mismatch: ");
            push_all(&mut m, name);
            push_str(&mut m, " (not valid UTF-8)");
            return Some(m);
        },
        Some(t) => t,
    };
    let a = exec_normalize(&chars_of(text.as_str()));
    let e = exec_normalize(expected);
    if chars_eq(&a, &e) {
        None
    } else {
        let mut m = chars_of("mismatch: ");
        push_all(&mut m, name);
        push_str(&mut m, " (");
        let d = exec_first_difference(&a, &e);
        push_all(&mut m, &d);
        push_str(&mut m, ")");
        Some(m)
    }
}

/// Checks a directory against a generated suite; see [`check_outcome`].
///
/// `spec_path` and `dir` are the paths as shown in messages, `dir_state` what
/// exists at `dir`, `reads` what reading each generated file's path in the
/// directory gave (in the suite's order), and `listing` the names of the
/// directory's entries.
pub fn check_suite(
    spec_path: &str,
    dir: &str,
    generated: &Suite,
    dir_state: DirState,
    reads: &Vec<FileRead>,
    listing: &Result<Vec<Option<String>>, String>,
) -> (r: Result<usize, Error>)
    requires
        reads.len() == generated.files.len(),
    ensures
        match check_outcome(
            spec_path@,
            dir@,
            generated@,
            dir_state,
            reads_view(reads@),
            listing_view(*listing),
        ) {
            Ok(n) => r is Ok && r->Ok_0 == n,
            Err(e) => r is Err && r->Err_0@ == e,
        },
{
    let sp = chars_of(spec_path);
    let d = chars_of(dir);
    let mut hint = chars_of("\nRegenerate with: spechurl generate ");
    push_all(&mut hint, &sp);
    push_str(&mut hint, " --out ");
    push_all(&mut hint, &d);
    match dir_state {
        DirState::Missing => {
            let mut m = chars_of("Hurl suite is out of sync with '");
            push_all(&mut m, &sp);
            push_str(&mut m, "':\n  directory '");
            push_all(&mut m, &d);
            push_str(&mut m, "' does not exist");
            push_all(&mut m, &hint);
            return Err(Error::drift(&m));
        },
        DirState::NotDirectory => {
            let mut m = chars_of("'");
            push_all(&mut m, &d);
            push_str(&mut m, "' is not a directory");
            return Err(Error::spec(&m));
        },
        DirState::Directory => {},
    }
    let ghost rv = reads_view(reads@);
    let mut k: usize = 0;
    while k < reads.len()
        invariant
            k <= reads.len(),
            rv == reads_view(reads@),
            dir_state is Directory,
            first_failed(rv, 0) == first_failed(rv, k as int),
        decreases reads.len() - k,
    {
        if let FileRead::Failed { path, message } = &reads[k] {
            return Err(Error::Read { path: path.clone(), message: message.clone() });
        }
        k += 1;
    }
    let names = match listing {
        Err(m) => {
            return Err(Error::Read { path: string_of(d.as_slice()), message: m.clone() });
        },
        Ok(names) => names,
    };
    let ghost fv = generated@;
    let mut missing: Vec<Vec<char>> = Vec::new();
    let mut mismatched: Vec<Vec<char>> = Vec::new();
    assert(texts_view(missing@) =~= Seq::<Seq<char>>::empty());
    assert(texts_view(mismatched@) =~= Seq::<Seq<char>>::empty());
    let mut i: usize = 0;
    while i < generated.files.len()
        invariant
            i <= generated.files.len(),
            reads.len() == generated.files.len(),
            fv == generated@,
            rv == reads_view(reads@),
            texts_view(missing@) == missing_lines(fv, rv, i as nat),
            texts_view(mismatched@) == mismatch_lines(fv, rv, i as nat),
        decreases generated.files.len() - i,
    {
        let name = chars_of(generated.files[i].0.as_str());
        assert(fv[i as int] == (generated.files@[i as int].0@, generated.files@[i as int].1@));
        let ghost before_missing = missing@;
        let ghost before_mismatched = mismatched@;
        match &reads[i] {
            FileRead::NotFound => {
                let mut m = chars_of("missing: ");
                push_all(&mut m, &name);
                missing.push(m);
                assert(texts_view(missing@) =~= texts_view(before_missing).push(m@));
            },
            FileRead::Contents(bytes) => {
                let expected = chars_of(generated.files[i].1.as_str());
                if let Some(l) = exec_mismatch_line(&name, &expected, bytes) {
                    mismatched.push(l);
                    assert(texts_view(mismatched@) =~= texts_view(before_mismatched).push(l@));
                }
            },
            _ => {},
        }
        i += 1;
    }
    let ghost lv = listing_view(*listing)->Ok_0;
    let mut unexpected: Vec<Vec<char>> = Vec::new();
    assert(texts_view(unexpected@) =~= Seq::<Seq<char>>::empty());
    let mut j: usize = 0;
    while j < names.len()
        invariant
            j <= names.len(),
            *listing == Ok::<Vec<Option<String>>, String>(*names),
            lv == listing_view(*listing)->Ok_0,
            fv == generated@,
            texts_view(unexpected@) == unexpected_lines(lv.take(j as int), fv),
        decreases names.len() - j,
    {
        assert(lv.take(j + 1).drop_last() =~= lv.take(j as int));
        let ghost before = unexpected@;
        if let Some(n) = &names[j] {
            let nc = chars_of(n.as_str());
            if crate::text::has_suffix(&nc, ".hurl") && !exec_has_file(&generated.files, &nc) {
                let mut m = chars_of("unexpected: ");
                push_all(&mut m, &nc);
                unexpected.push(m);
                assert(texts_view(unexpected@) =~= texts_view(before).push(m@));
            }
        }
        j += 1;
    }
    assert(lv.take(j as int) =~= lv);
    let sorted = crate::sample::exec_sort_texts(&unexpected);
    let mut ps: Vec<Vec<char>> = Vec::new();
    let mut a: usize = 0;
    while a < missing.len()
        invariant
            a <= missing.len(),
            texts_view(ps@) == texts_view(missing@).take(a as int),
        decreases missing.len() - a,
    {
        let ghost before = ps@;
        ps.push(copy_chars(&missing[a]));
        assert(texts_view(ps@) =~= texts_view(before).push(missing@[a as int]@));
        assert(texts_view(missing@).take(a + 1) =~= texts_view(missing@).take(a as int).push(
            missing@[a as int]@,
        ));
        a += 1;
        assert(texts_view(ps@) =~= texts_view(missing@).take(a as int));
    }
    let ghost first = texts_view(ps@);
    let mut b: usize = 0;
    while b < mismatched.len()
        invariant
            b <= mismatched.len(),
            texts_view(ps@) == first + texts_view(mismatched@).take(b as int),
        decreases mismatched.len() - b,
    {
        let ghost before = ps@;
        ps.push(copy_chars(&mismatched[b]));
        assert(texts_view(ps@) =~= texts_view(before).push(mismatched@[b as int]@));
        assert(texts_view(mismatched@).take(b + 1) =~= texts_view(mismatched@).take(b as int).push(
            mismatched@[b as int]@,
        ));
        b += 1;
        assert(texts_view(ps@) =~= first + texts_view(mismatched@).take(b as int));
    }
    let ghost second = texts_view(ps@);
    let mut c: usize = 0;
    while c < sorted.len()
        invariant
            c <= sorted.len(),
            texts_view(ps@) == second + texts_view(sorted@).take(c as int),
        decreases sorted.len() - c,
    {
        let ghost before = ps@;
        ps.push(copy_chars(&sorted[c]));
        assert(texts_view(ps@) =~= texts_view(before).push(sorted@[c as int]@));
        assert(texts_view(sorted@).take(c + 1) =~= texts_view(sorted@).take(c as int).push(
            sorted@[c as int]@,
        ));
        c += 1;
        assert(texts_view(ps@) =~= second + texts_view(sorted@).take(c as int));
    }
    assert(texts_view(missing@).take(a as int) =~= texts_view(missing@));
    assert(texts_view(mismatched@).take(b as int) =~= texts_view(mismatched@));
    assert(texts_view(sorted@).take(c as int) =~= texts_view(sorted@));
    assert(texts_view(ps@) =~= problems(fv, rv, lv));
    if ps.len() == 0 {
        return Ok(generated.files.len());
    }
    let mut m = chars_of("Hurl suite is out of sync with '");
    push_all(&mut m, &sp);
    push_str(&mut m, "':");
    push_problem_text(&mut m, &ps);
    if ps.len() > 100 {
        push_str(&mut m, "\n  ... and ");
        push_all(&mut m, &crate::text::usize_text(ps.len() - 100));
        push_str(&mut m, " more");
    }
    push_all(&mut m, &hint);
    assert(m@ =~= drift_message(spec_path@, dir@, texts_view(ps@)));
    Err(Error::drift(&m))
}

/// Refuses a file name that is not safe to write inside the output directory;
/// see [`is_safe_file_name`].
pub fn check_file_name(name: &str) -> (r: Result<(), Error>)
    ensures
        is_safe_file_name(name@) <==> r is Ok,
        r is Err ==> r->Err_0@ == (ErrorV::Spec {
            message: "refusing to write unsafe file name '"@ + name@ + "'"@,
        }),
{
    let n = chars_of(name);
    if exec_is_safe_file_name(&n) {
        Ok(())
    } else {
        let mut m = chars_of("refusing to write unsafe file name '");
        push_all(&mut m, &n);
        push_str(&mut m, "'");
        Err(Error::spec(&m))
    }
}

} // verus!
