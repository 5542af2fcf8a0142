//! Operations on JSON values: copying, field lookup, insertion, pointers, printing.
use vstd::prelude::*;

use crate::json::{
    entries_view, group_json_view, items_view, json_view, num_view, Json, JsonV, NumV, Number,
};
use crate::text::{
    chars_eq, chars_lt, chars_of, copy_chars, decimal, digit_char, find_char_from, i64_text,
    index_of_from, int_text, lemma_index_of_from, push_all, push_str, slice_chars, text_lt,
    u64_text,
};

verus! {

broadcast use {vstd::std_specs::vec::group_vec_axioms, group_json_view};

/// A copy of a number.
pub fn copy_number(n: &Number) -> (r: Number)
    ensures
        num_view(r) == num_view(*n),
{
    match n {
        Number::PosInt(u) => Number::PosInt(*u),
        Number::NegInt(i) => Number::NegInt(*i),
        Number::Float(t) => Number::Float(copy_chars(t)),
    }
}

/// A deep copy of a JSON value.
pub fn copy_json(j: &Json) -> (r: Json)
    ensures
        r@ == j@,
    decreases j,
{
    match j {
        Json::Null => Json::Null,
        Json::Bool(b) => Json::Bool(*b),
        Json::Number(n) => Json::Number(copy_number(n)),
        Json::Str(s) => Json::Str(copy_chars(s)),
        Json::Array(items) => {
            let mut out: Vec<Json> = Vec::new();
            proof {
                assert forall|k: int| 0 <= k < items.len() implies decreases_to!(*j => #[trigger] items[k]) by {
                    assert(decreases_to!(*j => *items));
                    assert(decreases_to!(*items => items[k]));
                }
            }
            let mut i: usize = 0;
            while i < items.len()
                invariant
                    i <= items.len(),
                    *j == Json::Array(*items),
                    forall|k: int| 0 <= k < items.len() ==> decreases_to!(*j => #[trigger] items[k]),
                    items_view(out@) == items_view(items@).subrange(0, i as int),
                decreases items.len() - i,
            {
                
                let ghost prev = out@;
                let c = copy_json(&items[i]);
                out.push(c);
                proof {
                    assert(out@.drop_last() =~= prev);
                    assert(items_view(out@) == items_view(prev).push(json_view(out@.last())));
                    assert(items_view(items@).subrange(0, i + 1) =~= items_view(items@).subrange(0, i as int).push(items_view(items@)[i as int]));
                }
                i += 1;
            }
            assert(items_view(items@).subrange(0, i as int) =~= items_view(items@));
            Json::Array(out)
        },
        Json::Object(entries) => {
            let mut out: Vec<(Vec<char>, Json)> = Vec::new();
            proof {
                assert forall|k: int| 0 <= k < entries.len() implies decreases_to!(*j => #[trigger] entries[k].1) by {
                    assert(decreases_to!(*j => *entries));
                    assert(decreases_to!(*entries => entries[k]));
                    assert(decreases_to!(entries[k] => entries[k].1));
                }
            }
            let mut i: usize = 0;
            while i < entries.len()
                invariant
                    i <= entries.len(),
                    *j == Json::Object(*entries),
                    forall|k: int| 0 <= k < entries.len() ==> decreases_to!(*j => #[trigger] entries[k].1),
                    entries_view(out@) == entries_view(entries@).subrange(0, i as int),
                decreases entries.len() - i,
            {
                
                let ghost prev = out@;
                let k = copy_chars(&entries[i].0);
                let v = copy_json(&entries[i].1);
                out.push((k, v));
                proof {
                    assert(out@.drop_last() =~= prev);
                    assert(entries_view(out@) == entries_view(prev).push((out@.last().0@, json_view(out@.last().1))));
                    assert(entries_view(entries@).subrange(0, i + 1) =~= entries_view(entries@).subrange(0, i as int).push(entries_view(entries@)[i as int]));
                }
                i += 1;
            }
            assert(entries_view(entries@).subrange(0, i as int) =~= entries_view(entries@));
            Json::Object(out)
        },
    }
}


// ---------------------------------------------------------------------------
// Object entries.

/// The value stored under `key` among object entries (first match).
pub open spec fn entries_get(m: Seq<(Seq<char>, JsonV)>, key: Seq<char>) -> Option<JsonV>
    decreases m.len(),
{
    if m.len() == 0 {
        None
    } else if m[0].0 == key {
        Some(m[0].1)
    } else {
        entries_get(m.drop_first(), key)
    }
}

/// `serde_json::Value::get` with a string key: the field of an object, or nothing.
pub open spec fn json_get(v: JsonV, key: Seq<char>) -> Option<JsonV> {
    match v {
        JsonV::Object(m) => entries_get(m, key),
        _ => None,
    }
}

/// Whether an object entry list has the key.
pub open spec fn entries_has(m: Seq<(Seq<char>, JsonV)>, key: Seq<char>) -> bool {
    entries_get(m, key) is Some
}

proof fn lemma_entries_get_index(m: Seq<(Seq<char>, JsonV)>, key: Seq<char>, i: int)
    requires
        0 <= i < m.len(),
        m[i].0 == key,
        forall|j: int| 0 <= j < i ==> m[j].0 != key,
    ensures
        entries_get(m, key) == Some(m[i].1),
    decreases i,
{
    if i > 0 {
        lemma_entries_get_index(m.drop_first(), key, i - 1);
    }
}

proof fn lemma_entries_get_none(m: Seq<(Seq<char>, JsonV)>, key: Seq<char>)
    requires
        forall|j: int| 0 <= j < m.len() ==> m[j].0 != key,
    ensures
        entries_get(m, key) is None,
    decreases m.len(),
{
    if m.len() > 0 {
        lemma_entries_get_none(m.drop_first(), key);
    }
}

/// The field `key` of a JSON value, when it is an object that has it.
pub fn get_field<'a>(j: &'a Json, key: &str) -> (r: Option<&'a Json>)
    ensures
        match json_get(j@, key@) {
            Some(v) => r is Some && r->0@ == v,
            None => r is None,
        },
{
    match j {
        Json::Object(entries) => {
            let k = chars_of(key);
            proof {
                assert forall|k: int| 0 <= k < entries.len() implies decreases_to!(*j => #[trigger] entries[k].1) by {
                    assert(decreases_to!(*j => *entries));
                    assert(decreases_to!(*entries => entries[k]));
                    assert(decreases_to!(entries[k] => entries[k].1));
                }
            }
            let mut i: usize = 0;
            while i < entries.len()
                invariant
                    i <= entries.len(),
                    *j == Json::Object(*entries),
                    forall|k: int| 0 <= k < entries.len() ==> decreases_to!(*j => #[trigger] entries[k].1),
                    k@ == key@,
                    forall|x: int| 0 <= x < i ==> entries@[x].0@ != key@,
                decreases entries.len() - i,
            {
                if chars_eq(&entries[i].0, &k) {
                    proof {
                        assert(entries_view(entries@)[i as int].0 == entries@[i as int].0@);
                        lemma_entries_get_index(entries_view(entries@), key@, i as int);
                        assert(j@ == JsonV::Object(entries_view(entries@)));
                        assert(entries_view(entries@)[i as int].1 == entries@[i as int].1@);
                    }
                    let found = &entries[i].1;
                    assert(found@ == entries@[i as int].1@);
                    return Some(found);
                }
                i += 1;
            }
            proof {
                assert forall|x: int| 0 <= x < entries_view(entries@).len() implies #[trigger] entries_view(entries@)[x].0 != key@ by {
                    assert(entries_view(entries@)[x].0 == entries@[x].0@);
                }
                lemma_entries_get_none(entries_view(entries@), key@);
            }
            None
        },
        _ => None,
    }
}

/// Whether object entries hold the key.
pub fn has_key(entries: &Vec<(Vec<char>, Json)>, key: &Vec<char>) -> (r: bool)
    ensures
        r == entries_has(entries_view(entries@), key@),
{
    let mut i: usize = 0;
    while i < entries.len()
        invariant
            i <= entries.len(),
            forall|x: int| 0 <= x < i ==> entries@[x].0@ != key@,
        decreases entries.len() - i,
    {
        if chars_eq(&entries[i].0, key) {
            proof {
                assert(entries_view(entries@)[i as int].0 == entries@[i as int].0@);
                lemma_entries_get_index(entries_view(entries@), key@, i as int);
            }
            return true;
        }
        i += 1;
    }
    proof {
        assert forall|x: int| 0 <= x < entries_view(entries@).len() implies #[trigger] entries_view(entries@)[x].0 != key@ by {
            assert(entries_view(entries@)[x].0 == entries@[x].0@);
        }
        lemma_entries_get_none(entries_view(entries@), key@);
    }
    false
}

/// The field named by a character vector.
pub fn get_field_chars<'a>(j: &'a Json, key: &Vec<char>) -> (r: Option<&'a Json>)
    ensures
        match json_get(j@, key@) {
            Some(v) => r is Some && r->0@ == v,
            None => r is None,
        },
{
    match j {
        Json::Object(entries) => {
            proof {
                assert forall|k: int| 0 <= k < entries.len() implies decreases_to!(*j => #[trigger] entries[k].1) by {
                    assert(decreases_to!(*j => *entries));
                    assert(decreases_to!(*entries => entries[k]));
                    assert(decreases_to!(entries[k] => entries[k].1));
                }
            }
            let mut i: usize = 0;
            while i < entries.len()
                invariant
                    i <= entries.len(),
                    *j == Json::Object(*entries),
                    forall|k: int| 0 <= k < entries.len() ==> decreases_to!(*j => #[trigger] entries[k].1),
                    forall|x: int| 0 <= x < i ==> entries@[x].0@ != key@,
                decreases entries.len() - i,
            {
                if chars_eq(&entries[i].0, key) {
                    proof {
                        assert(entries_view(entries@)[i as int].0 == entries@[i as int].0@);
                        lemma_entries_get_index(entries_view(entries@), key@, i as int);
                        assert(j@ == JsonV::Object(entries_view(entries@)));
                        assert(entries_view(entries@)[i as int].1 == entries@[i as int].1@);
                    }
                    let found = &entries[i].1;
                    assert(found@ == entries@[i as int].1@);
                    return Some(found);
                }
                i += 1;
            }
            proof {
                assert forall|x: int| 0 <= x < entries_view(entries@).len() implies #[trigger] entries_view(entries@)[x].0 != key@ by {
                    assert(entries_view(entries@)[x].0 == entries@[x].0@);
                }
                lemma_entries_get_none(entries_view(entries@), key@);
            }
            None
        },
        _ => None,
    }
}

/// Insertion into sorted object entries, replacing an entry with the same key:
/// what `BTreeMap::insert` does to a `serde_json::Map`.
pub open spec fn entries_insert(m: Seq<(Seq<char>, JsonV)>, key: Seq<char>, v: JsonV) -> Seq<
    (Seq<char>, JsonV),
>
    decreases m.len(),
{
    if m.len() == 0 {
        seq![(key, v)]
    } else if m[0].0 == key {
        m.update(0, (key, v))
    } else if text_lt(key, m[0].0) {
        seq![(key, v)] + m
    } else {
        seq![m[0]] + entries_insert(m.drop_first(), key, v)
    }
}

proof fn lemma_entries_insert_split(m: Seq<(Seq<char>, JsonV)>, i: int, key: Seq<char>, v: JsonV)
    requires
        0 <= i <= m.len(),
        forall|j: int| 0 <= j < i ==> m[j].0 != key && !text_lt(key, m[j].0),
    ensures
        entries_insert(m, key, v) == m.subrange(0, i) + entries_insert(
            m.subrange(i, m.len() as int),
            key,
            v,
        ),
    decreases i,
{
    if i > 0 {
        lemma_entries_insert_split(m.drop_first(), i - 1, key, v);
        assert(m.drop_first().subrange(0, i - 1) =~= m.subrange(1, i));
        assert(m.drop_first().subrange(i - 1, m.len() - 1) =~= m.subrange(i, m.len() as int));
        assert(seq![m[0]] + m.subrange(1, i) =~= m.subrange(0, i));
        assert(entries_insert(m, key, v) == seq![m[0]] + entries_insert(m.drop_first(), key, v));
        assert((seq![m[0]] + m.subrange(1, i)) + entries_insert(
            m.subrange(i, m.len() as int),
            key,
            v,
        ) =~= seq![m[0]] + (m.subrange(1, i) + entries_insert(
            m.subrange(i, m.len() as int),
            key,
            v,
        )));
    } else {
        assert(m.subrange(0, m.len() as int) =~= m);
        assert(m.subrange(0, 0) + entries_insert(m, key, v) =~= entries_insert(m, key, v));
    }
}

fn insert_position(entries: &Vec<(Vec<char>, Json)>, key: &Vec<char>) -> (i: usize)
    ensures
        i <= entries.len(),
        forall|j: int|
            0 <= j < i ==> entries_view(entries@)[j].0 != key@ && !text_lt(
                key@,
                entries_view(entries@)[j].0,
            ),
        i < entries.len() ==> (entries_view(entries@)[i as int].0 == key@ || text_lt(
            key@,
            entries_view(entries@)[i as int].0,
        )),
{
    let mut i: usize = 0;
    while i < entries.len()
        invariant
            i <= entries.len(),
            forall|j: int|
                0 <= j < i ==> entries_view(entries@)[j].0 != key@ && !text_lt(
                    key@,
                    entries_view(entries@)[j].0,
                ),
        decreases entries.len() - i,
    {
        assert(entries_view(entries@)[i as int].0 == entries@[i as int].0@);
        if chars_eq(&entries[i].0, key) || chars_lt(key, &entries[i].0) {
            return i;
        }
        i += 1;
    }
    i
}

/// Inserts `(key, v)` into sorted object entries.
pub fn object_insert(entries: &mut Vec<(Vec<char>, Json)>, key: Vec<char>, v: Json)
    ensures
        entries_view(final(entries)@) == entries_insert(entries_view(old(entries)@), key@, v@),
{
    let ghost m = entries_view(entries@);
    let i = insert_position(entries, &key);
    proof {
        lemma_entries_insert_split(m, i as int, key@, v@);
    }
    let ghost rest = m.subrange(i as int, m.len() as int);
    let ghost kv = key@;
    let ghost vv = v@;
    if i < entries.len() && chars_eq(&entries[i].0, &key) {
        assert(m[i as int].0 == entries@[i as int].0@);
        entries.set(i, (key, v));
        assert(rest[0].0 == kv);
        assert(entries_view(entries@) =~= m.subrange(0, i as int) + rest.update(0, (kv, vv)));
    } else {
        proof {
            if i < m.len() {
                assert(m[i as int].0 == entries@[i as int].0@);
                assert(text_lt(kv, rest[0].0));
            }
        }
        entries.insert(i, (key, v));
        assert(entries_view(entries@) =~= m.subrange(0, i as int) + (seq![(kv, vv)] + rest));
    }
}

// ---------------------------------------------------------------------------
// JSON pointers (RFC 6901), as `serde_json::Value::pointer` reads them.

/// `s` split at every `/`.
pub open spec fn split_slash(s: Seq<char>) -> Seq<Seq<char>>
    decreases s.len(),
{
    proof {
        lemma_index_of_from(s, '/', 0);
    }
    match index_of_from(s, '/', 0) {
        Some(k) => seq![s.subrange(0, k)] + split_slash(s.subrange(k + 1, s.len() as int)),
        None => seq![s],
    }
}

/// `str::replace(pat, rep)` for a two-character pattern and a one-character replacement.
pub open spec fn replace2(s: Seq<char>, a: char, b: char, rep: char) -> Seq<char>
    decreases s.len(),
{
    if s.len() >= 2 && s[0] == a && s[1] == b {
        seq![rep] + replace2(s.skip(2), a, b, rep)
    } else if s.len() == 0 {
        s
    } else {
        seq![s[0]] + replace2(s.drop_first(), a, b, rep)
    }
}

/// A reference token with `~1` and then `~0` decoded.
pub open spec fn unescape_token(t: Seq<char>) -> Seq<char> {
    replace2(replace2(t, '~', '1', '/'), '~', '0', '~')
}

/// Whether a token is a plain array index (`0`, or digits without a leading zero or `+`).
pub open spec fn is_index_token(t: Seq<char>) -> bool {
    t.len() > 0 && (forall|i: int| 0 <= i < t.len() ==> '0' <= #[trigger] t[i] <= '9') && (t[0]
        != '0' || t.len() == 1)
}

/// The value of decimal digits.
pub open spec fn digits_value(t: Seq<char>) -> nat
    decreases t.len(),
{
    if t.len() == 0 {
        0
    } else {
        digits_value(t.drop_last()) * 10 + ((t.last() as u32) - ('0' as u32)) as nat
    }
}

/// One step of pointer resolution.
pub open spec fn pointer_step(target: JsonV, token: Seq<char>) -> Option<JsonV> {
    match target {
        JsonV::Object(m) => entries_get(m, token),
        JsonV::Array(items) => if is_index_token(token) && digits_value(token) < items.len()
            && digits_value(token) <= usize::MAX {
            Some(items[digits_value(token) as int])
        } else {
            None
        },
        _ => None,
    }
}

/// Resolution of a sequence of raw tokens.
pub open spec fn pointer_walk(target: JsonV, tokens: Seq<Seq<char>>) -> Option<JsonV>
    decreases tokens.len(),
{
    if tokens.len() == 0 {
        Some(target)
    } else {
        match pointer_step(target, unescape_token(tokens[0])) {
            Some(next) => pointer_walk(next, tokens.drop_first()),
            None => None,
        }
    }
}

/// `serde_json::Value::pointer`.
pub open spec fn json_pointer(doc: JsonV, p: Seq<char>) -> Option<JsonV> {
    if p.len() == 0 {
        Some(doc)
    } else if p[0] != '/' {
        None
    } else {
        pointer_walk(doc, split_slash(p.drop_first()))
    }
}

fn replace_pair(s: &Vec<char>, a: char, b: char, rep: char) -> (r: Vec<char>)
    ensures
        r@ == replace2(s@, a, b, rep),
{
    let mut out: Vec<char> = Vec::new();
    let mut i: usize = 0;
    assert(s@.skip(0) =~= s@);
    assert(out@ + replace2(s@, a, b, rep) =~= replace2(s@, a, b, rep));
    while i < s.len()
        invariant
            i <= s.len(),
            out@ + replace2(s@.skip(i as int), a, b, rep) == replace2(s@, a, b, rep),
        decreases s.len() - i,
    {
        let ghost rest = s@.skip(i as int);
        if i + 1 < s.len() && s[i] == a && s[i + 1] == b {
            out.push(rep);
            assert(rest.skip(2) =~= s@.skip(i + 2));
            assert(out@ + replace2(s@.skip(i + 2), a, b, rep) =~= (out@.drop_last()) + (seq![rep]
                + replace2(rest.skip(2), a, b, rep)));
            i += 2;
        } else {
            out.push(s[i]);
            assert(rest.drop_first() =~= s@.skip(i + 1));
            assert(out@ + replace2(s@.skip(i + 1), a, b, rep) =~= (out@.drop_last()) + (seq![
                rest[0],
            ] + replace2(rest.drop_first(), a, b, rep)));
            i += 1;
        }
    }
    assert(s@.skip(i as int).len() == 0);
    assert(out@ + replace2(s@.skip(i as int), a, b, rep) =~= out@);
    out
}

fn parse_index(t: &Vec<char>) -> (r: Option<usize>)
    ensures
        match r {
            Some(n) => is_index_token(t@) && n == digits_value(t@),
            None => !is_index_token(t@) || digits_value(t@) > usize::MAX,
        },
{
    if t.len() == 0 || (t[0] == '0' && t.len() != 1) {
        return None;
    }
    let mut i: usize = 0;
    while i < t.len()
        invariant
            i <= t.len(),
            forall|j: int| 0 <= j < i ==> '0' <= #[trigger] t@[j] <= '9',
        decreases t.len() - i,
    {
        if t[i] < '0' || t[i] > '9' {
            return None;
        }
        i += 1;
    }
    let mut n: usize = 0;
    let mut i: usize = 0;
    while i < t.len()
        invariant
            0 < t.len(),
            i <= t.len(),
            forall|j: int| 0 <= j < t.len() ==> '0' <= #[trigger] t@[j] <= '9',
            n == digits_value(t@.subrange(0, i as int)),
        decreases t.len() - i,
    {
        let c = t[i];
        let d = ((c as u32) - ('0' as u32)) as usize;
        assert(t@.subrange(0, i + 1).drop_last() =~= t@.subrange(0, i as int));
        if n > (usize::MAX - d) / 10 {
            proof {
                lemma_digits_value_monotone(t@, i + 1);
            }
            return None;
        }
        n = n * 10 + d;
        i += 1;
    }
    assert(t@.subrange(0, i as int) =~= t@);
    Some(n)
}

proof fn lemma_digits_value_monotone(t: Seq<char>, k: int)
    requires
        0 <= k <= t.len(),
        forall|j: int| 0 <= j < t.len() ==> '0' <= #[trigger] t[j] <= '9',
    ensures
        digits_value(t.subrange(0, k)) <= digits_value(t),
    decreases t.len() - k,
{
    if k < t.len() {
        lemma_digits_value_monotone(t, k + 1);
        assert(t.subrange(0, k + 1).drop_last() =~= t.subrange(0, k));
    } else {
        assert(t.subrange(0, k) =~= t);
    }
}

proof fn lemma_index_shift(s: Seq<char>, c: char, start: int, from: int)
    requires
        0 <= start <= s.len(),
        0 <= from,
    ensures
        index_of_from(s.subrange(start, s.len() as int), c, from) == match index_of_from(
            s,
            c,
            start + from,
        ) {
            Some(k) => Some(k - start),
            None => None,
        },
    decreases s.len() - start - from,
{
    let t = s.subrange(start, s.len() as int);
    if start + from < s.len() {
        assert(t[from] == s[start + from]);
        lemma_index_shift(s, c, start, from + 1);
    }
}

proof fn lemma_split_slash_step(s: Seq<char>, start: int, k: int)
    requires
        0 <= start <= s.len(),
        index_of_from(s, '/', start) == Some(k),
    ensures
        split_slash(s.subrange(start, s.len() as int)) == seq![s.subrange(start, k)] + split_slash(
            s.subrange(k + 1, s.len() as int),
        ),
{
    let t = s.subrange(start, s.len() as int);
    lemma_index_of_from(s, '/', start);
    lemma_index_of_from(t, '/', 0);
    lemma_index_shift(s, '/', start, 0);
    assert(t.subrange(0, k - start) =~= s.subrange(start, k));
    assert(t.subrange(k - start + 1, t.len() as int) =~= s.subrange(k + 1, s.len() as int));
}

proof fn lemma_split_slash_last(s: Seq<char>, start: int)
    requires
        0 <= start <= s.len(),
        index_of_from(s, '/', start) is None,
    ensures
        split_slash(s.subrange(start, s.len() as int)) == seq![s.subrange(start, s.len() as int)],
{
    let t = s.subrange(start, s.len() as int);
    lemma_index_of_from(s, '/', start);
    lemma_index_shift(s, '/', start, 0);
}

/// `serde_json::Value::pointer`: the value that a JSON pointer names, if any.
pub fn json_pointer_get<'a>(doc: &'a Json, p: &Vec<char>) -> (r: Option<&'a Json>)
    ensures
        match json_pointer(doc@, p@) {
            Some(v) => r is Some && r->0@ == v,
            None => r is None,
        },
{
    if p.len() == 0 {
        return Some(doc);
    }
    if p[0] != '/' {
        return None;
    }
    let body = slice_chars(p, 1, p.len());
    assert(body@ =~= p@.drop_first());
    let mut target: &'a Json = doc;
    let mut start: usize = 0;
    assert(body@.subrange(0, body@.len() as int) =~= body@);
    loop
        invariant
            start <= body.len(),
            p@.len() > 0,
            p@[0] == '/',
            body@ == p@.drop_first(),
            pointer_walk(doc@, split_slash(body@)) == pointer_walk(
                target@,
                split_slash(body@.subrange(start as int, body@.len() as int)),
            ),
        decreases body.len() - start,
    {
        let found = find_char_from(&body, '/', start);
        let end = match found {
            Some(k) => k,
            None => body.len(),
        };
        proof {
            lemma_index_of_from(body@, '/', start as int);
        }
        let raw = slice_chars(&body, start, end);
        let tok1 = replace_pair(&raw, '~', '1', '/');
        let token = replace_pair(&tok1, '~', '0', '~');
        let ghost tokens = split_slash(body@.subrange(start as int, body@.len() as int));
        proof {
            match found {
                Some(k) => lemma_split_slash_step(body@, start as int, k as int),
                None => lemma_split_slash_last(body@, start as int),
            }
            assert(tokens[0] == raw@);
        }
        let next: Option<&'a Json> = match target {
            Json::Object(_) => {
                let f = get_field_chars(target, &token);
                assert(match f {
                    Some(t) => pointer_step(target@, token@) == Some(t@),
                    None => pointer_step(target@, token@) is None,
                });
                f
            },
            Json::Array(items) => match parse_index(&token) {
                Some(n) => if n < items.len() {
                    assert(target@ == JsonV::Array(items_view(items@)));
                    assert(items_view(items@)[n as int] == items@[n as int]@);
                    let f = &items[n];
                    assert(pointer_step(target@, token@) == Some(f@));
                    Some(f)
                } else {
                    None
                },
                None => None,
            },
            _ => None,
        };
        assert(token@ == unescape_token(tokens[0]));
        assert(match next {
            Some(t) => pointer_step(target@, token@) == Some(t@),
            None => pointer_step(target@, token@) is None,
        });
        assert(pointer_walk(target@, tokens) == match pointer_step(target@, token@) {
            Some(nx) => pointer_walk(nx, tokens.drop_first()),
            None => None,
        });
        match next {
            Some(t) => {
                match found {
                    Some(k) => {
                        target = t;
                        start = k + 1;
                        assert(tokens.drop_first() =~= split_slash(
                            body@.subrange(start as int, body@.len() as int),
                        ));
                    },
                    None => {
                        assert(tokens.drop_first().len() == 0);
                        return Some(t);
                    },
                }
            },
            None => {
                return None;
            },
        }
    }
}

// ---------------------------------------------------------------------------
// Printing, as `serde_json::to_string` and `serde_json::to_string_pretty` write values.

/// Lower-case hexadecimal digit.
pub open spec fn hex_digit(d: nat) -> char {
    if d < 10 {
        digit_char(d)
    } else {
        (('a' as u32) + (d - 10)) as char
    }
}

/// How `serde_json` escapes one character inside a string literal.
pub open spec fn escape_char(c: char) -> Seq<char> {
    if c == '"' {
        seq!['\\', '"']
    } else if c == '\\' {
        seq!['\\', '\\']
    } else if c == '\u{8}' {
        seq!['\\', 'b']
    } else if c == '\u{c}' {
        seq!['\\', 'f']
    } else if c == '\n' {
        seq!['\\', 'n']
    } else if c == '\r' {
        seq!['\\', 'r']
    } else if c == '\t' {
        seq!['\\', 't']
    } else if (c as u32) < 0x20 {
        seq!['\\', 'u', '0', '0', hex_digit((c as u32 / 16) as nat), hex_digit((c as u32 % 16) as nat)]
    } else {
        seq![c]
    }
}

/// Escaped characters of a whole string.
pub open spec fn escape_text(s: Seq<char>) -> Seq<char>
    decreases s.len(),
{
    if s.len() == 0 {
        Seq::empty()
    } else {
        escape_text(s.drop_last()) + escape_char(s.last())
    }
}

/// A JSON string literal for `s`.
pub open spec fn json_quoted(s: Seq<char>) -> Seq<char> {
    seq!['"'] + escape_text(s) + seq!['"']
}

/// `serde_json::to_string` of a string: the quoted, escaped literal. `serde_json`
/// escapes `"` and `\`, writes `\b \f \n \r \t` for those controls and `\u00xx`
/// (lower-case hex) for the other characters below U+0020, and copies every other
/// character unchanged.
#[verifier::external_body]
fn quote_json(s: &Vec<char>) -> (r: Vec<char>)
    ensures
        r@ == json_quoted(s@),
{
    serde_json::to_string(&s.iter().collect::<String>()).unwrap_or_default().chars().collect()
}

/// Text of a number.
pub open spec fn num_text(n: NumV) -> Seq<char> {
    match n {
        NumV::PosInt(u) => decimal(u as nat),
        NumV::NegInt(i) => int_text(i as int),
        NumV::Float(t) => t,
    }
}

/// `serde_json::to_string`: compact JSON text.
pub open spec fn compact(v: JsonV) -> Seq<char>
    decreases v,
{
    match v {
        JsonV::Null => seq!['n', 'u', 'l', 'l'],
        JsonV::Bool(b) => if b {
            seq!['t', 'r', 'u', 'e']
        } else {
            seq!['f', 'a', 'l', 's', 'e']
        },
        JsonV::Number(n) => num_text(n),
        JsonV::Str(s) => json_quoted(s),
        JsonV::Array(items) => seq!['['] + compact_items(items) + seq![']'],
        JsonV::Object(m) => seq!['{'] + compact_entries(m) + seq!['}'],
    }
}

/// Items separated by commas.
pub open spec fn compact_items(s: Seq<JsonV>) -> Seq<char>
    decreases s,
{
    if s.len() == 0 {
        Seq::empty()
    } else if s.len() == 1 {
        compact(s[0])
    } else {
        compact_items(s.drop_last()) + seq![','] + compact(s.last())
    }
}

/// Object entries separated by commas.
pub open spec fn compact_entries(m: Seq<(Seq<char>, JsonV)>) -> Seq<char>
    decreases m,
{
    if m.len() == 0 {
        Seq::empty()
    } else if m.len() == 1 {
        json_quoted(m[0].0) + seq![':'] + compact(m[0].1)
    } else {
        compact_entries(m.drop_last()) + seq![','] + json_quoted(m.last().0) + seq![':'] + compact(
            m.last().1,
        )
    }
}

/// `serde_json::to_string_pretty`: two-space indented JSON text, `indent` being
/// the indentation of the line the value starts on.
pub open spec fn pretty(v: JsonV, indent: Seq<char>) -> Seq<char>
    decreases v,
{
    match v {
        JsonV::Array(items) => if items.len() == 0 {
            seq!['[', ']']
        } else {
            seq!['[', '\n'] + pretty_items(items, indent + seq![' ', ' ']) + seq!['\n'] + indent
                + seq![']']
        },
        JsonV::Object(m) => if m.len() == 0 {
            seq!['{', '}']
        } else {
            seq!['{', '\n'] + pretty_entries(m, indent + seq![' ', ' ']) + seq!['\n'] + indent
                + seq!['}']
        },
        _ => compact(v),
    }
}

/// Indented items, one per line.
pub open spec fn pretty_items(s: Seq<JsonV>, indent: Seq<char>) -> Seq<char>
    decreases s,
{
    if s.len() == 0 {
        Seq::empty()
    } else if s.len() == 1 {
        indent + pretty(s[0], indent)
    } else {
        pretty_items(s.drop_last(), indent) + seq![',', '\n'] + indent + pretty(s.last(), indent)
    }
}

/// Indented entries, one per line.
pub open spec fn pretty_entries(m: Seq<(Seq<char>, JsonV)>, indent: Seq<char>) -> Seq<char>
    decreases m,
{
    if m.len() == 0 {
        Seq::empty()
    } else if m.len() == 1 {
        indent + json_quoted(m[0].0) + seq![':', ' '] + pretty(m[0].1, indent)
    } else {
        pretty_entries(m.drop_last(), indent) + seq![',', '\n'] + indent + json_quoted(m.last().0)
            + seq![':', ' '] + pretty(m.last().1, indent)
    }
}

fn write_number(n: &Number, out: &mut Vec<char>)
    ensures
        final(out)@ == old(out)@ + num_text(num_view(*n)),
{
    match n {
        Number::PosInt(u) => {
            let t = u64_text(*u);
            push_all(out, &t);
        },
        Number::NegInt(i) => {
            let t = i64_text(*i);
            push_all(out, &t);
        },
        Number::Float(t) => push_all(out, t),
    }
}

/// The text of a number.
pub fn number_text(n: &Number) -> (r: Vec<char>)
    ensures
        r@ == num_text(num_view(*n)),
{
    let mut out: Vec<char> = Vec::new();
    write_number(n, &mut out);
    assert(out@ =~= num_text(num_view(*n)));
    out
}

fn write_compact(j: &Json, out: &mut Vec<char>)
    ensures
        final(out)@ == old(out)@ + compact(j@),
    decreases j,
{
    match j {
        Json::Null => {
            proof {
                reveal_strlit("null");
            }
            push_str(out, "null");
        },
        Json::Bool(b) => {
            proof {
                reveal_strlit("true");
                reveal_strlit("false");
            }
            if *b {
                push_str(out, "true")
            } else {
                push_str(out, "false")
            }
        },
        Json::Number(n) => write_number(n, out),
        Json::Str(s) => {
            let q = quote_json(s);
            push_all(out, &q);
        },
        Json::Array(items) => {
            let ghost start = out@;
            let ghost s = items_view(items@);
            out.push('[');
            proof {
                assert forall|k: int| 0 <= k < items.len() implies decreases_to!(*j => #[trigger] items[k]) by {
                    assert(decreases_to!(*j => *items));
                    assert(decreases_to!(*items => items[k]));
                }
            }
            let mut i: usize = 0;
            while i < items.len()
                invariant
                    i <= items.len(),
                    *j == Json::Array(*items),
                    forall|k: int| 0 <= k < items.len() ==> decreases_to!(*j => #[trigger] items[k]),
                    s == items_view(items@),
                    out@ == start + seq!['['] + compact_items(s.subrange(0, i as int)),
                decreases items.len() - i,
            {
                
                if i > 0 {
                    out.push(',');
                }
                write_compact(&items[i], out);
                i += 1;
                assert(s.subrange(0, i as int).drop_last() =~= s.subrange(0, i - 1));
                assert(out@ =~= start + seq!['['] + compact_items(s.subrange(0, i as int)));
            }
            out.push(']');
            assert(s.subrange(0, i as int) =~= s);
        },
        Json::Object(entries) => {
            let ghost start = out@;
            let ghost m = entries_view(entries@);
            out.push('{');
            proof {
                assert forall|k: int| 0 <= k < entries.len() implies decreases_to!(*j => #[trigger] entries[k].1) by {
                    assert(decreases_to!(*j => *entries));
                    assert(decreases_to!(*entries => entries[k]));
                    assert(decreases_to!(entries[k] => entries[k].1));
                }
            }
            let mut i: usize = 0;
            while i < entries.len()
                invariant
                    i <= entries.len(),
                    *j == Json::Object(*entries),
                    forall|k: int| 0 <= k < entries.len() ==> decreases_to!(*j => #[trigger] entries[k].1),
                    m == entries_view(entries@),
                    out@ == start + seq!['{'] + compact_entries(m.subrange(0, i as int)),
                decreases entries.len() - i,
            {
                
                if i > 0 {
                    out.push(',');
                }
                let q = quote_json(&entries[i].0);
                push_all(out, &q);
                out.push(':');
                write_compact(&entries[i].1, out);
                i += 1;
                assert(m.subrange(0, i as int).drop_last() =~= m.subrange(0, i - 1));
                assert(out@ =~= start + seq!['{'] + compact_entries(m.subrange(0, i as int)));
            }
            out.push('}');
            assert(m.subrange(0, i as int) =~= m);
        },
    }
}

fn write_pretty(j: &Json, indent: &Vec<char>, out: &mut Vec<char>)
    ensures
        final(out)@ == old(out)@ + pretty(j@, indent@),
    decreases j,
{
    match j {
        Json::Array(items) => {
            if items.len() == 0 {
                proof {
                    reveal_strlit("[]");
                }
                push_str(out, "[]");
                return;
            }
            let ghost start = out@;
            let ghost s = items_view(items@);
            let mut deeper = copy_chars(indent);
            deeper.push(' ');
            deeper.push(' ');
            assert(deeper@ =~= indent@ + seq![' ', ' ']);
            out.push('[');
            out.push('\n');
            proof {
                assert forall|k: int| 0 <= k < items.len() implies decreases_to!(*j => #[trigger] items[k]) by {
                    assert(decreases_to!(*j => *items));
                    assert(decreases_to!(*items => items[k]));
                }
            }
            let mut i: usize = 0;
            while i < items.len()
                invariant
                    i <= items.len(),
                    *j == Json::Array(*items),
                    forall|k: int| 0 <= k < items.len() ==> decreases_to!(*j => #[trigger] items[k]),
                    s == items_view(items@),
                    out@ == start + seq!['[', '\n'] + pretty_items(s.subrange(0, i as int), deeper@),
                decreases items.len() - i,
            {
                
                if i > 0 {
                    out.push(',');
                    out.push('\n');
                }
                push_all(out, &deeper);
                write_pretty(&items[i], &deeper, out);
                i += 1;
                assert(s.subrange(0, i as int).drop_last() =~= s.subrange(0, i - 1));
                assert(out@ =~= start + seq!['[', '\n'] + pretty_items(
                    s.subrange(0, i as int),
                    deeper@,
                ));
            }
            out.push('\n');
            push_all(out, indent);
            out.push(']');
            assert(s.subrange(0, i as int) =~= s);
            assert(out@ =~= start + pretty(j@, indent@));
        },
        Json::Object(entries) => {
            if entries.len() == 0 {
                proof {
                    reveal_strlit("{}");
                }
                push_str(out, "{}");
                return;
            }
            let ghost start = out@;
            let ghost m = entries_view(entries@);
            let mut deeper = copy_chars(indent);
            deeper.push(' ');
            deeper.push(' ');
            assert(deeper@ =~= indent@ + seq![' ', ' ']);
            out.push('{');
            out.push('\n');
            proof {
                assert forall|k: int| 0 <= k < entries.len() implies decreases_to!(*j => #[trigger] entries[k].1) by {
                    assert(decreases_to!(*j => *entries));
                    assert(decreases_to!(*entries => entries[k]));
                    assert(decreases_to!(entries[k] => entries[k].1));
                }
            }
            let mut i: usize = 0;
            while i < entries.len()
                invariant
                    i <= entries.len(),
                    *j == Json::Object(*entries),
                    forall|k: int| 0 <= k < entries.len() ==> decreases_to!(*j => #[trigger] entries[k].1),
                    m == entries_view(entries@),
                    out@ == start + seq!['{', '\n'] + pretty_entries(
                        m.subrange(0, i as int),
                        deeper@,
                    ),
                decreases entries.len() - i,
            {
                
                if i > 0 {
                    out.push(',');
                    out.push('\n');
                }
                push_all(out, &deeper);
                let q = quote_json(&entries[i].0);
                push_all(out, &q);
                out.push(':');
                out.push(' ');
                write_pretty(&entries[i].1, &deeper, out);
                i += 1;
                assert(m.subrange(0, i as int).drop_last() =~= m.subrange(0, i - 1));
                assert(out@ =~= start + seq!['{', '\n'] + pretty_entries(
                    m.subrange(0, i as int),
                    deeper@,
                ));
            }
            out.push('\n');
            push_all(out, indent);
            out.push('}');
            assert(m.subrange(0, i as int) =~= m);
            assert(out@ =~= start + pretty(j@, indent@));
        },
        _ => write_compact(j, out),
    }
}

/// `serde_json::to_string` of a value.
pub fn to_compact(j: &Json) -> (r: Vec<char>)
    ensures
        r@ == compact(j@),
{
    let mut out: Vec<char> = Vec::new();
    write_compact(j, &mut out);
    assert(out@ =~= compact(j@));
    out
}

/// `serde_json::to_string_pretty` of a value.
pub fn to_pretty(j: &Json) -> (r: Vec<char>)
    ensures
        r@ == pretty(j@, Seq::empty()),
{
    let mut out: Vec<char> = Vec::new();
    let indent: Vec<char> = Vec::new();
    write_pretty(j, &indent, &mut out);
    assert(out@ =~= pretty(j@, Seq::empty()));
    out
}

} // verus!
