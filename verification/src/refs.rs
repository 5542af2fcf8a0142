//! Why following `$ref`s terminates: every reference after the first is a string
//! that occurs in the document, and a reference is never followed twice on one
//! chain, so a chain is no longer than the document has strings.
use vstd::prelude::*;

use crate::decode::ref_target;
use crate::json::JsonV;
use crate::json_ops::{
    entries_get, digits_value, json_pointer, pointer_step, pointer_walk,
    unescape_token,
};

verus! {

/// The string values that occur in a JSON value.
pub open spec fn json_strings(v: JsonV) -> Set<Seq<char>>
    decreases v,
{
    match v {
        JsonV::Str(s) => set![s],
        JsonV::Array(items) => items_strings(items),
        JsonV::Object(m) => entries_strings(m),
        _ => Set::empty(),
    }
}

/// The string values that occur in a list of values.
pub open spec fn items_strings(s: Seq<JsonV>) -> Set<Seq<char>>
    decreases s,
{
    if s.len() == 0 {
        Set::empty()
    } else {
        items_strings(s.drop_last()).union(json_strings(s.last()))
    }
}

/// The string values that occur in the values of object entries.
pub open spec fn entries_strings(m: Seq<(Seq<char>, JsonV)>) -> Set<Seq<char>>
    decreases m,
{
    if m.len() == 0 {
        Set::empty()
    } else {
        entries_strings(m.drop_last()).union(json_strings(m.last().1))
    }
}

/// The strings of a value form a finite set.
pub proof fn lemma_strings_finite(v: JsonV)
    ensures
        json_strings(v).finite(),
    decreases v,
{
    match v {
        JsonV::Array(items) => lemma_items_strings_finite(items),
        JsonV::Object(m) => lemma_entries_strings_finite(m),
        _ => {},
    }
}

proof fn lemma_items_strings_finite(s: Seq<JsonV>)
    ensures
        items_strings(s).finite(),
    decreases s,
{
    if s.len() > 0 {
        lemma_items_strings_finite(s.drop_last());
        lemma_strings_finite(s.last());
    }
}

proof fn lemma_entries_strings_finite(m: Seq<(Seq<char>, JsonV)>)
    ensures
        entries_strings(m).finite(),
    decreases m,
{
    if m.len() > 0 {
        lemma_entries_strings_finite(m.drop_last());
        lemma_strings_finite(m.last().1);
    }
}

proof fn lemma_items_strings_member(s: Seq<JsonV>, i: int)
    requires
        0 <= i < s.len(),
    ensures
        json_strings(s[i]).subset_of(items_strings(s)),
    decreases s.len(),
{
    if i < s.len() - 1 {
        lemma_items_strings_member(s.drop_last(), i);
        assert(s.drop_last()[i] == s[i]);
    }
}

proof fn lemma_entries_get_strings(m: Seq<(Seq<char>, JsonV)>, k: Seq<char>)
    requires
        entries_get(m, k) is Some,
    ensures
        json_strings(entries_get(m, k)->0).subset_of(entries_strings(m)),
    decreases m.len(),
{
    if m[0].0 == k {
        lemma_entries_member(m, 0);
    } else {
        lemma_entries_get_strings(m.drop_first(), k);
        lemma_entries_drop_first_subset(m);
    }
}

proof fn lemma_entries_member(m: Seq<(Seq<char>, JsonV)>, i: int)
    requires
        0 <= i < m.len(),
    ensures
        json_strings(m[i].1).subset_of(entries_strings(m)),
    decreases m.len(),
{
    if i < m.len() - 1 {
        lemma_entries_member(m.drop_last(), i);
        assert(m.drop_last()[i] == m[i]);
    }
}

proof fn lemma_entries_drop_first_subset(m: Seq<(Seq<char>, JsonV)>)
    requires
        m.len() > 0,
    ensures
        entries_strings(m.drop_first()).subset_of(entries_strings(m)),
{
    assert forall|x: Seq<char>| entries_strings(m.drop_first()).contains(x) implies entries_strings(
        m,
    ).contains(x) by {
        lemma_entries_witness(m.drop_first(), x);
        let i = choose|i: int| 0 <= i < m.drop_first().len() && json_strings(
            m.drop_first()[i].1,
        ).contains(x);
        assert(m.drop_first()[i] == m[i + 1]);
        lemma_entries_member(m, i + 1);
    }
}

proof fn lemma_entries_witness(m: Seq<(Seq<char>, JsonV)>, x: Seq<char>)
    requires
        entries_strings(m).contains(x),
    ensures
        exists|i: int| 0 <= i < m.len() && json_strings(m[i].1).contains(x),
    decreases m.len(),
{
    if json_strings(m.last().1).contains(x) {
        assert(json_strings(m[m.len() - 1].1).contains(x));
    } else {
        lemma_entries_witness(m.drop_last(), x);
        let i = choose|i: int| 0 <= i < m.drop_last().len() && json_strings(
            m.drop_last()[i].1,
        ).contains(x);
        assert(m.drop_last()[i] == m[i]);
    }
}

proof fn lemma_step_strings(t: JsonV, token: Seq<char>)
    requires
        pointer_step(t, token) is Some,
    ensures
        json_strings(pointer_step(t, token)->0).subset_of(json_strings(t)),
{
    match t {
        JsonV::Object(m) => lemma_entries_get_strings(m, token),
        JsonV::Array(items) => lemma_items_strings_member(items, digits_value(token) as int),
        _ => {},
    }
}

proof fn lemma_walk_strings(t: JsonV, tokens: Seq<Seq<char>>)
    requires
        pointer_walk(t, tokens) is Some,
    ensures
        json_strings(pointer_walk(t, tokens)->0).subset_of(json_strings(t)),
    decreases tokens.len(),
{
    if tokens.len() > 0 {
        let tok = unescape_token(tokens[0]);
        lemma_step_strings(t, tok);
        lemma_walk_strings(pointer_step(t, tok)->0, tokens.drop_first());
    }
}

/// What a JSON pointer names holds only strings of the document.
pub proof fn lemma_pointer_strings(doc: JsonV, p: Seq<char>)
    requires
        json_pointer(doc, p) is Some,
    ensures
        json_strings(json_pointer(doc, p)->0).subset_of(json_strings(doc)),
{
    if p.len() > 0 {
        lemma_walk_strings(doc, crate::json_ops::split_slash(p.drop_first()));
    }
}

/// A `$ref` target is one of the value's strings.
pub proof fn lemma_ref_target_string(v: JsonV)
    requires
        ref_target(v) is Some,
    ensures
        json_strings(v).contains(ref_target(v)->0),
{
    match v {
        JsonV::Object(m) => {
            lemma_entries_get_strings(m, "$ref"@);
        },
        _ => {},
    }
}

/// The strings of the document not yet on the chain.
pub open spec fn budget(doc: JsonV, stack: Seq<Seq<char>>) -> nat {
    json_strings(doc).difference(stack.to_set()).len()
}

/// The termination measure of one step of `$ref` following: twice the budget,
/// plus one when the value's own reference lies outside the document's strings.
pub open spec fn ref_measure(doc: JsonV, v: JsonV, stack: Seq<Seq<char>>) -> nat {
    2 * budget(doc, stack) + match ref_target(v) {
        Some(r) => if json_strings(doc).contains(r) {
            0nat
        } else {
            1nat
        },
        None => 0nat,
    }
}

/// Following the reference of `v` to `next`, a value found in the document,
/// decreases the measure.
pub proof fn lemma_ref_measure_decreases(
    doc: JsonV,
    v: JsonV,
    stack: Seq<Seq<char>>,
    next: JsonV,
)
    requires
        ref_target(v) is Some,
        !stack.contains(ref_target(v)->0),
        json_strings(next).subset_of(json_strings(doc)),
    ensures
        ref_measure(doc, next, stack.push(ref_target(v)->0)) < ref_measure(doc, v, stack),
{
    let r = ref_target(v)->0;
    let t = json_strings(doc);
    lemma_strings_finite(doc);
    let before = t.difference(stack.to_set());
    let after = t.difference(stack.push(r).to_set());
    assert(stack.push(r).to_set() =~= stack.to_set().insert(r)) by {
        assert forall|x: Seq<char>| stack.push(r).to_set().contains(x) <==> stack.to_set().insert(
            r,
        ).contains(x) by {
            if stack.push(r).to_set().contains(x) {
                let i = choose|i: int| 0 <= i < stack.push(r).len() && stack.push(r)[i] == x;
                if i < stack.len() {
                    assert(stack[i] == x);
                }
            }
            if stack.contains(x) {
                let i = choose|i: int| 0 <= i < stack.len() && stack[i] == x;
                assert(stack.push(r)[i] == x);
            }
            if x == r {
                assert(stack.push(r)[stack.len() as int] == r);
            }
        }
    }
    if t.contains(r) {
        assert(after =~= before.remove(r));
        assert(before.contains(r));
    } else {
        assert(after =~= before);
    }
    if ref_target(next) is Some {
        lemma_ref_target_string(next);
    }
}

} // verus!
