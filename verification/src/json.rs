//! The JSON value model that documents, schemas and samples are held in.
//!
//! Objects hold their entries in the order they are printed. Objects built by
//! `json_ops::object_insert` keep them sorted by key with no key twice
//! (`properties::lemma_entry_insert_sorted`).
use vstd::prelude::*;



verus! {

/// A JSON number: a non-negative integer, a negative integer, or a float held
/// as the text that `serde_json` prints for it.
pub enum Number {
    PosInt(u64),
    NegInt(i64),
    Float(Vec<char>),
}

/// A JSON value.
pub enum Json {
    Null,
    Bool(bool),
    Number(Number),
    Str(Vec<char>),
    Array(Vec<Json>),
    Object(Vec<(Vec<char>, Json)>),
}

/// The mathematical form of a [`Number`].
pub enum NumV {
    PosInt(u64),
    NegInt(i64),
    Float(Seq<char>),
}

/// The mathematical form of a [`Json`] value.
pub enum JsonV {
    Null,
    Bool(bool),
    Number(NumV),
    Str(Seq<char>),
    Array(Seq<JsonV>),
    Object(Seq<(Seq<char>, JsonV)>),
}

/// The view of a number.
pub open spec fn num_view(n: Number) -> NumV {
    match n {
        Number::PosInt(u) => NumV::PosInt(u),
        Number::NegInt(i) => NumV::NegInt(i),
        Number::Float(t) => NumV::Float(t@),
    }
}

/// The view of a JSON value.
pub open spec fn json_view(j: Json) -> JsonV
    decreases j,
{
    match j {
        Json::Null => JsonV::Null,
        Json::Bool(b) => JsonV::Bool(b),
        Json::Number(n) => JsonV::Number(num_view(n)),
        Json::Str(s) => JsonV::Str(s@),
        Json::Array(items) => JsonV::Array(items_view(items@)),
        Json::Object(entries) => JsonV::Object(entries_view(entries@)),
    }
}

/// The views of a sequence of values.
pub open spec fn items_view(s: Seq<Json>) -> Seq<JsonV>
    decreases s,
{
    if s.len() == 0 {
        Seq::empty()
    } else {
        items_view(s.drop_last()).push(json_view(s.last()))
    }
}

/// The views of a sequence of object entries.
pub open spec fn entries_view(s: Seq<(Vec<char>, Json)>) -> Seq<(Seq<char>, JsonV)>
    decreases s,
{
    if s.len() == 0 {
        Seq::empty()
    } else {
        entries_view(s.drop_last()).push((s.last().0@, json_view(s.last().1)))
    }
}

impl View for Json {
    type V = JsonV;

    open spec fn view(&self) -> JsonV {
        json_view(*self)
    }
}

/// Length and elements of `items_view`.
pub proof fn lemma_items_view(s: Seq<Json>)
    ensures
        items_view(s).len() == s.len(),
        forall|i: int| 0 <= i < s.len() ==> #[trigger] items_view(s)[i] == json_view(s[i]),
    decreases s.len(),
{
    if s.len() > 0 {
        lemma_items_view(s.drop_last());
        assert forall|i: int| 0 <= i < s.len() implies #[trigger] items_view(s)[i] == json_view(
            s[i],
        ) by {
            if i < s.len() - 1 {
                assert(s.drop_last()[i] == s[i]);
            }
        }
    }
}

/// Length and elements of `entries_view`.
pub proof fn lemma_entries_view(s: Seq<(Vec<char>, Json)>)
    ensures
        entries_view(s).len() == s.len(),
        forall|i: int|
            0 <= i < s.len() ==> #[trigger] entries_view(s)[i] == (s[i].0@, json_view(s[i].1)),
    decreases s.len(),
{
    if s.len() > 0 {
        lemma_entries_view(s.drop_last());
        assert forall|i: int| 0 <= i < s.len() implies #[trigger] entries_view(s)[i] == (
            s[i].0@,
            json_view(s[i].1),
        ) by {
            if i < s.len() - 1 {
                assert(s.drop_last()[i] == s[i]);
            }
        }
    }
}

/// The length of `items_view`.
pub broadcast proof fn lemma_items_view_len(s: Seq<Json>)
    ensures
        #[trigger] items_view(s).len() == s.len(),
{
    lemma_items_view(s);
}

/// An element of `items_view`.
pub broadcast proof fn lemma_items_view_index(s: Seq<Json>, i: int)
    requires
        0 <= i < s.len(),
    ensures
        #[trigger] items_view(s)[i] == json_view(s[i]),
{
    lemma_items_view(s);
}

/// The length of `entries_view`.
pub broadcast proof fn lemma_entries_view_len(s: Seq<(Vec<char>, Json)>)
    ensures
        #[trigger] entries_view(s).len() == s.len(),
{
    lemma_entries_view(s);
}

/// An element of `entries_view`.
pub broadcast proof fn lemma_entries_view_index(s: Seq<(Vec<char>, Json)>, i: int)
    requires
        0 <= i < s.len(),
    ensures
        #[trigger] entries_view(s)[i] == (s[i].0@, json_view(s[i].1)),
{
    lemma_entries_view(s);
}

pub broadcast group group_json_view {
    lemma_items_view_len,
    lemma_items_view_index,
    lemma_entries_view_len,
    lemma_entries_view_index,
}

} // verus!


