//! YAML input: `serde_yaml` parses the text, and the library turns the parsed
//! tree into its own JSON model (the conversion that lets numeric status keys
//! such as `200:` become the string `"200"`).
use vstd::prelude::*;

use crate::json::{items_view, Json, JsonV, NumV, Number};
use crate::json_ops::{compact, entries_insert, num_text, object_insert};
use crate::text::{chars_of, push_all, push_str};

verus! {

broadcast use {vstd::std_specs::vec::group_vec_axioms, crate::json::group_json_view};

/// A YAML value as `serde_yaml` parses it.
#[verifier::external_type_specification]
#[verifier::external_body]
pub struct ExYamlValue(serde_yaml::Value);

/// A YAML number: `serde_yaml` keeps non-negative integers, negative integers and
/// floats apart; a float is held as the text its `Display` writes (`.nan`, `.inf`
/// and `-.inf` for the values that are not finite).
pub enum YamlNum {
    PosInt(u64),
    NegInt(i64),
    Float(Seq<char>),
}

/// What a parsed YAML node holds. Mapping entries are in document order; a tagged
/// node keeps its tag and the tagged value.
pub enum YamlTree {
    Null,
    Bool(bool),
    Number(YamlNum),
    Str(Seq<char>),
    List(Seq<YamlTree>),
    Dict(Seq<(YamlTree, YamlTree)>),
    Tagged(Seq<char>, Box<YamlTree>),
}

/// What a `serde_yaml::Value` holds.
pub uninterp spec fn yaml_tree(v: serde_yaml::Value) -> YamlTree;

/// What `serde_yaml::from_str::<serde_yaml::Value>` makes of a text: the parsed
/// tree, or the text of its error.
pub uninterp spec fn yaml_parse(text: Seq<char>) -> Result<YamlTree, Seq<char>>;

/// The `Debug` text of a YAML value.
pub uninterp spec fn yaml_debug_text(t: YamlTree) -> Seq<char>;

/// The text `serde_json` prints for the float whose `serde_yaml` display text is
/// given, or nothing when that float is not finite.
pub uninterp spec fn json_float_text(display: Seq<char>) -> Option<Seq<char>>;

/// `serde_yaml::from_str::<serde_yaml::Value>`: parses YAML (and so JSON) text.
/// The result is named by `yaml_parse`: the same text always gives the same tree,
/// or the same error message.
#[verifier::external_body]
pub(crate) fn parse_yaml(text: &str) -> (r: Result<serde_yaml::Value, Vec<char>>)
    ensures
        match r {
            Ok(v) => yaml_parse(text@) == Ok::<YamlTree, Seq<char>>(yaml_tree(v)),
            Err(e) => yaml_parse(text@) == Err::<YamlTree, Seq<char>>(e@),
        },
{
    serde_yaml::from_str::<serde_yaml::Value>(text).map_err(|e| e.to_string().chars().collect())
}

/// The kind of a YAML node, with the scalar it holds.
pub enum YamlKind {
    Null,
    Bool(bool),
    Number,
    Str(Vec<char>),
    List,
    Dict,
    Tagged,
}

/// Which variant of `serde_yaml::Value` a node is, with its boolean or string.
#[verifier::external_body]
fn yaml_kind(v: &serde_yaml::Value) -> (r: YamlKind)
    ensures
        match yaml_tree(*v) {
            YamlTree::Null => r is Null,
            YamlTree::Bool(b) => r == YamlKind::Bool(b),
            YamlTree::Number(_) => r is Number,
            YamlTree::Str(s) => r is Str && r->Str_0@ == s,
            YamlTree::List(_) => r is List,
            YamlTree::Dict(_) => r is Dict,
            YamlTree::Tagged(_, _) => r is Tagged,
        },
{
    match v {
        serde_yaml::Value::Null => YamlKind::Null,
        serde_yaml::Value::Bool(b) => YamlKind::Bool(*b),
        serde_yaml::Value::Number(_) => YamlKind::Number,
        serde_yaml::Value::String(s) => YamlKind::Str(s.chars().collect()),
        serde_yaml::Value::Sequence(_) => YamlKind::List,
        serde_yaml::Value::Mapping(_) => YamlKind::Dict,
        serde_yaml::Value::Tagged(_) => YamlKind::Tagged,
    }
}

/// `serde_yaml::Number::as_i64` of a number node: the integer when it fits in `i64`.
#[verifier::external_body]
fn yaml_as_i64(v: &serde_yaml::Value) -> (r: Option<i64>)
    requires
        yaml_tree(*v) is Number,
    ensures
        match yaml_tree(*v)->Number_0 {
            YamlNum::PosInt(u) => r == if u <= i64::MAX {
                Some(u as i64)
            } else {
                None::<i64>
            },
            YamlNum::NegInt(i) => r == Some(i),
            YamlNum::Float(_) => r is None,
        },
{
    match v {
        serde_yaml::Value::Number(n) => n.as_i64(),
        _ => None,
    }
}

/// `serde_yaml::Number::as_u64` of a number node: the non-negative integer.
#[verifier::external_body]
fn yaml_as_u64(v: &serde_yaml::Value) -> (r: Option<u64>)
    requires
        yaml_tree(*v) is Number,
    ensures
        match yaml_tree(*v)->Number_0 {
            YamlNum::PosInt(u) => r == Some(u),
            _ => r is None,
        },
{
    match v {
        serde_yaml::Value::Number(n) => n.as_u64(),
        _ => None,
    }
}

/// A float node as `serde_json::Number::from_f64` keeps it, as the text that
/// `serde_json` prints; nothing for NaN and the infinities, which `from_f64` refuses.
#[verifier::external_body]
fn yaml_float_json(v: &serde_yaml::Value) -> (r: Option<Vec<char>>)
    requires
        yaml_tree(*v) matches YamlTree::Number(YamlNum::Float(_)),
    ensures
        match json_float_text(yaml_tree(*v)->Number_0->Float_0) {
            Some(t) => r is Some && r->0@ == t,
            None => r is None,
        },
{
    v.as_f64().and_then(serde_json::Number::from_f64).map(|n| n.to_string().chars().collect())
}

/// The elements of a sequence node, in order.
#[verifier::external_body]
fn yaml_items(v: &serde_yaml::Value) -> (r: Option<&Vec<serde_yaml::Value>>)
    ensures
        match yaml_tree(*v) {
            YamlTree::List(s) => r is Some && r->0.len() == s.len() && forall|i: int|
                0 <= i < s.len() ==> yaml_tree(#[trigger] r->0[i]) == s[i],
            _ => r is None,
        },
{
    match v {
        serde_yaml::Value::Sequence(items) => Some(items),
        _ => None,
    }
}

/// The entries of a mapping node, in the mapping's order.
#[verifier::external_body]
fn yaml_entries(v: &serde_yaml::Value) -> (r: Vec<(&serde_yaml::Value, &serde_yaml::Value)>)
    requires
        yaml_tree(*v) is Dict,
    ensures
        r.len() == yaml_tree(*v)->Dict_0.len(),
        forall|i: int|
            0 <= i < r.len() ==> yaml_tree(*(#[trigger] r[i]).0) == yaml_tree(*v)->Dict_0[i].0
                && yaml_tree(*r[i].1) == yaml_tree(*v)->Dict_0[i].1,
{
    match v {
        serde_yaml::Value::Mapping(m) => m.iter().collect(),
        _ => Vec::new(),
    }
}

/// The value under a tag.
#[verifier::external_body]
fn yaml_untag(v: &serde_yaml::Value) -> (r: &serde_yaml::Value)
    requires
        yaml_tree(*v) is Tagged,
    ensures
        yaml_tree(*r) == *yaml_tree(*v)->Tagged_1,
{
    match v {
        serde_yaml::Value::Tagged(t) => &t.value,
        _ => v,
    }
}

/// The `Debug` text of a YAML node.
#[verifier::external_body]
fn yaml_debug(v: &serde_yaml::Value) -> (r: Vec<char>)
    ensures
        r@ == yaml_debug_text(yaml_tree(*v)),
{
    format!("{:?}", v).chars().collect()
}

/// A YAML number as a JSON value: integers stay integers, finite floats become
/// JSON floats, and NaN or an infinity becomes `null`.
pub open spec fn number_to_json(n: YamlNum) -> JsonV {
    match n {
        YamlNum::PosInt(u) => JsonV::Number(NumV::PosInt(u)),
        YamlNum::NegInt(i) => if i < 0 {
            JsonV::Number(NumV::NegInt(i))
        } else {
            JsonV::Number(NumV::PosInt(i as u64))
        },
        YamlNum::Float(t) => match json_float_text(t) {
            Some(x) => JsonV::Number(NumV::Float(x)),
            None => JsonV::Null,
        },
    }
}

/// A YAML mapping key as a JSON object key: strings as they are, numbers as JSON
/// prints them, booleans as `true` or `false`; any other key is refused.
pub open spec fn key_to_json(t: YamlTree) -> Result<Seq<char>, Seq<char>> {
    match t {
        YamlTree::Str(s) => Ok(s),
        YamlTree::Number(n) => Ok(
            match number_to_json(n) {
                JsonV::Number(x) => num_text(x),
                other => compact(other),
            },
        ),
        YamlTree::Bool(b) => Ok(
            if b {
                seq!['t', 'r', 'u', 'e']
            } else {
                seq!['f', 'a', 'l', 's', 'e']
            },
        ),
        _ => Err(key_error(yaml_debug_text(t))),
    }
}

/// The message for a mapping key that is not a scalar.
pub open spec fn key_error(debug: Seq<char>) -> Seq<char> {
    "YAML mapping key must be a string (got "@ + debug + ")"@
}

/// A YAML tree as a JSON value: tags are dropped, mappings become objects whose
/// later entries replace earlier ones with the same key; the first key that
/// cannot be a JSON key is the error.
pub open spec fn tree_to_json(t: YamlTree) -> Result<JsonV, Seq<char>>
    decreases t,
{
    match t {
        YamlTree::Null => Ok(JsonV::Null),
        YamlTree::Bool(b) => Ok(JsonV::Bool(b)),
        YamlTree::Number(n) => Ok(number_to_json(n)),
        YamlTree::Str(s) => Ok(JsonV::Str(s)),
        YamlTree::List(items) => match list_to_json(items) {
            Ok(xs) => Ok(JsonV::Array(xs)),
            Err(e) => Err(e),
        },
        YamlTree::Dict(entries) => match dict_to_json(entries) {
            Ok(m) => Ok(JsonV::Object(m)),
            Err(e) => Err(e),
        },
        YamlTree::Tagged(_, inner) => tree_to_json(*inner),
    }
}

/// The elements of a sequence, converted in order.
pub open spec fn list_to_json(s: Seq<YamlTree>) -> Result<Seq<JsonV>, Seq<char>>
    decreases s,
{
    if s.len() == 0 {
        Ok(Seq::empty())
    } else {
        match list_to_json(s.drop_last()) {
            Ok(prefix) => match tree_to_json(s.last()) {
                Ok(x) => Ok(prefix.push(x)),
                Err(e) => Err(e),
            },
            Err(e) => Err(e),
        }
    }
}

/// The entries of a mapping, each key converted before its value, inserted in order.
pub open spec fn dict_to_json(s: Seq<(YamlTree, YamlTree)>) -> Result<
    Seq<(Seq<char>, JsonV)>,
    Seq<char>,
>
    decreases s,
{
    if s.len() == 0 {
        Ok(Seq::empty())
    } else {
        match dict_to_json(s.drop_last()) {
            Ok(prefix) => match key_to_json(s.last().0) {
                Ok(k) => match tree_to_json(s.last().1) {
                    Ok(x) => Ok(entries_insert(prefix, k, x)),
                    Err(e) => Err(e),
                },
                Err(e) => Err(e),
            },
            Err(e) => Err(e),
        }
    }
}

fn number_json(v: &serde_yaml::Value) -> (r: Json)
    requires
        yaml_tree(*v) is Number,
    ensures
        r@ == number_to_json(yaml_tree(*v)->Number_0),
{
    match yaml_as_i64(v) {
        Some(i) => if i < 0 {
            Json::Number(Number::NegInt(i))
        } else {
            Json::Number(Number::PosInt(i as u64))
        },
        None => match yaml_as_u64(v) {
            Some(u) => Json::Number(Number::PosInt(u)),
            None => match yaml_float_json(v) {
                Some(t) => Json::Number(Number::Float(t)),
                None => Json::Null,
            },
        },
    }
}

fn key_json(v: &serde_yaml::Value) -> (r: Result<Vec<char>, Vec<char>>)
    ensures
        match key_to_json(yaml_tree(*v)) {
            Ok(k) => r is Ok && r->Ok_0@ == k,
            Err(e) => r is Err && r->Err_0@ == e,
        },
{
    match yaml_kind(v) {
        YamlKind::Str(s) => Ok(s),
        YamlKind::Number => {
            let n = number_json(v);
            let mut out: Vec<char> = Vec::new();
            match &n {
                Json::Number(x) => {
                    let t = crate::json_ops::number_text(x);
                    push_all(&mut out, &t);
                },
                _ => {
                    let t = crate::json_ops::to_compact(&n);
                    push_all(&mut out, &t);
                },
            }
            assert(out@ =~= match n@ {
                JsonV::Number(x) => num_text(x),
                other => compact(other),
            });
            Ok(out)
        },
        YamlKind::Bool(b) => {
            proof {
                reveal_strlit("true");
                reveal_strlit("false");
            }
            if b {
                Ok(chars_of("true"))
            } else {
                Ok(chars_of("false"))
            }
        },
        _ => {
            let mut msg = chars_of("YAML mapping key must be a string (got ");
            let d = yaml_debug(v);
            push_all(&mut msg, &d);
            push_str(&mut msg, ")");
            Err(msg)
        },
    }
}

/// Converts a parsed YAML node into the library's JSON model.
pub fn yaml_to_json(v: &serde_yaml::Value) -> (r: Result<Json, Vec<char>>)
    ensures
        match tree_to_json(yaml_tree(*v)) {
            Ok(x) => r is Ok && r->Ok_0@ == x,
            Err(e) => r is Err && r->Err_0@ == e,
        },
    decreases yaml_tree(*v),
{
    match yaml_kind(v) {
        YamlKind::Null => Ok(Json::Null),
        YamlKind::Bool(b) => Ok(Json::Bool(b)),
        YamlKind::Number => Ok(number_json(v)),
        YamlKind::Str(s) => Ok(Json::Str(s)),
        YamlKind::List => {
            let items = match yaml_items(v) {
                Some(items) => items,
                None => {
                    return Ok(Json::Null);
                },
            };
            let ghost s = yaml_tree(*v)->List_0;
            let mut out: Vec<Json> = Vec::new();
            let mut i: usize = 0;
            while i < items.len()
                invariant
                    i <= items.len(),
                    yaml_tree(*v) == YamlTree::List(s),
                    items.len() == s.len(),
                    forall|k: int| 0 <= k < items.len() ==> yaml_tree(#[trigger] items[k]) == s[k],
                    list_to_json(s.subrange(0, i as int)) == Ok::<Seq<JsonV>, Seq<char>>(
                        items_view(out@),
                    ),
                decreases items.len() - i,
            {
                assert(yaml_tree(items[i as int]) == s[i as int]);
                assert(decreases_to!(yaml_tree(*v) => s[i as int]));
                let x = yaml_to_json(&items[i]);
                assert(s.subrange(0, i + 1).drop_last() =~= s.subrange(0, i as int));
                match x {
                    Ok(x) => {
                        let ghost prev = out@;
                        out.push(x);
                        assert(out@.drop_last() =~= prev);
                    },
                    Err(e) => {
                        proof {
                            lemma_list_error_persists(s, i as int + 1, e@);
                        }
                        return Err(e);
                    },
                }
                i += 1;
            }
            assert(s.subrange(0, i as int) =~= s);
            Ok(Json::Array(out))
        },
        YamlKind::Dict => {
            let entries = yaml_entries(v);
            let ghost s = yaml_tree(*v)->Dict_0;
            let mut out: Vec<(Vec<char>, Json)> = Vec::new();
            let mut i: usize = 0;
            while i < entries.len()
                invariant
                    i <= entries.len(),
                    yaml_tree(*v) == YamlTree::Dict(s),
                    entries.len() == s.len(),
                    forall|k: int|
                        0 <= k < entries.len() ==> yaml_tree(*(#[trigger] entries[k]).0) == s[k].0
                            && yaml_tree(*entries[k].1) == s[k].1,
                    dict_to_json(s.subrange(0, i as int)) == Ok::<
                        Seq<(Seq<char>, JsonV)>,
                        Seq<char>,
                    >(crate::json::entries_view(out@)),
                decreases entries.len() - i,
            {
                assert(yaml_tree(*entries[i as int].0) == s[i as int].0);
                assert(decreases_to!(yaml_tree(*v) => s[i as int]));
                assert(decreases_to!(s[i as int] => s[i as int].1));
                assert(s.subrange(0, i + 1).drop_last() =~= s.subrange(0, i as int));
                let (kv, vv) = entries[i];
                let k = key_json(kv);
                match k {
                    Ok(k) => {
                        let x = yaml_to_json(vv);
                        match x {
                            Ok(x) => {
                                object_insert(&mut out, k, x);
                            },
                            Err(e) => {
                                proof {
                                    lemma_dict_error_persists(s, i as int + 1, e@);
                                }
                                return Err(e);
                            },
                        }
                    },
                    Err(e) => {
                        proof {
                            lemma_dict_error_persists(s, i as int + 1, e@);
                        }
                        return Err(e);
                    },
                }
                i += 1;
            }
            assert(s.subrange(0, i as int) =~= s);
            Ok(Json::Object(out))
        },
        YamlKind::Tagged => {
            let inner = yaml_untag(v);
            yaml_to_json(inner)
        },
    }
}

proof fn lemma_list_error_persists(s: Seq<YamlTree>, n: int, e: Seq<char>)
    requires
        0 <= n <= s.len(),
        list_to_json(s.subrange(0, n)) == Err::<Seq<JsonV>, Seq<char>>(e),
    ensures
        list_to_json(s) == Err::<Seq<JsonV>, Seq<char>>(e),
    decreases s.len() - n,
{
    if n < s.len() {
        assert(s.subrange(0, n + 1).drop_last() =~= s.subrange(0, n));
        lemma_list_error_persists(s, n + 1, e);
    } else {
        assert(s.subrange(0, n) =~= s);
    }
}

proof fn lemma_dict_error_persists(s: Seq<(YamlTree, YamlTree)>, n: int, e: Seq<char>)
    requires
        0 <= n <= s.len(),
        dict_to_json(s.subrange(0, n)) == Err::<Seq<(Seq<char>, JsonV)>, Seq<char>>(e),
    ensures
        dict_to_json(s) == Err::<Seq<(Seq<char>, JsonV)>, Seq<char>>(e),
    decreases s.len() - n,
{
    if n < s.len() {
        assert(s.subrange(0, n + 1).drop_last() =~= s.subrange(0, n));
        lemma_dict_error_persists(s, n + 1, e);
    } else {
        assert(s.subrange(0, n) =~= s);
    }
}

} // verus!
