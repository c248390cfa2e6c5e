//! The bridge to `serde_json`, which decodes and encodes the JSON text.
//!
//! Whatever this crate states of `serde_json` is stated here and is taken on
//! trust; everything else is proved from it. `serde_json` is built with
//! `preserve_order`: an object keeps its members in the order in which they
//! were put into it.

use crate::json::{
    distinct_keys, item_models, lemma_array_view, lemma_object_view, member_models, JsonModel,
    JsonValue, Members,
};
use vstd::prelude::*;

verus! {

/// A decoded document as `serde_json` holds it.
#[verifier::external_type_specification]
#[verifier::external_body]
pub struct ExValue(serde_json::Value);

/// The failure that `serde_json` reports.
#[verifier::external_type_specification]
#[verifier::external_body]
pub struct ExError(serde_json::Error);

/// The tree that a `serde_json::Value` holds, its objects' members in the
/// order in which the value iterates over them.
pub uninterp spec fn tree_of(value: serde_json::Value) -> JsonModel;

/// The message that a `serde_json::Error` displays.
pub uninterp spec fn message_of(error: serde_json::Error) -> Seq<char>;

/// What `serde_json::from_str` makes of a text: the document it denotes, or
/// the message of the failure.
pub uninterp spec fn decoded(text: Seq<char>) -> Result<JsonModel, Seq<char>>;

/// What `serde_json::to_string_pretty` makes of a tree: the text that it
/// writes, on several indented lines, or the message of the failure.
pub uninterp spec fn pretty_text(tree: JsonModel) -> Result<Seq<char>, Seq<char>>;

/// What `serde_json::to_string` makes of a tree: the text that it writes, on
/// one line, or the message of the failure.
pub uninterp spec fn compact_text(tree: JsonModel) -> Result<Seq<char>, Seq<char>>;

/// One level of a `serde_json::Value`: its variant, with what the variant
/// holds.
enum Parts {
    Null,
    Bool(bool),
    Number(serde_json::Number),
    String(String),
    Array(Vec<serde_json::Value>),
    Object(Vec<(String, serde_json::Value)>),
}

/// The trees of `items`, in order.
spec fn item_trees(items: Seq<serde_json::Value>) -> Seq<JsonModel> {
    Seq::new(items.len(), |i: int| tree_of(items[i]))
}

/// The keys and trees of `members`, in order.
spec fn member_trees(members: Seq<(String, serde_json::Value)>) -> Members {
    Seq::new(members.len(), |i: int| (members[i].0@, tree_of(members[i].1)))
}

/// The tree that the parts make up.
spec fn parts_tree(parts: Parts) -> JsonModel {
    match parts {
        Parts::Null => JsonModel::Null,
        Parts::Bool(b) => JsonModel::Bool(b),
        Parts::Number(n) => JsonModel::Number(n),
        Parts::String(s) => JsonModel::String(s@),
        Parts::Array(items) => JsonModel::Array(item_trees(items@)),
        Parts::Object(members) => JsonModel::Object(member_trees(members@)),
    }
}

/// Where the parts are those of an object, no two members share a key.
spec fn parts_keys_distinct(parts: Parts) -> bool {
    parts matches Parts::Object(members) ==> distinct_keys(member_trees(members@))
}

/// `serde_json::from_str`, reading a `Value`: the result is what `decoded`
/// names for the text.
#[verifier::external_body]
pub(crate) fn decode(text: &str) -> (outcome: Result<serde_json::Value, serde_json::Error>)
    ensures
        match outcome {
            Ok(value) => decoded(text@) == Ok::<JsonModel, Seq<char>>(tree_of(value)),
            Err(error) => decoded(text@) == Err::<JsonModel, Seq<char>>(message_of(error)),
        },
{
    serde_json::from_str::<serde_json::Value>(text)
}

/// Takes a `serde_json::Value` apart, one level deep: each variant gives the
/// part of the same name, holding what the variant held. A `serde_json::Map`
/// hands out its members in its own order, each key once.
#[verifier::external_body]
fn unpack(value: serde_json::Value) -> (parts: Parts)
    ensures
        parts_tree(parts) == tree_of(value),
        parts_keys_distinct(parts),
{
    match value {
        serde_json::Value::Null => Parts::Null,
        serde_json::Value::Bool(b) => Parts::Bool(b),
        serde_json::Value::Number(n) => Parts::Number(n),
        serde_json::Value::String(s) => Parts::String(s),
        serde_json::Value::Array(items) => Parts::Array(items),
        serde_json::Value::Object(map) => Parts::Object(map.into_iter().collect()),
    }
}

/// Puts a `serde_json::Value` together, one level deep: each part gives the
/// variant of the same name, holding what the part held. A `serde_json::Map`
/// collected from members no two of which share a key holds them in the
/// order given.
#[verifier::external_body]
fn pack(parts: Parts) -> (value: serde_json::Value)
    requires
        parts_keys_distinct(parts),
    ensures
        tree_of(value) == parts_tree(parts),
{
    match parts {
        Parts::Null => serde_json::Value::Null,
        Parts::Bool(b) => serde_json::Value::Bool(b),
        Parts::Number(n) => serde_json::Value::Number(n),
        Parts::String(s) => serde_json::Value::String(s),
        Parts::Array(items) => serde_json::Value::Array(items),
        Parts::Object(members) => serde_json::Value::Object(members.into_iter().collect()),
    }
}

/// `serde_json::to_string_pretty` on a `Value`: the result is what
/// `pretty_text` names for the value's tree.
#[verifier::external_body]
pub(crate) fn encode_pretty(value: &serde_json::Value) -> (outcome: Result<
    String,
    serde_json::Error,
>)
    ensures
        match outcome {
            Ok(text) => pretty_text(tree_of(*value)) == Ok::<Seq<char>, Seq<char>>(text@),
            Err(error) => pretty_text(tree_of(*value)) == Err::<Seq<char>, Seq<char>>(
                message_of(error),
            ),
        },
{
    serde_json::to_string_pretty(value)
}

/// `serde_json::to_string` on a `Value`: the result is what `compact_text`
/// names for the value's tree.
#[verifier::external_body]
pub(crate) fn encode_compact(value: &serde_json::Value) -> (outcome: Result<
    String,
    serde_json::Error,
>)
    ensures
        match outcome {
            Ok(text) => compact_text(tree_of(*value)) == Ok::<Seq<char>, Seq<char>>(text@),
            Err(error) => compact_text(tree_of(*value)) == Err::<Seq<char>, Seq<char>>(
                message_of(error),
            ),
        },
{
    serde_json::to_string(value)
}

/// The `Display` text of a `serde_json::Error`.
#[verifier::external_body]
pub(crate) fn describe(error: &serde_json::Error) -> (message: String)
    ensures
        message@ == message_of(*error),
{
    error.to_string()
}

/// The value of this crate that holds the tree of `value`.
pub(crate) fn import(value: serde_json::Value) -> (out: JsonValue)
    ensures
        out@ == tree_of(value),
        out@.well_formed(),
    decreases tree_of(value),
{
    match unpack(value) {
        Parts::Null => JsonValue::Null,
        Parts::Bool(b) => JsonValue::Bool(b),
        Parts::Number(n) => JsonValue::Number(n),
        Parts::String(s) => JsonValue::String(s),
        Parts::Array(items) => {
            let ghost trees = item_trees(items@);
            let mut out: Vec<JsonValue> = Vec::new();
            for item in it: items
                invariant
                    tree_of(value) == JsonModel::Array(trees),
                    trees == item_trees(it.seq()),
                    out.len() == it.index(),
                    forall|i: int| 0 <= i < out.len() ==> (#[trigger] out[i])@ == trees[i],
                    forall|i: int| 0 <= i < out.len() ==> (#[trigger] out[i])@.well_formed(),
            {
                assert(tree_of(value)->Array_0 == trees);
                assert(decreases_to!(trees => trees[it.index() as int]));
                out.push(import(item));
            }
            proof {
                lemma_array_view(out);
                assert(item_models(out@) =~= trees);
            }
            JsonValue::Array(out)
        },
        Parts::Object(members) => {
            let ghost trees = member_trees(members@);
            let mut out: Vec<(String, JsonValue)> = Vec::new();
            for member in it: members
                invariant
                    tree_of(value) == JsonModel::Object(trees),
                    trees == member_trees(it.seq()),
                    out.len() == it.index(),
                    forall|i: int|
                        0 <= i < out.len() ==> (#[trigger] out[i]).0@ == trees[i].0 && out[i].1@
                            == trees[i].1,
                    forall|i: int| 0 <= i < out.len() ==> (#[trigger] out[i]).1@.well_formed(),
            {
                assert(tree_of(member.1) == trees[it.index() as int].1);
                assert(tree_of(value)->Object_0 == trees);
                let (key, inner) = member;
                out.push((key, import(inner)));
            }
            proof {
                lemma_object_view(out);
                assert(member_models(out@) =~= trees);
            }
            JsonValue::Object(out)
        },
    }
}

/// The `serde_json::Value` that holds the tree of `value`.
pub(crate) fn export(value: &JsonValue) -> (out: serde_json::Value)
    requires
        value@.well_formed(),
    ensures
        tree_of(out) == value@,
    decreases value,
{
    match value {
        JsonValue::Null => pack(Parts::Null),
        JsonValue::Bool(b) => pack(Parts::Bool(*b)),
        JsonValue::Number(n) => pack(Parts::Number(n.clone())),
        JsonValue::String(s) => pack(Parts::String(s.clone())),
        JsonValue::Array(items) => {
            proof {
                lemma_array_view(*items);
            }
            let mut out: Vec<serde_json::Value> = Vec::new();
            let mut at: usize = 0;
            while at < items.len()
                invariant
                    at <= items.len(),
                    out.len() == at,
                    *value == JsonValue::Array(*items),
                    value@ == JsonModel::Array(item_models(items@)),
                    value@.well_formed(),
                    forall|i: int| 0 <= i < at ==> tree_of(#[trigger] out[i]) == items[i]@,
                decreases items.len() - at,
            {
                assert(value@->Array_0[at as int] == items[at as int]@);
                out.push(export(&items[at]));
                at += 1;
            }
            assert(item_trees(out@) =~= item_models(items@));
            pack(Parts::Array(out))
        },
        JsonValue::Object(members) => {
            proof {
                lemma_object_view(*members);
            }
            let mut out: Vec<(String, serde_json::Value)> = Vec::new();
            let mut at: usize = 0;
            while at < members.len()
                invariant
                    at <= members.len(),
                    out.len() == at,
                    *value == JsonValue::Object(*members),
                    value@ == JsonModel::Object(member_models(members@)),
                    value@.well_formed(),
                    forall|i: int|
                        0 <= i < at ==> (#[trigger] out[i]).0@ == members[i].0@ && tree_of(out[i].1)
                            == members[i].1@,
                decreases members.len() - at,
            {
                assert(value@->Object_0[at as int].1 == members[at as int].1@);
                out.push((members[at].0.clone(), export(&members[at].1)));
                at += 1;
            }
            assert(member_trees(out@) =~= member_models(members@));
            pack(Parts::Object(out))
        },
    }
}

} // verus!
