//! The insertion-ordered maps of a flow definition, read as sequences of
//! entries.
use crate::flow::types::{FlowInput, FlowInputModel};
use crate::json::{Json, JsonValue};
use vstd::prelude::*;

verus! {

/// `indexmap::IndexMap`: a map that keeps its entries in insertion order.
#[verifier::external_type_specification]
#[verifier::external_body]
#[verifier::reject_recursive_types(K)]
#[verifier::reject_recursive_types(V)]
#[verifier::reject_recursive_types(S)]
pub struct ExIndexMap<K, V, S>(indexmap::IndexMap<K, V, S>);

/// The entries of a map of JSON values, in the map's order.
pub uninterp spec fn value_entries(m: indexmap::IndexMap<String, JsonValue>) -> Seq<(Seq<char>, Json)>;

/// The entries of a map of flow inputs, in the map's order.
pub uninterp spec fn input_entries(m: indexmap::IndexMap<String, FlowInput>) -> Seq<
    (Seq<char>, FlowInputModel),
>;

/// The entries of a map of texts, in the map's order.
pub uninterp spec fn text_entries(m: indexmap::IndexMap<String, String>) -> Seq<
    (Seq<char>, Seq<char>),
>;

/// Entries after `key` was set to `value`: in place where the key is there,
/// else at the end.
pub open spec fn put_entry(
    entries: Seq<(Seq<char>, Json)>,
    key: Seq<char>,
    value: Json,
) -> Seq<(Seq<char>, Json)>
    decreases entries.len(),
{
    if entries.len() == 0 {
        seq![(key, value)]
    } else if entries[0].0 == key {
        seq![(key, value)] + entries.drop_first()
    } else {
        seq![entries[0]] + put_entry(entries.drop_first(), key, value)
    }
}

/// `IndexMap::new`: a map without entries.
#[verifier::external_body]
pub(crate) fn new_value_map() -> (r: indexmap::IndexMap<String, JsonValue>)
    ensures
        value_entries(r) == Seq::<(Seq<char>, Json)>::empty(),
{
    indexmap::IndexMap::new()
}

/// `IndexMap::insert`: an equal key keeps its place and gets the new value; a
/// new key goes to the end.
#[verifier::external_body]
pub(crate) fn put_value(m: &mut indexmap::IndexMap<String, JsonValue>, key: String, value: JsonValue)
    ensures
        value_entries(*final(m)) == put_entry(value_entries(*old(m)), key@, value@),
{
    m.insert(key, value);
}

/// `IndexMap::iter`, on JSON values: every entry once, in the map's order.
#[verifier::external_body]
pub(crate) fn list_values(m: &indexmap::IndexMap<String, JsonValue>) -> (r: Vec<(&String, &JsonValue)>)
    ensures
        r.deep_view() == value_entries(*m),
{
    m.iter().collect()
}

/// `IndexMap::iter`, on flow inputs: every entry once, in the map's order.
#[verifier::external_body]
pub(crate) fn list_inputs(m: &indexmap::IndexMap<String, FlowInput>) -> (r: Vec<
    (&String, &FlowInput),
>)
    ensures
        r.deep_view() == input_entries(*m),
{
    m.iter().collect()
}

/// `IndexMap::clone`, on JSON values: the same entries in the same order.
#[verifier::external_body]
pub(crate) fn copy_values(m: &indexmap::IndexMap<String, JsonValue>) -> (r: indexmap::IndexMap<
    String,
    JsonValue,
>)
    ensures
        value_entries(r) == value_entries(*m),
{
    m.clone()
}

/// `IndexMap::clone`, on flow inputs: the same entries in the same order.
#[verifier::external_body]
pub(crate) fn copy_inputs(m: &indexmap::IndexMap<String, FlowInput>) -> (r: indexmap::IndexMap<
    String,
    FlowInput,
>)
    ensures
        input_entries(r) == input_entries(*m),
{
    m.clone()
}

/// `IndexMap::clone`, on texts: the same entries in the same order.
#[verifier::external_body]
pub(crate) fn copy_texts(m: &indexmap::IndexMap<String, String>) -> (r: indexmap::IndexMap<
    String,
    String,
>)
    ensures
        text_entries(r) == text_entries(*m),
{
    m.clone()
}

} // verus!
