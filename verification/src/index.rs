//! The map from label sets to the slots that hold their values.
//!
//! Labels are looked up by a key of plain values, so that what the map takes
//! for equal is what the standard library's tuples, options, strings and
//! integers take for equal.
use indexmap::IndexMap;
use vstd::prelude::*;

verus! {

/// The values of a label set, as a key: the authority; the owner (by kind and
/// name) and the namespace of the destination, for an outbound request; the
/// status code and the gRPC status, for a response.
pub type LabelKey = (
    String,
    Option<(Option<(u8, String)>, Option<String>)>,
    Option<(u16, Option<u32>)>,
);

/// The value of a `LabelKey`.
pub type LabelKeyView = (
    Seq<char>,
    Option<(Option<(u8, Seq<char>)>, Option<Seq<char>>)>,
    Option<(u16, Option<u32>)>,
);

/// `indexmap::IndexMap`, a hash map that remembers the order in which its keys
/// were first inserted.
#[verifier::external_type_specification]
#[verifier::external_body]
#[verifier::reject_recursive_types(K)]
#[verifier::reject_recursive_types(V)]
#[verifier::reject_recursive_types(S)]
pub struct ExIndexMap<K, V, S>(IndexMap<K, V, S>);

/// The keys of an index and the slots they are mapped to, in the map's order.
pub uninterp spec fn slots_of(index: IndexMap<LabelKey, usize>) -> Seq<(LabelKeyView, usize)>;

/// Whether position `i` of `slots` holds `key`.
pub open spec fn holds_key(slots: Seq<(LabelKeyView, usize)>, i: int, key: LabelKeyView) -> bool {
    0 <= i < slots.len() && slots[i].0 == key
}

/// Calls `IndexMap::new`: a new map holds nothing.
#[verifier::external_body]
pub(crate) fn new_index() -> (index: IndexMap<LabelKey, usize>)
    ensures
        slots_of(index) == Seq::<(LabelKeyView, usize)>::empty(),
{
    IndexMap::new()
}

/// Calls `IndexMap::entry` and, on the entry, `Entry::or_insert`: a key that is
/// in the map keeps its slot and the map is unchanged; one that is not is
/// appended to the map's order with the slot `fresh`. The slot that the key
/// then has is returned.
#[verifier::external_body]
pub(crate) fn slot_or_insert(
    index: &mut IndexMap<LabelKey, usize>,
    key: LabelKey,
    fresh: usize,
) -> (slot: usize)
    ensures
        forall|i: int| #[trigger]
            holds_key(slots_of(*old(index)), i, key.deep_view()) ==> {
                &&& slot == slots_of(*old(index))[i].1
                &&& slots_of(*final(index)) == slots_of(*old(index))
            },
        (forall|i: int| !#[trigger] holds_key(slots_of(*old(index)), i, key.deep_view())) ==> {
            &&& slot == fresh
            &&& slots_of(*final(index)) == slots_of(*old(index)).push((key.deep_view(), fresh))
        },
{
    *index.entry(key).or_insert(fresh)
}

/// Calls `IndexMap::get`: the slot of a key that is in the map, and nothing
/// for one that is not.
#[verifier::external_body]
pub(crate) fn slot(index: &IndexMap<LabelKey, usize>, key: &LabelKey) -> (slot: Option<usize>)
    ensures
        forall|i: int| #[trigger]
            holds_key(slots_of(*index), i, key.deep_view()) ==> slot == Some(
                slots_of(*index)[i].1,
            ),
        (forall|i: int| !#[trigger] holds_key(slots_of(*index), i, key.deep_view())) ==> slot
            is None,
{
    index.get(key).copied()
}

/// Calls `IndexMap::iter`: the slots, in the map's order.
#[verifier::external_body]
pub(crate) fn slots_in_order(index: &IndexMap<LabelKey, usize>) -> (slots: Vec<usize>)
    ensures
        slots@.len() == slots_of(*index).len(),
        forall|i: int| 0 <= i < slots@.len() ==> #[trigger] slots@[i] == slots_of(*index)[i].1,
{
    index.iter().map(|entry| *entry.1).collect()
}

} // verus!
