//! The slot maps that hold nodes, edges and adjacency lists. Keys cross into
//! the library as the 64 bits that `KeyData::as_ffi` gives.
use vstd::prelude::*;
use slotmap::{DefaultKey, Key, KeyData, SecondaryMap, SlotMap};
use crate::graph::{Adjlist, Edge, Node};

verus! {

/// The slot index held in the low half of a key's bits.
pub open spec fn slot_of(k: u64) -> u64 {
    k & 0xffff_ffffu64
}

/// Bits that `KeyData::from_ffi` turns back into the same key: an odd
/// (occupied) version in the high half and a slot index that is not the
/// null key's.
pub open spec fn key_ok(k: u64) -> bool {
    (k >> 32u64) % 2 == 1 && slot_of(k) < 0xffff_ffffu64
}

pub fn is_key_ok(k: u64) -> (r: bool)
    ensures
        r == key_ok(k),
{
    (k >> 32u64) % 2 == 1 && (k & 0xffff_ffffu64) < 0xffff_ffffu64
}

/// Most values a slot map holds before `insert` panics.
pub const SLOTS_MAX: usize = 4294967293;

/// Nodes under their keys. Verus does not take `SlotMap`'s declaration (its
/// key bound is an outside trait), so the map is held in a field it does not see.
#[verifier::external_body]
pub struct NodeSlots {
    inner: SlotMap<DefaultKey, Node>,
}

/// Edges under their keys.
#[verifier::external_body]
pub struct EdgeSlots {
    inner: SlotMap<DefaultKey, Edge>,
}

/// Adjacency lists under the keys of their nodes.
#[verifier::external_body]
pub struct AdjSlots {
    inner: SecondaryMap<DefaultKey, Adjlist>,
}

/// The live keys of a node slot map, with their values.
pub uninterp spec fn node_slots(m: NodeSlots) -> Map<u64, Node>;

/// The live keys of an edge slot map, with their values.
pub uninterp spec fn edge_slots(m: EdgeSlots) -> Map<u64, Edge>;

/// The keys of the adjacency secondary map, with their values.
pub uninterp spec fn adj_slots(m: AdjSlots) -> Map<u64, Adjlist>;

/// Keys of a slot map: finitely many, each well formed, and no two in one slot.
pub open spec fn keys_wf<V>(m: Map<u64, V>) -> bool {
    &&& m.dom().finite()
    &&& forall|k: u64| m.dom().contains(k) ==> key_ok(k)
    &&& forall|a: u64, b: u64|
        m.dom().contains(a) && m.dom().contains(b) && slot_of(a) == slot_of(b) ==> a == b
}

/// Relies on `SlotMap::new`: the map starts empty.
#[verifier::external_body]
pub fn node_slots_new() -> (r: NodeSlots)
    ensures
        node_slots(r).dom() == Set::<u64>::empty(),
{
    NodeSlots { inner: SlotMap::new() }
}

/// Relies on `SlotMap::insert`: the value goes in under a key that was not
/// live, in a slot no live key uses, with an odd version.
#[verifier::external_body]
pub fn node_slots_insert(m: &mut NodeSlots, v: Node) -> (r: u64)
    requires
        node_slots(*old(m)).dom().finite(),
        node_slots(*old(m)).dom().len() <= SLOTS_MAX,
    ensures
        key_ok(r),
        !node_slots(*old(m)).dom().contains(r),
        forall|k: u64| node_slots(*old(m)).dom().contains(k) ==> slot_of(k) != slot_of(r),
        node_slots(*final(m)) == node_slots(*old(m)).insert(r, v),
{
    m.inner.insert(v).data().as_ffi()
}

/// Relies on `SlotMap::remove`: the key's value, if it is live, leaves.
#[verifier::external_body]
pub fn node_slots_remove(m: &mut NodeSlots, k: u64) -> (r: Option<Node>)
    requires
        key_ok(k),
    ensures
        r == node_slots(*old(m)).get(k),
        node_slots(*final(m)) == node_slots(*old(m)).remove(k),
{
    m.inner.remove(DefaultKey::from(KeyData::from_ffi(k)))
}

/// Relies on `SlotMap::get`: the value under a live key.
#[verifier::external_body]
pub fn node_slots_get(m: &NodeSlots, k: u64) -> (r: Option<Node>)
    requires
        key_ok(k),
    ensures
        r == node_slots(*m).get(k),
{
    m.inner.get(DefaultKey::from(KeyData::from_ffi(k))).copied()
}

/// Relies on `IndexMut` of `SlotMap`: the value under a live key is replaced.
#[verifier::external_body]
pub fn node_slots_set(m: &mut NodeSlots, k: u64, v: Node)
    requires
        key_ok(k),
        node_slots(*old(m)).dom().contains(k),
    ensures
        node_slots(*final(m)) == node_slots(*old(m)).insert(k, v),
{
    m.inner[DefaultKey::from(KeyData::from_ffi(k))] = v;
}

/// Relies on `SlotMap::keys`: every live key once, in slot order.
#[verifier::external_body]
pub fn node_slots_keys(m: &NodeSlots) -> (r: Vec<u64>)
    ensures
        r@.no_duplicates(),
        forall|k: u64| r@.contains(k) <==> node_slots(*m).dom().contains(k),
{
    m.inner.keys().map(|k| k.data().as_ffi()).collect()
}

/// Relies on `SlotMap::len`: the number of live keys.
#[verifier::external_body]
pub fn node_slots_len(m: &NodeSlots) -> (r: usize)
    ensures
        r == node_slots(*m).dom().len(),
{
    m.inner.len()
}

/// Relies on `SlotMap::new`: the map starts empty.
#[verifier::external_body]
pub fn edge_slots_new() -> (r: EdgeSlots)
    ensures
        edge_slots(r).dom() == Set::<u64>::empty(),
{
    EdgeSlots { inner: SlotMap::new() }
}

/// Relies on `SlotMap::insert`: the value goes in under a key that was not
/// live, in a slot no live key uses, with an odd version.
#[verifier::external_body]
pub fn edge_slots_insert(m: &mut EdgeSlots, v: Edge) -> (r: u64)
    requires
        edge_slots(*old(m)).dom().finite(),
        edge_slots(*old(m)).dom().len() <= SLOTS_MAX,
    ensures
        key_ok(r),
        !edge_slots(*old(m)).dom().contains(r),
        forall|k: u64| edge_slots(*old(m)).dom().contains(k) ==> slot_of(k) != slot_of(r),
        edge_slots(*final(m)) == edge_slots(*old(m)).insert(r, v),
{
    m.inner.insert(v).data().as_ffi()
}

/// Relies on `SlotMap::remove`: the key's value, if it is live, leaves.
#[verifier::external_body]
pub fn edge_slots_remove(m: &mut EdgeSlots, k: u64) -> (r: Option<Edge>)
    requires
        key_ok(k),
    ensures
        r == edge_slots(*old(m)).get(k),
        edge_slots(*final(m)) == edge_slots(*old(m)).remove(k),
{
    m.inner.remove(DefaultKey::from(KeyData::from_ffi(k)))
}

/// Relies on `SlotMap::get`: the value under a live key.
#[verifier::external_body]
pub fn edge_slots_get(m: &EdgeSlots, k: u64) -> (r: Option<Edge>)
    requires
        key_ok(k),
    ensures
        r == edge_slots(*m).get(k),
{
    m.inner.get(DefaultKey::from(KeyData::from_ffi(k))).copied()
}

/// Relies on `SlotMap::keys`: every live key once, in slot order.
#[verifier::external_body]
pub fn edge_slots_keys(m: &EdgeSlots) -> (r: Vec<u64>)
    ensures
        r@.no_duplicates(),
        forall|k: u64| r@.contains(k) <==> edge_slots(*m).dom().contains(k),
{
    m.inner.keys().map(|k| k.data().as_ffi()).collect()
}

/// Relies on `SlotMap::len`: the number of live keys.
#[verifier::external_body]
pub fn edge_slots_len(m: &EdgeSlots) -> (r: usize)
    ensures
        r == edge_slots(*m).dom().len(),
{
    m.inner.len()
}

/// Relies on `SecondaryMap::new`: the map starts empty.
#[verifier::external_body]
pub fn adj_slots_new() -> (r: AdjSlots)
    ensures
        adj_slots(r).dom() == Set::<u64>::empty(),
{
    AdjSlots { inner: SecondaryMap::new() }
}

/// Relies on `SecondaryMap::insert`: a key whose slot holds no other key
/// gets the value, in place of what it held.
#[verifier::external_body]
pub fn adj_slots_insert(m: &mut AdjSlots, k: u64, v: Adjlist)
    requires
        key_ok(k),
        forall|j: u64| adj_slots(*old(m)).dom().contains(j) && slot_of(j) == slot_of(k) ==> j == k,
    ensures
        adj_slots(*final(m)) == adj_slots(*old(m)).insert(k, v),
{
    m.inner.insert(DefaultKey::from(KeyData::from_ffi(k)), v);
}

/// Relies on `SecondaryMap::remove`: the key's value, if it is there, leaves.
#[verifier::external_body]
pub fn adj_slots_remove(m: &mut AdjSlots, k: u64) -> (r: Option<Adjlist>)
    requires
        key_ok(k),
    ensures
        r == adj_slots(*old(m)).get(k),
        adj_slots(*final(m)) == adj_slots(*old(m)).remove(k),
{
    m.inner.remove(DefaultKey::from(KeyData::from_ffi(k)))
}

/// Relies on `SecondaryMap::get`: a copy of the value under the key.
#[verifier::external_body]
pub fn adj_slots_get(m: &AdjSlots, k: u64) -> (r: Option<Adjlist>)
    requires
        key_ok(k),
    ensures
        r == adj_slots(*m).get(k),
{
    m.inner.get(DefaultKey::from(KeyData::from_ffi(k))).cloned()
}

} // verus!
