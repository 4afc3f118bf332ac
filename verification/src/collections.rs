//! The engine's hash map, as the truss graph uses it: keyed by `u32` ids.
//!
//! The map type is `bevy_platform::collections::HashMap`, a new-type around
//! `hashbrown::HashMap` with a fixed hasher. Every function in this file is
//! trusted: its body calls one method of that map and its contract states
//! what that method does to the map's contents.

use bevy_platform::collections::HashMap;
use bevy_platform::hash::FixedHasher;
use vstd::prelude::*;

use crate::sim::graph::{Beam, Node};

verus! {

#[verifier::external_type_specification]
#[verifier::external_body]
#[verifier::reject_recursive_types(K)]
#[verifier::reject_recursive_types(V)]
#[verifier::reject_recursive_types(S)]
pub struct ExHashMap<K, V, S>(HashMap<K, V, S>);

/// The map's default hasher; held inside every map, never looked into.
#[verifier::external_type_specification]
#[verifier::external_body]
pub struct ExFixedHasher(FixedHasher);

/// What a node table holds: node id to node.
pub uninterp spec fn node_table(m: HashMap<u32, Node>) -> Map<u32, Node>;

/// What a beam table holds: beam id to beam.
pub uninterp spec fn beam_table(m: HashMap<u32, Beam>) -> Map<u32, Beam>;

/// `s` lists every entry of `m` exactly once, in some order.
pub open spec fn lists_entries<V>(s: Seq<(u32, V)>, m: Map<u32, V>) -> bool {
    &&& forall|i: int, j: int| 0 <= i < j < s.len() ==> #[trigger] s[i].0 != #[trigger] s[j].0
    &&& forall|i: int| 0 <= i < s.len() ==> m.contains_key(#[trigger] s[i].0) && m[s[i].0] == s[i].1
    &&& forall|k: u32| m.contains_key(k) ==> exists|i: int| 0 <= i < s.len() && #[trigger] s[i].0 == k
}

/// `HashMap::new`: the new map is empty.
#[verifier::external_body]
pub(crate) fn node_table_new() -> (table: HashMap<u32, Node>)
    ensures
        node_table(table).dom().is_empty(),
{
    HashMap::new()
}

/// `HashMap::insert`: the key now maps to the value; the value it mapped to
/// before, if any, is returned.
#[verifier::external_body]
pub(crate) fn node_table_insert(m: &mut HashMap<u32, Node>, k: u32, v: Node) -> (prev: Option<Node>)
    ensures
        node_table(*final(m)) == node_table(*old(m)).insert(k, v),
        prev == node_table(*old(m)).get(k),
{
    m.insert(k, v)
}

/// `HashMap::remove`: the key is gone; the value it mapped to, if any, is
/// returned.
#[verifier::external_body]
pub(crate) fn node_table_remove(m: &mut HashMap<u32, Node>, k: u32) -> (prev: Option<Node>)
    ensures
        node_table(*final(m)) == node_table(*old(m)).remove(k),
        prev == node_table(*old(m)).get(k),
{
    m.remove(&k)
}

/// `HashMap::get`, with the found node copied out.
#[verifier::external_body]
pub(crate) fn node_table_get(m: &HashMap<u32, Node>, k: u32) -> (found: Option<Node>)
    ensures
        found == node_table(*m).get(k),
{
    m.get(&k).copied()
}

/// `HashMap::iter`, collected: every entry once, in the map's own order.
#[verifier::external_body]
pub(crate) fn node_table_entries(m: &HashMap<u32, Node>) -> (entries: Vec<(u32, Node)>)
    ensures
        lists_entries(entries@, node_table(*m)),
{
    m.iter().map(|(k, v)| (*k, *v)).collect()
}

/// `HashMap::new`: the new map is empty.
#[verifier::external_body]
pub(crate) fn beam_table_new() -> (table: HashMap<u32, Beam>)
    ensures
        beam_table(table).dom().is_empty(),
{
    HashMap::new()
}

/// `HashMap::insert`: the key now maps to the value; the value it mapped to
/// before, if any, is returned.
#[verifier::external_body]
pub(crate) fn beam_table_insert(m: &mut HashMap<u32, Beam>, k: u32, v: Beam) -> (prev: Option<Beam>)
    ensures
        beam_table(*final(m)) == beam_table(*old(m)).insert(k, v),
        prev == beam_table(*old(m)).get(k),
{
    m.insert(k, v)
}

/// `HashMap::remove`: the key is gone; the value it mapped to, if any, is
/// returned.
#[verifier::external_body]
pub(crate) fn beam_table_remove(m: &mut HashMap<u32, Beam>, k: u32) -> (prev: Option<Beam>)
    ensures
        beam_table(*final(m)) == beam_table(*old(m)).remove(k),
        prev == beam_table(*old(m)).get(k),
{
    m.remove(&k)
}

/// `HashMap::iter`, collected: every entry once, in the map's own order.
#[verifier::external_body]
pub(crate) fn beam_table_entries(m: &HashMap<u32, Beam>) -> (entries: Vec<(u32, Beam)>)
    ensures
        lists_entries(entries@, beam_table(*m)),
{
    m.iter().map(|(k, v)| (*k, *v)).collect()
}

/// `HashMap::drain`, collected: every entry once, and the map is left empty.
#[verifier::external_body]
pub(crate) fn beam_table_drain(m: &mut HashMap<u32, Beam>) -> (entries: Vec<(u32, Beam)>)
    ensures
        lists_entries(entries@, beam_table(*old(m))),
        beam_table(*final(m)).dom().is_empty(),
{
    m.drain().collect()
}

/// `HashMap::is_empty`.
#[verifier::external_body]
pub(crate) fn beam_table_is_empty(m: &HashMap<u32, Beam>) -> (empty: bool)
    ensures
        empty == beam_table(*m).dom().is_empty(),
{
    m.is_empty()
}

} // verus!
