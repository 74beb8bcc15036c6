//! A set of edges, kept in a hash set of plain keys.

use vstd::prelude::*;
use crate::graph::NodeSet;
use crate::side::{Edge, Side};

verus! {

/// The hash set of `bevy::utils` that holds the keys of the marked edges.
/// Verus does not look inside: what the set holds is `key_set_contents`.
#[verifier::external_body]
pub struct KeySet {
    inner: bevy::utils::HashSet<(u32, u32, u8)>,
}

/// The keys that a `KeySet` holds.
pub uninterp spec fn key_set_contents(set: KeySet) -> Set<(u32, u32, u8)>;

/// `HashSet::default` of `bevy::utils` (hashbrown): a set that holds nothing.
#[verifier::external_body]
fn key_set_new() -> (set: KeySet)
    ensures
        key_set_contents(set) == Set::<(u32, u32, u8)>::empty(),
{
    KeySet { inner: bevy::utils::HashSet::default() }
}

/// `HashSet::insert` of `bevy::utils` (hashbrown): the set then holds the key
/// besides what it held, and the result says whether the key was not in it
/// before.
#[verifier::external_body]
fn key_set_insert(set: &mut KeySet, key: (u32, u32, u8)) -> (fresh: bool)
    ensures
        key_set_contents(*final(set)) == key_set_contents(*old(set)).insert(key),
        fresh == !key_set_contents(*old(set)).contains(key),
{
    set.inner.insert(key)
}

/// `HashSet::contains` of `bevy::utils` (hashbrown): whether the set holds
/// the key.
#[verifier::external_body]
fn key_set_contains(set: &KeySet, key: &(u32, u32, u8)) -> (found: bool)
    ensures
        found == key_set_contents(*set).contains(*key),
{
    set.inner.contains(key)
}

/// The key under which an edge is kept: its column, its row and the place of
/// its side.
pub open spec fn edge_key(edge: Edge) -> (u32, u32, u8) {
    (edge.pos.x, edge.pos.y, edge.side.index() as u8)
}

/// Edges with the same key are the same edge.
pub proof fn lemma_edge_key_injective(a: Edge, b: Edge)
    requires
        edge_key(a) == edge_key(b),
    ensures
        a == b,
{
}

/// The key of an edge.
fn key_of(edge: &Edge) -> (key: (u32, u32, u8))
    ensures
        key == edge_key(*edge),
{
    let side: u8 = match edge.side {
        Side::Top => 0,
        Side::Right => 1,
        Side::Bottom => 2,
        Side::Left => 3,
    };
    (edge.pos.x, edge.pos.y, side)
}

/// The edges that a search has marked.
pub struct EdgeSet {
    keys: KeySet,
}

impl EdgeSet {
    /// A set with no edge in it.
    pub fn new() -> (set: EdgeSet)
        ensures
            set.marked() == Set::<Edge>::empty(),
    {
        let set = EdgeSet { keys: key_set_new() };
        assert(set.marked() =~= Set::<Edge>::empty());
        set
    }
}

impl NodeSet<Edge> for EdgeSet {
    closed spec fn marked(&self) -> Set<Edge> {
        Set::new(|edge: Edge| key_set_contents(self.keys).contains(edge_key(edge)))
    }

    fn insert(&mut self, node: &Edge) -> (fresh: bool) {
        let fresh = key_set_insert(&mut self.keys, key_of(node));
        proof {
            assert forall|edge: Edge|
                self.marked().contains(edge) <==> old(self).marked().insert(*node).contains(
                    edge,
                ) by {
                if edge_key(edge) == edge_key(*node) {
                    lemma_edge_key_injective(edge, *node);
                }
            }
            assert(self.marked() =~= old(self).marked().insert(*node));
        }
        fresh
    }

    fn contains(&self, node: &Edge) -> (found: bool) {
        key_set_contains(&self.keys, &key_of(node))
    }
}

} // verus!
