//! The canonical truss model: nodes joined by beams. The static solver and
//! the dynamic simulation both read it; only edit operations change it.

use bevy_platform::collections::HashMap;
use vstd::prelude::*;

use crate::collections::{
    beam_table, beam_table_drain, beam_table_entries, beam_table_insert, beam_table_is_empty,
    beam_table_new, beam_table_remove, lists_entries, node_table, node_table_entries,
    node_table_get, node_table_insert, node_table_new, node_table_remove,
};

verus! {

pub type NodeId = u32;

pub type BeamId = u32;

#[derive(Clone, Copy, Debug, PartialEq, Eq, Structural)]
pub enum NodeKind {
    /// A fixed support taken from the level.
    Anchor,
    /// A joint the player placed.
    Free,
}

/// A position in world units. Each coordinate is held as the bit pattern of
/// an `f32` (`f32::to_bits`); the library only stores, copies and compares
/// positions, it never computes with them.
#[derive(Clone, Copy, Debug, PartialEq, Eq, Structural)]
pub struct Pos {
    pub x_bits: u32,
    pub y_bits: u32,
}

#[derive(Clone, Copy, Debug, PartialEq, Eq, Structural)]
pub struct Node {
    pub pos: Pos,
    pub kind: NodeKind,
}

#[derive(Clone, Copy, Debug, PartialEq, Eq, Structural)]
pub struct Beam {
    pub a: NodeId,
    pub b: NodeId,
}

/// The beam joins `a` and `b`, in either direction.
pub open spec fn joins(beam: Beam, a: NodeId, b: NodeId) -> bool {
    (beam.a == a && beam.b == b) || (beam.a == b && beam.b == a)
}

/// Some beam of `beams` joins `a` and `b`.
pub open spec fn joined(beams: Map<BeamId, Beam>, a: NodeId, b: NodeId) -> bool {
    exists|k: BeamId| beams.contains_key(k) && #[trigger] joins(beams[k], a, b)
}

/// No beam joins a node to itself, and no two beams join the same two nodes.
pub open spec fn simple_beams(beams: Map<BeamId, Beam>) -> bool {
    &&& forall|k: BeamId| #[trigger] beams.contains_key(k) ==> beams[k].a != beams[k].b
    &&& forall|k1: BeamId, k2: BeamId|
        #![trigger beams.contains_key(k1), beams.contains_key(k2)]
        beams.contains_key(k1) && beams.contains_key(k2) && k1 != k2 ==> !joins(beams[k1], beams[k2].a, beams[k2].b)
}

/// The beams stay simple under every beam that `add_beam` accepts: one
/// between two different nodes that no beam joins yet, whatever id it is
/// stored under. Once it is in, its two nodes are joined in either order, so
/// the same beam, the other way round too, is refused afterwards.
pub proof fn law_accepted_beam_keeps_simple(beams: Map<BeamId, Beam>, id: BeamId, a: NodeId, b: NodeId)
    requires
        simple_beams(beams),
        a != b,
        !joined(beams, a, b),
    ensures
        simple_beams(beams.insert(id, Beam { a, b })),
        joined(beams.insert(id, Beam { a, b }), a, b),
        joined(beams.insert(id, Beam { a, b }), b, a),
{
    let r = beams.insert(id, Beam { a, b });
    assert forall|k1: BeamId, k2: BeamId|
        #![trigger r.contains_key(k1), r.contains_key(k2)]
        r.contains_key(k1) && r.contains_key(k2) && k1 != k2 implies !joins(r[k1], r[k2].a, r[k2].b) by {
        if k1 == id {
            assert(!joins(beams[k2], a, b));
        } else if k2 == id {
            assert(!joins(beams[k1], a, b));
        }
    }
    assert(joins(r[id], a, b));
    assert(joins(r[id], b, a));
}

/// Every anchor of `before` is in `after`, unchanged.
pub open spec fn keeps_anchors(before: Map<NodeId, Node>, after: Map<NodeId, Node>) -> bool {
    forall|k: NodeId| #[trigger] before.contains_key(k) && before[k].kind == NodeKind::Anchor
        ==> after.contains_key(k) && after[k] == before[k]
}

/// The beam has `id` as one of its ends.
pub open spec fn touches(beam: Beam, id: NodeId) -> bool {
    beam.a == id || beam.b == id
}

/// The ids of the beams that have `id` as one of their ends.
pub open spec fn beams_at(beams: Map<BeamId, Beam>, id: NodeId) -> Set<BeamId> {
    beams.dom().filter(|k: BeamId| touches(beams[k], id))
}

/// The anchors seeded from a level: the `i`-th position gets id `first + i`.
pub open spec fn anchor_nodes(first: u32, positions: Seq<Pos>) -> Map<NodeId, Node> {
    Map::new(
        |k: NodeId| first <= k < first + positions.len(),
        |k: NodeId| Node { pos: positions[k - first], kind: NodeKind::Anchor },
    )
}

/// Every node id, beam id and beam end in use is below the next id to hand
/// out: beams join only nodes whose ids were already handed out.
pub open spec fn ids_in_bounds(
    nodes: Map<NodeId, Node>,
    beams: Map<BeamId, Beam>,
    next_node: u32,
    next_beam: u32,
) -> bool {
    &&& forall|k: NodeId| #[trigger] nodes.contains_key(k) ==> k < next_node
    &&& forall|k: BeamId| #[trigger] beams.contains_key(k)
        ==> k < next_beam && beams[k].a < next_node && beams[k].b < next_node
}

/// The bounds stay met when the next ids do not go down, every node is an
/// old one or below the new next node id, and every beam is an old one,
/// unchanged, or has its id and its ends below the new next ids.
proof fn lemma_bounds_frame(
    nodes0: Map<NodeId, Node>,
    beams0: Map<BeamId, Beam>,
    next_node0: u32,
    next_beam0: u32,
    nodes1: Map<NodeId, Node>,
    beams1: Map<BeamId, Beam>,
    next_node1: u32,
    next_beam1: u32,
)
    requires
        ids_in_bounds(nodes0, beams0, next_node0, next_beam0),
        next_node0 <= next_node1,
        next_beam0 <= next_beam1,
        forall|k: NodeId| #[trigger] nodes1.contains_key(k) ==> nodes0.contains_key(k) || k < next_node1,
        forall|k: BeamId| #[trigger] beams1.contains_key(k) ==> (beams0.contains_key(k) && beams1[k] == beams0[k])
            || (k < next_beam1 && beams1[k].a < next_node1 && beams1[k].b < next_node1),
    ensures
        ids_in_bounds(nodes1, beams1, next_node1, next_beam1),
{
}

/// Seeding anchors gives the `i`-th position, and no other, to the id
/// `first + i`, as an anchor; ids outside that run get nothing.
pub proof fn law_anchor_nodes(first: u32, positions: Seq<Pos>)
    requires
        first + positions.len() <= u32::MAX,
    ensures
        forall|i: int| 0 <= i < positions.len() ==> {
            &&& #[trigger] anchor_nodes(first, positions).contains_key((first + i) as u32)
            &&& anchor_nodes(first, positions)[(first + i) as u32].pos == positions[i]
            &&& anchor_nodes(first, positions)[(first + i) as u32].kind == NodeKind::Anchor
        },
        forall|k: NodeId| #[trigger] anchor_nodes(first, positions).contains_key(k)
            ==> first <= k && k - first < positions.len(),
        anchor_nodes(first, positions).dom().finite(),
        anchor_nodes(first, positions).dom().len() == positions.len(),
{
    let m = anchor_nodes(first, positions);
    assert forall|i: int| 0 <= i < positions.len() implies {
        &&& #[trigger] m.contains_key((first + i) as u32)
        &&& m[(first + i) as u32].pos == positions[i]
        &&& m[(first + i) as u32].kind == NodeKind::Anchor
    } by {
        let k = (first + i) as u32;
        assert(k - first == i);
    }
    let ids = Seq::new(positions.len(), |i: int| (first + i) as u32);
    assert(ids.no_duplicates());
    assert(ids.to_set() =~= m.dom()) by {
        assert forall|k: NodeId| m.dom().contains(k) implies ids.to_set().contains(k) by {
            let i = k - first;
            assert(ids[i] == k);
        }
    }
    ids.unique_seq_to_set();
    vstd::seq_lib::seq_to_set_is_finite(ids);
}

/// Canonical truss model. The next ids only grow, so an id is never handed
/// out twice.
#[derive(Debug)]
pub struct TrussGraph {
    pub nodes: HashMap<NodeId, Node>,
    pub beams: HashMap<BeamId, Beam>,
    next_node: u32,
    next_beam: u32,
}

impl TrussGraph {
    /// The nodes, by id.
    pub closed spec fn node_map(&self) -> Map<NodeId, Node> {
        node_table(self.nodes)
    }

    /// The beams, by id.
    pub closed spec fn beam_map(&self) -> Map<BeamId, Beam> {
        beam_table(self.beams)
    }

    /// The id that the next added node gets.
    pub closed spec fn next_node_id(&self) -> u32 {
        self.next_node
    }

    /// The id that the next added beam gets.
    pub closed spec fn next_beam_id(&self) -> u32 {
        self.next_beam
    }

    /// The ids that the next added node and the next added beam get.
    pub fn next_ids(&self) -> (r: (u32, u32))
        ensures
            r == (self.next_node_id(), self.next_beam_id()),
    {
        (self.next_node, self.next_beam)
    }

    /// Every id in use, and every beam end, is below the next id to hand out.
    pub open spec fn wf(&self) -> bool {
        ids_in_bounds(self.node_map(), self.beam_map(), self.next_node_id(), self.next_beam_id())
    }

    pub fn new() -> (g: Self)
        ensures
            g.node_map() == Map::<NodeId, Node>::empty(),
            g.beam_map() == Map::<BeamId, Beam>::empty(),
            g.next_node_id() == 0,
            g.next_beam_id() == 0,
            g.wf(),
    {
        TrussGraph { nodes: node_table_new(), beams: beam_table_new(), next_node: 0, next_beam: 0 }
    }

    /// Adds a node under a fresh id and returns that id.
    pub fn add_node(&mut self, pos: Pos, kind: NodeKind) -> (id: NodeId)
        requires
            old(self).next_node_id() < u32::MAX,
        ensures
            id == old(self).next_node_id(),
            final(self).next_node_id() == old(self).next_node_id() + 1,
            final(self).next_beam_id() == old(self).next_beam_id(),
            final(self).node_map() == old(self).node_map().insert(id, Node { pos, kind }),
            final(self).beam_map() == old(self).beam_map(),
            old(self).wf() ==> !old(self).node_map().contains_key(id),
            old(self).wf() ==> final(self).wf(),
    {
        let id = self.next_node;
        self.next_node = self.next_node + 1;
        node_table_insert(&mut self.nodes, id, Node { pos, kind });
        proof {
            if old(self).wf() {
                lemma_bounds_frame(
                    old(self).node_map(), old(self).beam_map(), old(self).next_node_id(), old(self).next_beam_id(),
                    self.node_map(), self.beam_map(), self.next_node_id(), self.next_beam_id(),
                );
            }
        }
        id
    }

    /// Adds a beam from `a` to `b` under a fresh id. Refused (`None`) for a
    /// self-loop or when a beam already joins the two nodes, in either
    /// direction.
    pub fn add_beam(&mut self, a: NodeId, b: NodeId) -> (r: Option<BeamId>)
        requires
            a != b && !joined(old(self).beam_map(), a, b) ==> old(self).next_beam_id() < u32::MAX,
        ensures
            r is None <==> (a == b || joined(old(self).beam_map(), a, b)),
            r is None ==> *final(self) == *old(self),
            r matches Some(id) ==> {
                &&& id == old(self).next_beam_id()
                &&& final(self).next_beam_id() == old(self).next_beam_id() + 1
                &&& final(self).beam_map() == old(self).beam_map().insert(id, Beam { a, b })
                &&& old(self).wf() ==> !old(self).beam_map().contains_key(id)
            },
            final(self).node_map() == old(self).node_map(),
            final(self).next_node_id() == old(self).next_node_id(),
            old(self).wf() && a < old(self).next_node_id() && b < old(self).next_node_id() ==> final(self).wf(),
            simple_beams(old(self).beam_map()) ==> simple_beams(final(self).beam_map()),
    {
        if a == b {
            return None;
        }
        let entries = beam_table_entries(&self.beams);
        let ghost beams = self.beam_map();
        let mut i: usize = 0;
        while i < entries.len()
            invariant
                0 <= i <= entries.len(),
                lists_entries(entries@, beams),
                beams == old(self).beam_map(),
                *self == *old(self),
                forall|j: int| 0 <= j < i ==> !joins(#[trigger] entries@[j].1, a, b),
            decreases entries.len() - i,
        {
            if same_endpoints(entries[i].1, a, b) {
                assert(joins(beams[entries@[i as int].0], a, b));
                return None;
            }
            i = i + 1;
        }
        assert(!joined(beams, a, b)) by {
            if joined(beams, a, b) {
                let k = choose|k: BeamId| beams.contains_key(k) && #[trigger] joins(beams[k], a, b);
                let j = choose|j: int| 0 <= j < entries@.len() && #[trigger] entries@[j].0 == k;
                assert(joins(entries@[j].1, a, b));
            }
        }
        let id = self.next_beam;
        self.next_beam = self.next_beam + 1;
        beam_table_insert(&mut self.beams, id, Beam { a, b });
        assert(simple_beams(beams) ==> simple_beams(self.beam_map())) by {
            if simple_beams(beams) {
                let m = self.beam_map();
                assert forall|k1: BeamId, k2: BeamId|
                    m.contains_key(k1) && m.contains_key(k2) && k1 != k2 implies !joins(m[k1], m[k2].a, m[k2].b) by {
                    if k1 == id {
                        if joins(m[k1], m[k2].a, m[k2].b) {
                            assert(beams.contains_key(k2) && joins(beams[k2], a, b));
                        }
                    } else if k2 == id {
                        if joins(m[k1], a, b) {
                            assert(beams.contains_key(k1) && joins(beams[k1], a, b));
                        }
                    } else {
                        assert(beams.contains_key(k1) && beams.contains_key(k2));
                    }
                }
            }
        }
        proof {
            if old(self).wf() && a < old(self).next_node_id() && b < old(self).next_node_id() {
                lemma_bounds_frame(
                    old(self).node_map(), old(self).beam_map(), old(self).next_node_id(), old(self).next_beam_id(),
                    self.node_map(), self.beam_map(), self.next_node_id(), self.next_beam_id(),
                );
            }
        }
        Some(id)
    }

    /// Puts `node` under `id`, replacing what was there; the next ids are
    /// left alone. Undo and redo use it to restore nodes under their old ids.
    pub fn insert_node(&mut self, id: NodeId, node: Node)
        ensures
            final(self).node_map() == old(self).node_map().insert(id, node),
            final(self).beam_map() == old(self).beam_map(),
            final(self).next_node_id() == old(self).next_node_id(),
            final(self).next_beam_id() == old(self).next_beam_id(),
            old(self).wf() && id < old(self).next_node_id() ==> final(self).wf(),
    {
        node_table_insert(&mut self.nodes, id, node);
        proof {
            if old(self).wf() && id < old(self).next_node_id() {
                lemma_bounds_frame(
                    old(self).node_map(), old(self).beam_map(), old(self).next_node_id(), old(self).next_beam_id(),
                    self.node_map(), self.beam_map(), self.next_node_id(), self.next_beam_id(),
                );
            }
        }
    }

    /// Puts `beam` under `id`, replacing what was there; the next ids are
    /// left alone. Undo and redo use it to restore beams under their old ids.
    pub fn insert_beam(&mut self, id: BeamId, beam: Beam)
        ensures
            final(self).beam_map() == old(self).beam_map().insert(id, beam),
            final(self).node_map() == old(self).node_map(),
            final(self).next_node_id() == old(self).next_node_id(),
            final(self).next_beam_id() == old(self).next_beam_id(),
            old(self).wf() && id < old(self).next_beam_id() && beam.a < old(self).next_node_id()
                && beam.b < old(self).next_node_id() ==> final(self).wf(),
    {
        beam_table_insert(&mut self.beams, id, beam);
        proof {
            if old(self).wf() && id < old(self).next_beam_id() && beam.a < old(self).next_node_id()
                && beam.b < old(self).next_node_id() {
                lemma_bounds_frame(
                    old(self).node_map(), old(self).beam_map(), old(self).next_node_id(), old(self).next_beam_id(),
                    self.node_map(), self.beam_map(), self.next_node_id(), self.next_beam_id(),
                );
            }
        }
    }

    pub fn remove_beam(&mut self, id: BeamId) -> (r: Option<Beam>)
        ensures
            r == old(self).beam_map().get(id),
            final(self).beam_map() == old(self).beam_map().remove(id),
            final(self).node_map() == old(self).node_map(),
            final(self).next_node_id() == old(self).next_node_id(),
            final(self).next_beam_id() == old(self).next_beam_id(),
            old(self).wf() ==> final(self).wf(),
    {
        let r = beam_table_remove(&mut self.beams, id);
        proof {
            if old(self).wf() {
                lemma_bounds_frame(
                    old(self).node_map(), old(self).beam_map(), old(self).next_node_id(), old(self).next_beam_id(),
                    self.node_map(), self.beam_map(), self.next_node_id(), self.next_beam_id(),
                );
            }
        }
        r
    }

    pub fn remove_node(&mut self, id: NodeId) -> (r: Option<Node>)
        ensures
            r == old(self).node_map().get(id),
            final(self).node_map() == old(self).node_map().remove(id),
            final(self).beam_map() == old(self).beam_map(),
            final(self).next_node_id() == old(self).next_node_id(),
            final(self).next_beam_id() == old(self).next_beam_id(),
            old(self).wf() ==> final(self).wf(),
    {
        let r = node_table_remove(&mut self.nodes, id);
        proof {
            if old(self).wf() {
                lemma_bounds_frame(
                    old(self).node_map(), old(self).beam_map(), old(self).next_node_id(), old(self).next_beam_id(),
                    self.node_map(), self.beam_map(), self.next_node_id(), self.next_beam_id(),
                );
            }
        }
        r
    }

    /// Adds one anchor node per position, in order, under consecutive fresh
    /// ids.
    pub fn seed_anchors(&mut self, positions: &Vec<Pos>)
        requires
            old(self).next_node_id() + positions.len() <= u32::MAX,
        ensures
            final(self).next_node_id() == old(self).next_node_id() + positions.len(),
            final(self).node_map() == old(self).node_map().union_prefer_right(
                anchor_nodes(old(self).next_node_id(), positions@),
            ),
            forall|i: int| 0 <= i < positions.len() ==> {
                &&& #[trigger] final(self).node_map().contains_key((old(self).next_node_id() + i) as u32)
                &&& final(self).node_map()[(old(self).next_node_id() + i) as u32] == (Node {
                    pos: positions@[i],
                    kind: NodeKind::Anchor,
                })
            },
            forall|k: NodeId| #[trigger] final(self).node_map().contains_key(k) && !old(self).node_map().contains_key(k)
                ==> old(self).next_node_id() <= k < final(self).next_node_id(),
            final(self).beam_map() == old(self).beam_map(),
            final(self).next_beam_id() == old(self).next_beam_id(),
            old(self).wf() ==> final(self).wf(),
    {
        let ghost first = self.next_node;
        let mut i: usize = 0;
        while i < positions.len()
            invariant
                0 <= i <= positions.len(),
                first == old(self).next_node_id(),
                first + positions.len() <= u32::MAX,
                self.next_node_id() == first + i,
                self.node_map() == old(self).node_map().union_prefer_right(
                    anchor_nodes(first, positions@.take(i as int)),
                ),
                self.beam_map() == old(self).beam_map(),
                self.next_beam_id() == old(self).next_beam_id(),
                old(self).wf() ==> self.wf(),
            decreases positions.len() - i,
        {
            let id = self.add_node(positions[i], NodeKind::Anchor);
            i = i + 1;
            assert(self.node_map() =~= old(self).node_map().union_prefer_right(
                anchor_nodes(first, positions@.take(i as int)),
            ));
        }
        assert(positions@.take(i as int) =~= positions@);
        proof {
            law_anchor_nodes(first, positions@);
        }
    }

    /// The node under `id`, if any.
    pub fn node(&self, id: NodeId) -> (r: Option<Node>)
        ensures
            r == self.node_map().get(id),
    {
        node_table_get(&self.nodes, id)
    }

    /// Every node, once, in the table's own order.
    pub fn node_entries(&self) -> (entries: Vec<(NodeId, Node)>)
        ensures
            lists_entries(entries@, self.node_map()),
    {
        node_table_entries(&self.nodes)
    }

    /// Every beam, once, in the table's own order.
    pub fn beam_entries(&self) -> (entries: Vec<(BeamId, Beam)>)
        ensures
            lists_entries(entries@, self.beam_map()),
    {
        beam_table_entries(&self.beams)
    }

    pub fn has_no_beams(&self) -> (r: bool)
        ensures
            r == self.beam_map().dom().is_empty(),
    {
        beam_table_is_empty(&self.beams)
    }

    /// Removes every beam and hands them out, each once.
    pub fn take_beams(&mut self) -> (taken: Vec<(BeamId, Beam)>)
        ensures
            lists_entries(taken@, old(self).beam_map()),
            final(self).beam_map() == Map::<BeamId, Beam>::empty(),
            final(self).node_map() == old(self).node_map(),
            final(self).next_node_id() == old(self).next_node_id(),
            final(self).next_beam_id() == old(self).next_beam_id(),
            old(self).wf() ==> final(self).wf(),
    {
        let taken = beam_table_drain(&mut self.beams);
        assert(self.beam_map() =~= Map::<BeamId, Beam>::empty());
        proof {
            if old(self).wf() {
                lemma_bounds_frame(
                    old(self).node_map(), old(self).beam_map(), old(self).next_node_id(), old(self).next_beam_id(),
                    self.node_map(), self.beam_map(), self.next_node_id(), self.next_beam_id(),
                );
            }
        }
        taken
    }

    pub fn node_pos(&self, id: NodeId) -> (r: Option<Pos>)
        ensures
            r == (match self.node_map().get(id) {
                Some(n) => Some(n.pos),
                None => None,
            }),
    {
        match node_table_get(&self.nodes, id) {
            Some(n) => Some(n.pos),
            None => None,
        }
    }

    /// Counts the beams attached to a node.
    pub fn beam_count_for(&self, id: NodeId) -> (count: usize)
        ensures
            count == beams_at(self.beam_map(), id).len(),
            count == 0 <==> forall|k: BeamId| #[trigger] self.beam_map().contains_key(k) ==> !touches(self.beam_map()[k], id),
    {
        let entries = beam_table_entries(&self.beams);
        let ghost beams = self.beam_map();
        let ghost mut seen: Set<BeamId> = Set::empty();
        let mut count: usize = 0;
        let mut i: usize = 0;
        while i < entries.len()
            invariant
                0 <= i <= entries.len(),
                lists_entries(entries@, beams),
                count <= i,
                seen.finite(),
                seen.len() == count,
                forall|k: BeamId| #[trigger] seen.contains(k) <==> exists|j: int| 0 <= j < i && #[trigger] entries@[j].0 == k && touches(entries@[j].1, id),
            decreases entries.len() - i,
        {
            let (k, beam) = entries[i];
            if beam.a == id || beam.b == id {
                assert(!seen.contains(k)) by {
                    if seen.contains(k) {
                        let j = choose|j: int| 0 <= j < i && #[trigger] entries@[j].0 == k && touches(entries@[j].1, id);
                        assert(entries@[j].0 != entries@[i as int].0);
                    }
                }
                proof {
                    seen = seen.insert(k);
                }
                count = count + 1;
            }
            i = i + 1;
            assert forall|k2: BeamId| #[trigger] seen.contains(k2) <==> exists|j: int| 0 <= j < i && #[trigger] entries@[j].0 == k2 && touches(entries@[j].1, id) by {
                if seen.contains(k2) && k2 == k && touches(beam, id) {
                    assert(entries@[i - 1].0 == k2);
                }
            }
        }
        assert(seen =~= beams_at(beams, id)) by {
            assert forall|k: BeamId| beams_at(beams, id).contains(k) implies seen.contains(k) by {
                let j = choose|j: int| 0 <= j < entries@.len() && #[trigger] entries@[j].0 == k;
                assert(entries@[j].1 == beams[k]);
            }
        }
        assert(count == 0 <==> forall|k: BeamId| #[trigger] beams.contains_key(k) ==> !touches(beams[k], id)) by {
            if count == 0 {
                assert forall|k: BeamId| #[trigger] beams.contains_key(k) implies !touches(beams[k], id) by {
                    if touches(beams[k], id) {
                        assert(beams_at(beams, id).contains(k));
                    }
                }
            } else {
                assert(seen.len() > 0);
                let k = seen.choose();
                assert(seen.contains(k));
                assert(beams_at(beams, id).contains(k));
            }
        }
        count
    }
}

impl Default for TrussGraph {
    fn default() -> (g: Self)
        ensures
            g.node_map() == Map::<NodeId, Node>::empty(),
            g.beam_map() == Map::<BeamId, Beam>::empty(),
            g.next_node_id() == 0,
            g.next_beam_id() == 0,
    {
        TrussGraph::new()
    }
}

/// The beam joins `a` and `b`, in either direction.
pub fn same_endpoints(beam: Beam, a: NodeId, b: NodeId) -> (r: bool)
    ensures
        r == joins(beam, a, b),
{
    (beam.a == a && beam.b == b) || (beam.a == b && beam.b == a)
}

} // verus!
