//! Committing a drag: the beam from where the drag started to where it ended.

use vstd::prelude::*;

use crate::edit::history::{
    consistent, drop_nodes, lemma_ids_below_grow, lemma_pushed_ids_below,
    lemma_record, pushed, History, Op,
};
use crate::edit::snap::SnapResult;
use crate::entries::{
    all_absent, distinct_keys, insert_entries, keys_of, lemma_insert_entries, lemma_insert_then_remove,
    remove_entries,
};
use crate::sim::graph::{joined, joins, keeps_anchors, Beam, BeamId, Node, NodeId, NodeKind, TrussGraph};

verus! {

/// How many new nodes the end needs: one for a grid point, none for a node.
pub open spec fn new_nodes(s: SnapResult) -> nat {
    match s {
        SnapResult::Existing(..) => 0,
        SnapResult::Grid(..) => 1,
    }
}

/// The node the beam starts at, when `next` is the next node id.
pub open spec fn start_id(start: SnapResult, next: u32) -> NodeId {
    match start {
        SnapResult::Existing(id, _) => id,
        SnapResult::Grid(_) => next,
    }
}

/// The node the beam ends at, when `next` is the next node id.
pub open spec fn end_id(start: SnapResult, end: SnapResult, next: u32) -> NodeId {
    match end {
        SnapResult::Existing(id, _) => id,
        SnapResult::Grid(_) => (next + new_nodes(start)) as u32,
    }
}

/// The end is a grid point or a node of the graph, as snapping gives.
pub open spec fn on_graph(s: SnapResult, nodes: Map<NodeId, Node>) -> bool {
    match s {
        SnapResult::Existing(id, _) => nodes.contains_key(id),
        SnapResult::Grid(_) => true,
    }
}

/// The free nodes the drag creates, in order, when `next` is the next node id.
pub open spec fn created_by(start: SnapResult, end: SnapResult, next: u32) -> Seq<(NodeId, Node)> {
    let first = match start {
        SnapResult::Existing(..) => Seq::<(NodeId, Node)>::empty(),
        SnapResult::Grid(p) => seq![(next, Node { pos: p, kind: NodeKind::Free })],
    };
    let second = match end {
        SnapResult::Existing(..) => Seq::<(NodeId, Node)>::empty(),
        SnapResult::Grid(p) => seq![((next + new_nodes(start)) as u32, Node { pos: p, kind: NodeKind::Free })],
    };
    first + second
}

/// Commits a drag from `start` to `end`: each grid end becomes a new free
/// node, and a beam joins the two ends. When the beam is refused (both ends
/// the same node, or a beam already joins them) the new nodes are removed
/// again and nothing is recorded; otherwise the operation goes on the undo
/// stack. Returns the new beam's id. A drag with a grid end, between ends
/// that snapping gave, is never refused: a new node has no beam yet.
pub fn commit_beam(
    graph: &mut TrussGraph,
    history: &mut History,
    start: SnapResult,
    end: SnapResult,
) -> (r: Option<BeamId>)
    requires
        old(graph).next_node_id() + new_nodes(start) + new_nodes(end) <= u32::MAX,
        ({
            let a = start_id(start, old(graph).next_node_id());
            let b = end_id(start, end, old(graph).next_node_id());
            a != b && !joined(old(graph).beam_map(), a, b) ==> old(graph).next_beam_id() < u32::MAX
        }),
    ensures
        ({
            let n0 = old(graph).next_node_id();
            let a = start_id(start, n0);
            let b = end_id(start, end, n0);
            let created = created_by(start, end, n0);
            &&& final(graph).next_node_id() == n0 + new_nodes(start) + new_nodes(end)
            &&& r is None <==> (a == b || joined(old(graph).beam_map(), a, b))
            &&& r is None ==> {
                &&& final(graph).node_map() == remove_entries(insert_entries(old(graph).node_map(), created), created)
                &&& old(graph).wf() ==> final(graph).node_map() == old(graph).node_map()
                &&& final(graph).beam_map() == old(graph).beam_map()
                &&& final(graph).next_beam_id() == old(graph).next_beam_id()
                &&& *final(history) == *old(history)
            }
            &&& r matches Some(id) ==> {
                let op = final(history).undo_ops().last();
                &&& id == old(graph).next_beam_id()
                &&& final(graph).next_beam_id() == old(graph).next_beam_id() + 1
                &&& final(graph).node_map() == insert_entries(old(graph).node_map(), created)
                &&& final(graph).beam_map() == old(graph).beam_map().insert(id, Beam { a, b })
                &&& final(history).undo_ops() == pushed(old(history).undo_ops(), op)
                &&& final(history).redo_ops() == Seq::<Op>::empty()
                &&& op matches Op::AddBeam { beam_id, beam, created_nodes }
                &&& beam_id == id
                &&& beam == (Beam { a, b })
                &&& created_nodes@ == created
                &&& op.wf()
                &&& op.is_done_in(final(graph).node_map(), final(graph).beam_map())
                &&& old(graph).wf() && on_graph(start, old(graph).node_map()) && on_graph(end, old(graph).node_map())
                    ==> op.ids_below(final(graph).next_node_id(), final(graph).next_beam_id())
                &&& old(graph).wf() ==> op.undo_nodes(final(graph).node_map()) == old(graph).node_map()
                    && op.undo_beams(final(graph).beam_map()) == old(graph).beam_map()
            }
        }),
        old(graph).wf() && on_graph(start, old(graph).node_map()) && on_graph(end, old(graph).node_map())
            && new_nodes(start) + new_nodes(end) > 0 ==> r is Some,
        old(graph).wf() && (r is None || (on_graph(start, old(graph).node_map()) && on_graph(end, old(graph).node_map())))
            ==> final(graph).wf(),
        old(history).wf() ==> final(history).wf(),
        consistent(*old(graph), *old(history)) && (r is None || (on_graph(start, old(graph).node_map()) && on_graph(
            end,
            old(graph).node_map(),
        ))) ==> consistent(*final(graph), *final(history)),
        old(graph).wf() ==> keeps_anchors(old(graph).node_map(), final(graph).node_map()),
{
    let ghost g0 = *graph;
    let ghost h0 = *history;
    let ghost n0 = graph.next_node_id();
    let mut created: Vec<(NodeId, Node)> = Vec::with_capacity(2);
    let a = match start {
        SnapResult::Existing(id, _) => id,
        SnapResult::Grid(p) => {
            let id = graph.add_node(p, NodeKind::Free);
            created.push((id, Node { pos: p, kind: NodeKind::Free }));
            id
        },
    };
    let b = match end {
        SnapResult::Existing(id, _) => id,
        SnapResult::Grid(p) => {
            let id = graph.add_node(p, NodeKind::Free);
            created.push((id, Node { pos: p, kind: NodeKind::Free }));
            id
        },
    };
    proof {
        let c = created_by(start, end, n0);
        assert(created@ =~= c);
        assert(distinct_keys(c));
        assert(graph.node_map() =~= insert_entries(g0.node_map(), c)) by {
            reveal_with_fuel(insert_entries, 3);
            if c.len() == 2 {
                assert(c.drop_last().drop_last() =~= Seq::<(NodeId, Node)>::empty());
            } else if c.len() == 1 {
                assert(c.drop_last() =~= Seq::<(NodeId, Node)>::empty());
            }
        }
        lemma_insert_entries(g0.node_map(), c);
        if g0.wf() {
            assert forall|k: NodeId| #[trigger] g0.node_map().contains_key(k) implies !keys_of(c).contains(k) by {
                if keys_of(c).contains(k) {
                    let i = choose|i: int| 0 <= i < c.len() && #[trigger] c[i].0 == k;
                }
            }
        }
    }
    proof {
        if g0.wf() && on_graph(start, g0.node_map()) && on_graph(end, g0.node_map()) && new_nodes(start) + new_nodes(end) > 0 {
            let fresh = if new_nodes(start) > 0 { a } else { b };
            assert(a < n0 + 2 && b < n0 + 2);
            assert(fresh >= n0);
            assert(a != b);
            if joined(g0.beam_map(), a, b) {
                let k = choose|k: BeamId| g0.beam_map().contains_key(k) && #[trigger] joins(g0.beam_map()[k], a, b);
                assert(g0.beam_map()[k].a < n0 && g0.beam_map()[k].b < n0);
            }
        }
    }
    match graph.add_beam(a, b) {
        Some(beam_id) => {
            let op = Op::AddBeam { beam_id, beam: Beam { a, b }, created_nodes: created };
            proof {
                let c = created_by(start, end, n0);
                if g0.wf() {
                    assert(all_absent(g0.node_map(), c));
                    lemma_insert_then_remove(g0.node_map(), c);
                    assert(g0.beam_map().insert(beam_id, Beam { a, b }).remove(beam_id) =~= g0.beam_map());
                }
            }
            history.push(op);
            proof {
                let ops = history.undo_ops();
                assert(ops.last() == op);
                if consistent(g0, h0) && on_graph(start, g0.node_map()) && on_graph(end, g0.node_map()) {
                    lemma_record(h0.undo_ops(), op, g0.node_map(), g0.beam_map(), graph.node_map(), graph.beam_map());
                    lemma_ids_below_grow(h0.undo_ops(), g0.next_node_id(), g0.next_beam_id(), graph.next_node_id(), graph.next_beam_id());
                    lemma_pushed_ids_below(h0.undo_ops(), op, graph.next_node_id(), graph.next_beam_id());
                }
            }
            Some(beam_id)
        },
        None => {
            drop_nodes(graph, &created);
            proof {
                let c = created_by(start, end, n0);
                if g0.wf() {
                    assert(all_absent(g0.node_map(), c));
                    lemma_insert_then_remove(g0.node_map(), c);
                }
                if consistent(g0, h0) {
                    lemma_ids_below_grow(h0.undo_ops(), g0.next_node_id(), g0.next_beam_id(), graph.next_node_id(), graph.next_beam_id());
                    lemma_ids_below_grow(h0.redo_ops(), g0.next_node_id(), g0.next_beam_id(), graph.next_node_id(), graph.next_beam_id());
                }
            }
            None
        },
    }
}

} // verus!
