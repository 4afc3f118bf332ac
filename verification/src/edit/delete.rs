//! Deleting a beam, and with it the free nodes that no beam holds any more.

use vstd::prelude::*;

use crate::edit::history::{consistent, lemma_pushed_ids_below, lemma_record, pushed, History, Op};
use crate::entries::{
    all_present, distinct_keys, keys_of, lemma_remove_entries, lemma_remove_then_insert,
    lemma_removed_absent, remove_entries,
};
use crate::sim::graph::{keeps_anchors, touches, Beam, BeamId, Node, NodeId, NodeKind, TrussGraph};

verus! {

/// The node is a free node that no beam of `beams` ends at.
pub open spec fn is_orphan(nodes: Map<NodeId, Node>, beams: Map<BeamId, Beam>, id: NodeId) -> bool {
    &&& nodes.contains_key(id)
    &&& nodes[id].kind == NodeKind::Free
    &&& forall|k: BeamId| #[trigger] beams.contains_key(k) ==> !touches(beams[k], id)
}

/// The ends of the deleted `beam` that become orphans once the beam is gone
/// (`beams` is the beam table without it), first end first.
pub open spec fn orphaned_ends(nodes: Map<NodeId, Node>, beams: Map<BeamId, Beam>, beam: Beam) -> Seq<(NodeId, Node)> {
    let first = if is_orphan(nodes, beams, beam.a) {
        seq![(beam.a, nodes[beam.a])]
    } else {
        Seq::<(NodeId, Node)>::empty()
    };
    let second = if beam.b != beam.a && is_orphan(nodes, beams, beam.b) {
        seq![(beam.b, nodes[beam.b])]
    } else {
        Seq::<(NodeId, Node)>::empty()
    };
    first + second
}

/// The ends swept after deleting `beam` (`beams` being the beams left) are
/// exactly its ends that are free nodes no remaining beam has at either
/// end: each listed entry is such an end, with its node, and each such end
/// is listed, once.
pub proof fn law_orphaned_ends(nodes: Map<NodeId, Node>, beams: Map<BeamId, Beam>, beam: Beam)
    ensures
        forall|j: int| 0 <= j < orphaned_ends(nodes, beams, beam).len() ==> {
            let e = #[trigger] orphaned_ends(nodes, beams, beam)[j];
            &&& e.0 == beam.a || e.0 == beam.b
            &&& nodes.contains_key(e.0)
            &&& nodes[e.0] == e.1
            &&& e.1.kind == NodeKind::Free
            &&& forall|k: BeamId| #[trigger] beams.contains_key(k) ==> beams[k].a != e.0 && beams[k].b != e.0
        },
        forall|id: NodeId|
            (id == beam.a || id == beam.b) && nodes.contains_key(id) && nodes[id].kind == NodeKind::Free
                && (forall|k: BeamId| #[trigger] beams.contains_key(k) ==> beams[k].a != id && beams[k].b != id)
                ==> #[trigger] keys_of(orphaned_ends(nodes, beams, beam)).contains(id),
        distinct_keys(orphaned_ends(nodes, beams, beam)),
{
    let s = orphaned_ends(nodes, beams, beam);
    assert forall|j: int| 0 <= j < s.len() implies {
        let e = #[trigger] s[j];
        &&& e.0 == beam.a || e.0 == beam.b
        &&& nodes.contains_key(e.0)
        &&& nodes[e.0] == e.1
        &&& e.1.kind == NodeKind::Free
        &&& forall|k: BeamId| #[trigger] beams.contains_key(k) ==> beams[k].a != e.0 && beams[k].b != e.0
    } by {
        let e = s[j];
        assert(is_orphan(nodes, beams, e.0));
        assert forall|k: BeamId| #[trigger] beams.contains_key(k) implies beams[k].a != e.0 && beams[k].b != e.0 by {
            assert(!touches(beams[k], e.0));
        }
    }
    assert forall|id: NodeId|
        (id == beam.a || id == beam.b) && nodes.contains_key(id) && nodes[id].kind == NodeKind::Free
            && (forall|k: BeamId| #[trigger] beams.contains_key(k) ==> beams[k].a != id && beams[k].b != id)
        implies #[trigger] keys_of(s).contains(id) by {
        assert(is_orphan(nodes, beams, id));
        if id == beam.a {
            assert(s[0].0 == id);
        } else if beam.b != beam.a {
            assert(s[s.len() - 1].0 == id);
        }
    }
}

/// Removes the end's node when it is an orphan, and lists it in `removed`.
fn sweep_end(graph: &mut TrussGraph, end: NodeId, removed: &mut Vec<(NodeId, Node)>)
    ensures
        is_orphan(old(graph).node_map(), old(graph).beam_map(), end) ==> {
            &&& final(graph).node_map() == old(graph).node_map().remove(end)
            &&& final(removed)@ == old(removed)@.push((end, old(graph).node_map()[end]))
        },
        !is_orphan(old(graph).node_map(), old(graph).beam_map(), end) ==> {
            &&& final(graph).node_map() == old(graph).node_map()
            &&& final(removed)@ == old(removed)@
        },
        final(graph).beam_map() == old(graph).beam_map(),
        final(graph).next_node_id() == old(graph).next_node_id(),
        final(graph).next_beam_id() == old(graph).next_beam_id(),
        old(graph).wf() ==> final(graph).wf(),
{
    if let Some(node) = graph.node(end) {
        if node.kind == NodeKind::Free && graph.beam_count_for(end) == 0 {
            graph.remove_node(end);
            removed.push((end, node));
        }
    }
}

/// Deletes the beam `beam_id`, then each of its ends that is a free node no
/// other beam uses; the deletion goes on the undo stack. `None`, with
/// nothing changed, when there is no such beam.
pub fn delete_beam(graph: &mut TrussGraph, history: &mut History, beam_id: BeamId) -> (r: Option<Beam>)
    ensures
        r == old(graph).beam_map().get(beam_id),
        r is None ==> {
            &&& final(graph).node_map() == old(graph).node_map()
            &&& final(graph).beam_map() == old(graph).beam_map()
            &&& *final(history) == *old(history)
        },
        r matches Some(beam) ==> {
            let beams = old(graph).beam_map().remove(beam_id);
            let orphans = orphaned_ends(old(graph).node_map(), beams, beam);
            let op = final(history).undo_ops().last();
            &&& final(graph).beam_map() == beams
            &&& final(graph).node_map() == remove_entries(old(graph).node_map(), orphans)
            &&& final(history).undo_ops() == pushed(old(history).undo_ops(), op)
            &&& final(history).redo_ops() == Seq::<Op>::empty()
            &&& op matches Op::DeleteBeam { beam_id: id, beam: b, removed_nodes }
            &&& id == beam_id
            &&& b == beam
            &&& removed_nodes@ == orphans
            &&& op.wf()
            &&& op.is_done_in(final(graph).node_map(), final(graph).beam_map())
            &&& op.undo_nodes(final(graph).node_map()) == old(graph).node_map()
            &&& op.undo_beams(final(graph).beam_map()) == old(graph).beam_map()
            &&& old(graph).wf() ==> op.ids_below(final(graph).next_node_id(), final(graph).next_beam_id())
        },
        r matches Some(beam) ==> forall|id: NodeId| #[trigger] final(graph).node_map().contains_key(id) <==> {
            &&& old(graph).node_map().contains_key(id)
            &&& !{
                &&& id == beam.a || id == beam.b
                &&& old(graph).node_map()[id].kind == NodeKind::Free
                &&& forall|k: BeamId| #[trigger] final(graph).beam_map().contains_key(k)
                    ==> final(graph).beam_map()[k].a != id && final(graph).beam_map()[k].b != id
            }
        },
        forall|id: NodeId| #[trigger] final(graph).node_map().contains_key(id)
            ==> old(graph).node_map().contains_key(id) && final(graph).node_map()[id] == old(graph).node_map()[id],
        forall|k: BeamId| #[trigger] final(graph).beam_map().contains_key(k) ==> {
            &&& old(graph).node_map().contains_key(final(graph).beam_map()[k].a)
                ==> final(graph).node_map().contains_key(final(graph).beam_map()[k].a)
            &&& old(graph).node_map().contains_key(final(graph).beam_map()[k].b)
                ==> final(graph).node_map().contains_key(final(graph).beam_map()[k].b)
        },
        final(graph).next_node_id() == old(graph).next_node_id(),
        final(graph).next_beam_id() == old(graph).next_beam_id(),
        old(graph).wf() ==> final(graph).wf(),
        old(history).wf() ==> final(history).wf(),
        consistent(*old(graph), *old(history)) ==> consistent(*final(graph), *final(history)),
        keeps_anchors(old(graph).node_map(), final(graph).node_map()),
{
    let ghost g0 = *graph;
    let ghost h0 = *history;
    let beam = match graph.remove_beam(beam_id) {
        Some(b) => b,
        None => {
            assert(graph.beam_map() =~= g0.beam_map());
            return None;
        },
    };
    let ghost g1 = *graph;
    let mut removed: Vec<(NodeId, Node)> = Vec::new();
    sweep_end(graph, beam.a, &mut removed);
    sweep_end(graph, beam.b, &mut removed);
    let op = Op::DeleteBeam { beam_id, beam, removed_nodes: removed };
    proof {
        let beams = g0.beam_map().remove(beam_id);
        let orphans = orphaned_ends(g0.node_map(), beams, beam);
        assert(removed@ =~= orphans);
        assert(distinct_keys(orphans));
        assert(all_present(g0.node_map(), orphans));
        assert(graph.node_map() =~= remove_entries(g0.node_map(), orphans)) by {
            reveal_with_fuel(remove_entries, 3);
            if orphans.len() == 2 {
                assert(orphans.drop_last().drop_last() =~= Seq::<(NodeId, Node)>::empty());
            } else if orphans.len() == 1 {
                assert(orphans.drop_last() =~= Seq::<(NodeId, Node)>::empty());
            }
        }
        lemma_remove_then_insert(g0.node_map(), orphans);
        lemma_removed_absent(g0.node_map(), orphans);
        lemma_remove_entries(g0.node_map(), orphans);
        assert forall|k: NodeId| #[trigger] g0.node_map().contains_key(k) && g0.node_map()[k].kind == NodeKind::Anchor
            implies !keys_of(orphans).contains(k) by {
            if keys_of(orphans).contains(k) {
                let i = choose|i: int| 0 <= i < orphans.len() && #[trigger] orphans[i].0 == k;
            }
        }
        assert(beams.insert(beam_id, beam) =~= g0.beam_map());
        law_orphaned_ends(g0.node_map(), beams, beam);
        assert forall|id: NodeId| #[trigger] keys_of(orphans).contains(id) implies {
            &&& id == beam.a || id == beam.b
            &&& g0.node_map()[id].kind == NodeKind::Free
            &&& forall|k: BeamId| #[trigger] beams.contains_key(k) ==> beams[k].a != id && beams[k].b != id
        } by {
            let j = choose|j: int| 0 <= j < orphans.len() && #[trigger] orphans[j].0 == id;
            assert(orphans[j].0 == id);
        }
    }
    history.push(op);
    proof {
        assert(history.undo_ops().last() == op);
        if consistent(g0, h0) {
            lemma_record(h0.undo_ops(), op, g0.node_map(), g0.beam_map(), graph.node_map(), graph.beam_map());
            lemma_pushed_ids_below(h0.undo_ops(), op, graph.next_node_id(), graph.next_beam_id());
        }
    }
    Some(beam)
}

} // verus!
