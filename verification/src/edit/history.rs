//! Reversible edit operations and the undo/redo history that holds them.

use std::collections::VecDeque;
use vstd::prelude::*;

use crate::collections::lists_entries;
use crate::entries::{
    all_absent, all_present, distinct_keys, insert_entries, keys_of, lemma_insert_entries,
    lemma_insert_then_remove, lemma_lists_entries, lemma_remove_entries, lemma_remove_then_insert,
    lemma_removed_absent, remove_entries,
};
use crate::sim::graph::{keeps_anchors, simple_beams, Beam, BeamId, Node, NodeId, NodeKind, TrussGraph};

verus! {

/// How many operations the undo stack keeps; the oldest is dropped first.
pub const MAX_HISTORY: usize = 100;

/// A reversible edit operation. Storing the data on the way in means undo can
/// faithfully restore IDs and orphan-node cleanup behavior.
#[derive(Clone, Debug)]
pub enum Op {
    AddBeam {
        beam_id: BeamId,
        beam: Beam,
        /// Free nodes that were created as a side-effect (one or two of the beam's endpoints).
        created_nodes: Vec<(NodeId, Node)>,
    },
    DeleteBeam {
        beam_id: BeamId,
        beam: Beam,
        /// Free nodes that became orphaned and were also removed.
        removed_nodes: Vec<(NodeId, Node)>,
    },
    /// Wipe every beam and every Free node in one shot. Anchors stay put.
    ClearAll { beams: Vec<(BeamId, Beam)>, removed_nodes: Vec<(NodeId, Node)> },
}

impl Op {
    /// The nodes after doing (or redoing) the operation.
    pub open spec fn redo_nodes(self, nodes: Map<NodeId, Node>) -> Map<NodeId, Node> {
        match self {
            Op::AddBeam { created_nodes, .. } => insert_entries(nodes, created_nodes@),
            Op::DeleteBeam { removed_nodes, .. } => remove_entries(nodes, removed_nodes@),
            Op::ClearAll { removed_nodes, .. } => remove_entries(nodes, removed_nodes@),
        }
    }

    /// The beams after doing (or redoing) the operation.
    pub open spec fn redo_beams(self, beams: Map<BeamId, Beam>) -> Map<BeamId, Beam> {
        match self {
            Op::AddBeam { beam_id, beam, .. } => beams.insert(beam_id, beam),
            Op::DeleteBeam { beam_id, .. } => beams.remove(beam_id),
            Op::ClearAll { beams: list, .. } => remove_entries(beams, list@),
        }
    }

    /// The nodes after undoing the operation.
    pub open spec fn undo_nodes(self, nodes: Map<NodeId, Node>) -> Map<NodeId, Node> {
        match self {
            Op::AddBeam { created_nodes, .. } => remove_entries(nodes, created_nodes@),
            Op::DeleteBeam { removed_nodes, .. } => insert_entries(nodes, removed_nodes@),
            Op::ClearAll { removed_nodes, .. } => insert_entries(nodes, removed_nodes@),
        }
    }

    /// The beams after undoing the operation.
    pub open spec fn undo_beams(self, beams: Map<BeamId, Beam>) -> Map<BeamId, Beam> {
        match self {
            Op::AddBeam { beam_id, .. } => beams.remove(beam_id),
            Op::DeleteBeam { beam_id, beam, .. } => beams.insert(beam_id, beam),
            Op::ClearAll { beams: list, .. } => insert_entries(beams, list@),
        }
    }

    /// No id is listed twice.
    pub open spec fn wf(self) -> bool {
        match self {
            Op::AddBeam { created_nodes, .. } => distinct_keys(created_nodes@),
            Op::DeleteBeam { removed_nodes, .. } => distinct_keys(removed_nodes@),
            Op::ClearAll { beams, removed_nodes } => distinct_keys(beams@) && distinct_keys(
                removed_nodes@,
            ),
        }
    }

    /// The graph `nodes`, `beams` shows the operation done: what it adds is
    /// there, what it removes is not.
    pub open spec fn is_done_in(self, nodes: Map<NodeId, Node>, beams: Map<BeamId, Beam>) -> bool {
        match self {
            Op::AddBeam { beam_id, beam, created_nodes } => beams.contains_key(beam_id)
                && beams[beam_id] == beam && all_present(nodes, created_nodes@),
            Op::DeleteBeam { beam_id, removed_nodes, .. } => !beams.contains_key(beam_id)
                && all_absent(nodes, removed_nodes@),
            Op::ClearAll { beams: list, removed_nodes } => all_absent(beams, list@) && all_absent(
                nodes,
                removed_nodes@,
            ),
        }
    }

    /// The graph `nodes`, `beams` shows the operation undone: what it adds is
    /// not there, what it removes is.
    pub open spec fn is_undone_in(self, nodes: Map<NodeId, Node>, beams: Map<BeamId, Beam>) -> bool {
        match self {
            Op::AddBeam { beam_id, created_nodes, .. } => !beams.contains_key(beam_id)
                && all_absent(nodes, created_nodes@),
            Op::DeleteBeam { beam_id, beam, removed_nodes } => beams.contains_key(beam_id)
                && beams[beam_id] == beam && all_present(nodes, removed_nodes@),
            Op::ClearAll { beams: list, removed_nodes } => all_present(beams, list@) && all_present(
                nodes,
                removed_nodes@,
            ),
        }
    }

    /// Every id the operation names, the ends of its beams included, is
    /// below the given next ids.
    pub open spec fn ids_below(self, next_node: u32, next_beam: u32) -> bool {
        match self {
            Op::AddBeam { beam_id, beam, created_nodes } => beam_id < next_beam && beam.a < next_node
                && beam.b < next_node && forall|i: int|
                0 <= i < created_nodes@.len() ==> #[trigger] created_nodes@[i].0 < next_node,
            Op::DeleteBeam { beam_id, beam, removed_nodes } => beam_id < next_beam && beam.a < next_node
                && beam.b < next_node && forall|i: int|
                0 <= i < removed_nodes@.len() ==> #[trigger] removed_nodes@[i].0 < next_node,
            Op::ClearAll { beams, removed_nodes } => (forall|i: int|
                0 <= i < beams@.len() ==> #[trigger] beams@[i].0 < next_beam && beams@[i].1.a < next_node
                    && beams@[i].1.b < next_node) && (forall|i: int|
                0 <= i < removed_nodes@.len() ==> #[trigger] removed_nodes@[i].0 < next_node),
        }
    }
}

/// Undoing an operation that is done, then redoing it, gives back the graph.
/// When the operation lists no id twice, the graph in between shows it
/// undone.
pub proof fn lemma_undo_then_redo(op: Op, nodes: Map<NodeId, Node>, beams: Map<BeamId, Beam>)
    requires
        op.is_done_in(nodes, beams),
    ensures
        op.redo_nodes(op.undo_nodes(nodes)) == nodes,
        op.redo_beams(op.undo_beams(beams)) == beams,
        op.wf() ==> op.is_undone_in(op.undo_nodes(nodes), op.undo_beams(beams)),
{
    match op {
        Op::AddBeam { beam_id, beam, created_nodes } => {
            lemma_removed_absent(nodes, created_nodes@);
            lemma_remove_then_insert(nodes, created_nodes@);
            assert(beams.remove(beam_id).insert(beam_id, beam) =~= beams);
        },
        Op::DeleteBeam { beam_id, beam, removed_nodes } => {
            if op.wf() {
                lemma_insert_entries(nodes, removed_nodes@);
            }
            lemma_insert_then_remove(nodes, removed_nodes@);
            assert(beams.insert(beam_id, beam).remove(beam_id) =~= beams);
        },
        Op::ClearAll { beams: list, removed_nodes } => {
            if op.wf() {
                lemma_insert_entries(nodes, removed_nodes@);
                lemma_insert_entries(beams, list@);
            }
            lemma_insert_then_remove(nodes, removed_nodes@);
            lemma_insert_then_remove(beams, list@);
        },
    }
}

/// Redoing an operation that is undone, then undoing it, gives back the
/// graph. When the operation lists no id twice, the graph in between shows
/// it done.
pub proof fn lemma_redo_then_undo(op: Op, nodes: Map<NodeId, Node>, beams: Map<BeamId, Beam>)
    requires
        op.is_undone_in(nodes, beams),
    ensures
        op.undo_nodes(op.redo_nodes(nodes)) == nodes,
        op.undo_beams(op.redo_beams(beams)) == beams,
        op.wf() ==> op.is_done_in(op.redo_nodes(nodes), op.redo_beams(beams)),
{
    match op {
        Op::AddBeam { beam_id, beam, created_nodes } => {
            if op.wf() {
                lemma_insert_entries(nodes, created_nodes@);
            }
            lemma_insert_then_remove(nodes, created_nodes@);
            assert(beams.insert(beam_id, beam).remove(beam_id) =~= beams);
        },
        Op::DeleteBeam { beam_id, beam, removed_nodes } => {
            lemma_removed_absent(nodes, removed_nodes@);
            lemma_remove_then_insert(nodes, removed_nodes@);
            assert(beams.remove(beam_id).insert(beam_id, beam) =~= beams);
        },
        Op::ClearAll { beams: list, removed_nodes } => {
            lemma_removed_absent(nodes, removed_nodes@);
            lemma_remove_then_insert(nodes, removed_nodes@);
            lemma_removed_absent(beams, list@);
            lemma_remove_then_insert(beams, list@);
        },
    }
}

/// Puts the listed nodes back, in list order.
fn restore_nodes(graph: &mut TrussGraph, list: &Vec<(NodeId, Node)>)
    ensures
        final(graph).node_map() == insert_entries(old(graph).node_map(), list@),
        final(graph).beam_map() == old(graph).beam_map(),
        final(graph).next_node_id() == old(graph).next_node_id(),
        final(graph).next_beam_id() == old(graph).next_beam_id(),
        old(graph).wf() && (forall|i: int| 0 <= i < list@.len() ==> #[trigger] list@[i].0 < old(graph).next_node_id())
            ==> final(graph).wf(),
{
    let mut i: usize = 0;
    while i < list.len()
        invariant
            0 <= i <= list.len(),
            graph.node_map() == insert_entries(old(graph).node_map(), list@.take(i as int)),
            graph.beam_map() == old(graph).beam_map(),
            graph.next_node_id() == old(graph).next_node_id(),
            graph.next_beam_id() == old(graph).next_beam_id(),
            old(graph).wf() && (forall|j: int| 0 <= j < list@.len() ==> #[trigger] list@[j].0 < old(graph).next_node_id())
                ==> graph.wf(),
        decreases list.len() - i,
    {
        let (id, node) = list[i];
        graph.insert_node(id, node);
        i = i + 1;
        assert(list@.take(i as int).drop_last() =~= list@.take(i - 1));
    }
    assert(list@.take(i as int) =~= list@);
}

/// Takes the listed nodes out.
pub(crate) fn drop_nodes(graph: &mut TrussGraph, list: &Vec<(NodeId, Node)>)
    ensures
        final(graph).node_map() == remove_entries(old(graph).node_map(), list@),
        final(graph).beam_map() == old(graph).beam_map(),
        final(graph).next_node_id() == old(graph).next_node_id(),
        final(graph).next_beam_id() == old(graph).next_beam_id(),
        old(graph).wf() ==> final(graph).wf(),
{
    let mut i: usize = 0;
    while i < list.len()
        invariant
            0 <= i <= list.len(),
            graph.node_map() == remove_entries(old(graph).node_map(), list@.take(i as int)),
            graph.beam_map() == old(graph).beam_map(),
            graph.next_node_id() == old(graph).next_node_id(),
            graph.next_beam_id() == old(graph).next_beam_id(),
            old(graph).wf() ==> graph.wf(),
        decreases list.len() - i,
    {
        let (id, _) = list[i];
        graph.remove_node(id);
        i = i + 1;
        assert(list@.take(i as int).drop_last() =~= list@.take(i - 1));
    }
    assert(list@.take(i as int) =~= list@);
}

/// Puts the listed beams back, in list order.
fn restore_beams(graph: &mut TrussGraph, list: &Vec<(BeamId, Beam)>)
    ensures
        final(graph).beam_map() == insert_entries(old(graph).beam_map(), list@),
        final(graph).node_map() == old(graph).node_map(),
        final(graph).next_node_id() == old(graph).next_node_id(),
        final(graph).next_beam_id() == old(graph).next_beam_id(),
        old(graph).wf() && (forall|i: int| 0 <= i < list@.len() ==> #[trigger] list@[i].0 < old(graph).next_beam_id()
            && list@[i].1.a < old(graph).next_node_id() && list@[i].1.b < old(graph).next_node_id())
            ==> final(graph).wf(),
{
    let mut i: usize = 0;
    while i < list.len()
        invariant
            0 <= i <= list.len(),
            graph.beam_map() == insert_entries(old(graph).beam_map(), list@.take(i as int)),
            graph.node_map() == old(graph).node_map(),
            graph.next_node_id() == old(graph).next_node_id(),
            graph.next_beam_id() == old(graph).next_beam_id(),
            old(graph).wf() && (forall|j: int| 0 <= j < list@.len() ==> #[trigger] list@[j].0 < old(graph).next_beam_id()
                && list@[j].1.a < old(graph).next_node_id() && list@[j].1.b < old(graph).next_node_id())
                ==> graph.wf(),
        decreases list.len() - i,
    {
        let (id, beam) = list[i];
        graph.insert_beam(id, beam);
        i = i + 1;
        assert(list@.take(i as int).drop_last() =~= list@.take(i - 1));
    }
    assert(list@.take(i as int) =~= list@);
}

/// Takes the listed beams out.
fn drop_beams(graph: &mut TrussGraph, list: &Vec<(BeamId, Beam)>)
    ensures
        final(graph).beam_map() == remove_entries(old(graph).beam_map(), list@),
        final(graph).node_map() == old(graph).node_map(),
        final(graph).next_node_id() == old(graph).next_node_id(),
        final(graph).next_beam_id() == old(graph).next_beam_id(),
        old(graph).wf() ==> final(graph).wf(),
{
    let mut i: usize = 0;
    while i < list.len()
        invariant
            0 <= i <= list.len(),
            graph.beam_map() == remove_entries(old(graph).beam_map(), list@.take(i as int)),
            graph.node_map() == old(graph).node_map(),
            graph.next_node_id() == old(graph).next_node_id(),
            graph.next_beam_id() == old(graph).next_beam_id(),
            old(graph).wf() ==> graph.wf(),
        decreases list.len() - i,
    {
        let (id, _) = list[i];
        graph.remove_beam(id);
        i = i + 1;
        assert(list@.take(i as int).drop_last() =~= list@.take(i - 1));
    }
    assert(list@.take(i as int) =~= list@);
}

/// Reverts the operation on the graph; the next ids are left alone.
pub fn apply_inverse(op: &Op, graph: &mut TrussGraph)
    ensures
        final(graph).node_map() == op.undo_nodes(old(graph).node_map()),
        final(graph).beam_map() == op.undo_beams(old(graph).beam_map()),
        final(graph).next_node_id() == old(graph).next_node_id(),
        final(graph).next_beam_id() == old(graph).next_beam_id(),
        old(graph).wf() && op.ids_below(old(graph).next_node_id(), old(graph).next_beam_id())
            ==> final(graph).wf(),
{
    match op {
        Op::AddBeam { beam_id, created_nodes, .. } => {
            graph.remove_beam(*beam_id);
            drop_nodes(graph, created_nodes);
        },
        Op::DeleteBeam { beam_id, beam, removed_nodes } => {
            restore_nodes(graph, removed_nodes);
            graph.insert_beam(*beam_id, *beam);
        },
        Op::ClearAll { beams, removed_nodes } => {
            restore_nodes(graph, removed_nodes);
            restore_beams(graph, beams);
        },
    }
}

/// Applies the operation to the graph again; the next ids are left alone.
pub fn apply_forward(op: &Op, graph: &mut TrussGraph)
    ensures
        final(graph).node_map() == op.redo_nodes(old(graph).node_map()),
        final(graph).beam_map() == op.redo_beams(old(graph).beam_map()),
        final(graph).next_node_id() == old(graph).next_node_id(),
        final(graph).next_beam_id() == old(graph).next_beam_id(),
        old(graph).wf() && op.ids_below(old(graph).next_node_id(), old(graph).next_beam_id())
            ==> final(graph).wf(),
{
    match op {
        Op::AddBeam { beam_id, beam, created_nodes } => {
            restore_nodes(graph, created_nodes);
            graph.insert_beam(*beam_id, *beam);
        },
        Op::DeleteBeam { beam_id, removed_nodes, .. } => {
            graph.remove_beam(*beam_id);
            drop_nodes(graph, removed_nodes);
        },
        Op::ClearAll { beams, removed_nodes } => {
            drop_beams(graph, beams);
            drop_nodes(graph, removed_nodes);
        },
    }
}

/// The undo stack after pushing `op`: it goes on top, and past
/// `MAX_HISTORY` the oldest operation is dropped.
pub open spec fn pushed(ops: Seq<Op>, op: Op) -> Seq<Op> {
    if ops.len() + 1 > MAX_HISTORY {
        ops.push(op).drop_first()
    } else {
        ops.push(op)
    }
}

/// Every operation of the list names only ids below the given next ids.
pub open spec fn all_ids_below(ops: Seq<Op>, next_node: u32, next_beam: u32) -> bool {
    forall|i: int| 0 <= i < ops.len() ==> #[trigger] ops[i].ids_below(next_node, next_beam)
}


/// The undo stack `ops` is a faithful record leading to the graph `nodes`,
/// `beams`: the top operation is done in it, and undoing it leads to a graph
/// of which the rest of the stack is a faithful record, and so on down. Every
/// graph on the way has simple beams.
pub open spec fn undo_chain(ops: Seq<Op>, nodes: Map<NodeId, Node>, beams: Map<BeamId, Beam>) -> bool
    decreases ops.len(),
{
    &&& simple_beams(beams)
    &&& ops.len() > 0 ==> {
        let op = ops.last();
        &&& op.wf()
        &&& op.is_done_in(nodes, beams)
        &&& undo_chain(ops.drop_last(), op.undo_nodes(nodes), op.undo_beams(beams))
    }
}

/// The redo stack `ops` can be replayed from the graph `nodes`, `beams`:
/// the top operation is undone in it, and redoing it leads to a graph from
/// which the rest of the stack can be replayed, and so on down. Every graph
/// on the way has simple beams.
pub open spec fn redo_chain(ops: Seq<Op>, nodes: Map<NodeId, Node>, beams: Map<BeamId, Beam>) -> bool
    decreases ops.len(),
{
    &&& simple_beams(beams)
    &&& ops.len() > 0 ==> {
        let op = ops.last();
        &&& op.wf()
        &&& op.is_undone_in(nodes, beams)
        &&& redo_chain(ops.drop_last(), op.redo_nodes(nodes), op.redo_beams(beams))
    }
}

/// The graph and the history belong together: every id in use and every beam end is below the
/// next one to hand out, the history is within its bound, its undo stack
/// leads to the graph and its redo stack replays from it, and no operation
/// names an id not yet handed out.
pub open spec fn consistent(graph: TrussGraph, history: History) -> bool {
    &&& graph.wf()
    &&& history.wf()
    &&& undo_chain(history.undo_ops(), graph.node_map(), graph.beam_map())
    &&& redo_chain(history.redo_ops(), graph.node_map(), graph.beam_map())
    &&& all_ids_below(history.undo_ops(), graph.next_node_id(), graph.next_beam_id())
    &&& all_ids_below(history.redo_ops(), graph.next_node_id(), graph.next_beam_id())
}

/// Ids below some bounds are below any larger bounds.
pub proof fn lemma_ids_below_grow(ops: Seq<Op>, n: u32, b: u32, n2: u32, b2: u32)
    requires
        all_ids_below(ops, n, b),
        n <= n2,
        b <= b2,
    ensures
        all_ids_below(ops, n2, b2),
{
    assert forall|i: int| 0 <= i < ops.len() implies #[trigger] ops[i].ids_below(n2, b2) by {
        assert(ops[i].ids_below(n, b));
        match ops[i] {
            Op::AddBeam { beam_id, created_nodes, .. } => {
                assert forall|j: int| 0 <= j < created_nodes@.len() implies #[trigger] created_nodes@[j].0 < n2 by {
                    assert(created_nodes@[j].0 < n);
                }
            },
            Op::DeleteBeam { beam_id, removed_nodes, .. } => {
                assert forall|j: int| 0 <= j < removed_nodes@.len() implies #[trigger] removed_nodes@[j].0 < n2 by {
                    assert(removed_nodes@[j].0 < n);
                }
            },
            Op::ClearAll { beams, removed_nodes } => {
                assert forall|j: int| 0 <= j < beams@.len() implies #[trigger] beams@[j].0 < b2
                    && beams@[j].1.a < n2 && beams@[j].1.b < n2 by {
                    assert(beams@[j].0 < b && beams@[j].1.a < n && beams@[j].1.b < n);
                }
                assert forall|j: int| 0 <= j < removed_nodes@.len() implies #[trigger] removed_nodes@[j].0 < n2 by {
                    assert(removed_nodes@[j].0 < n);
                }
            },
        }
    }
}

/// Forgetting the oldest operation keeps the undo stack a faithful record.
pub proof fn lemma_undo_chain_drop_oldest(ops: Seq<Op>, nodes: Map<NodeId, Node>, beams: Map<BeamId, Beam>)
    requires
        ops.len() > 0,
        undo_chain(ops, nodes, beams),
    ensures
        undo_chain(ops.drop_first(), nodes, beams),
    decreases ops.len(),
{
    if ops.len() > 1 {
        let op = ops.last();
        lemma_undo_chain_drop_oldest(ops.drop_last(), op.undo_nodes(nodes), op.undo_beams(beams));
        assert(ops.drop_first().last() == op);
        assert(ops.drop_first().drop_last() =~= ops.drop_last().drop_first());
    }
}

/// Recording an operation that led from one graph to the next keeps the
/// undo stack a faithful record.
pub proof fn lemma_record(
    ops: Seq<Op>,
    op: Op,
    nodes0: Map<NodeId, Node>,
    beams0: Map<BeamId, Beam>,
    nodes1: Map<NodeId, Node>,
    beams1: Map<BeamId, Beam>,
)
    requires
        undo_chain(ops, nodes0, beams0),
        simple_beams(beams1),
        op.wf(),
        op.is_done_in(nodes1, beams1),
        op.undo_nodes(nodes1) == nodes0,
        op.undo_beams(beams1) == beams0,
    ensures
        undo_chain(pushed(ops, op), nodes1, beams1),
        undo_chain(ops.push(op), nodes1, beams1),
{
    assert(ops.push(op).drop_last() =~= ops);
    if ops.len() + 1 > MAX_HISTORY {
        lemma_undo_chain_drop_oldest(ops.push(op), nodes1, beams1);
    }
}

/// Pushing an operation that names only ids below the bounds keeps the
/// stack's ids below them, also when the oldest is dropped.
pub proof fn lemma_pushed_ids_below(ops: Seq<Op>, op: Op, n: u32, b: u32)
    requires
        all_ids_below(ops, n, b),
        op.ids_below(n, b),
    ensures
        all_ids_below(pushed(ops, op), n, b),
{
    let s = ops.push(op);
    assert(all_ids_below(s, n, b)) by {
        assert forall|i: int| 0 <= i < s.len() implies #[trigger] s[i].ids_below(n, b) by {
            if i < ops.len() {
                assert(s[i] == ops[i]);
            }
        }
    }
    if ops.len() + 1 > MAX_HISTORY {
        assert forall|i: int| 0 <= i < s.drop_first().len() implies #[trigger] s.drop_first()[i].ids_below(n, b) by {
            assert(s.drop_first()[i] == s[i + 1]);
        }
    }
}

/// A graph in which every id and every beam end is below the next id to hand out and whose
/// beams are simple, with an empty history, is where a session starts: the
/// two are consistent.
pub proof fn lemma_fresh_history_consistent(graph: TrussGraph, history: History)
    requires
        graph.wf(),
        simple_beams(graph.beam_map()),
        history.undo_ops().len() == 0,
        history.redo_ops().len() == 0,
    ensures
        consistent(graph, history),
{
}

/// Undo followed by redo gives back the graph and both stacks: undo moves
/// the top operation `op` from the undo stack to the redo stack and reverts
/// it on the graph, redo moves it back and applies it again.
pub proof fn law_undo_then_redo(
    undo_ops: Seq<Op>,
    redo_ops: Seq<Op>,
    nodes: Map<NodeId, Node>,
    beams: Map<BeamId, Beam>,
)
    requires
        undo_ops.len() > 0,
        undo_ops.last().is_done_in(nodes, beams),
    ensures
        ({
            let op = undo_ops.last();
            let undo1 = undo_ops.drop_last();
            let redo1 = redo_ops.push(op);
            let nodes1 = op.undo_nodes(nodes);
            let beams1 = op.undo_beams(beams);
            let op2 = redo1.last();
            &&& op2 == op
            &&& undo1.push(op2) == undo_ops
            &&& redo1.drop_last() == redo_ops
            &&& op2.redo_nodes(nodes1) == nodes
            &&& op2.redo_beams(beams1) == beams
        }),
{
    let op = undo_ops.last();
    lemma_undo_then_redo(op, nodes, beams);
    assert(undo_ops.drop_last().push(op) =~= undo_ops);
    assert(redo_ops.push(op).drop_last() =~= redo_ops);
}

/// Redo followed by undo gives back the graph and both stacks.
pub proof fn law_redo_then_undo(
    undo_ops: Seq<Op>,
    redo_ops: Seq<Op>,
    nodes: Map<NodeId, Node>,
    beams: Map<BeamId, Beam>,
)
    requires
        redo_ops.len() > 0,
        redo_ops.last().is_undone_in(nodes, beams),
    ensures
        ({
            let op = redo_ops.last();
            let redo1 = redo_ops.drop_last();
            let undo1 = undo_ops.push(op);
            let nodes1 = op.redo_nodes(nodes);
            let beams1 = op.redo_beams(beams);
            let op2 = undo1.last();
            &&& op2 == op
            &&& redo1.push(op2) == redo_ops
            &&& undo1.drop_last() == undo_ops
            &&& op2.undo_nodes(nodes1) == nodes
            &&& op2.undo_beams(beams1) == beams
        }),
{
    let op = redo_ops.last();
    lemma_redo_then_undo(op, nodes, beams);
    assert(redo_ops.drop_last().push(op) =~= redo_ops);
    assert(undo_ops.push(op).drop_last() =~= undo_ops);
}

/// What the undo/redo keys did.
#[derive(Clone, Copy, Debug, PartialEq, Eq, Structural)]
pub enum UndoRedo {
    Undone,
    Redone,
    Nothing,
}

/// The undo and redo stacks; the top of each is its back.
pub struct History {
    undo_stack: VecDeque<Op>,
    redo_stack: VecDeque<Op>,
}

impl History {
    /// The operations that undo would revert, oldest first.
    pub closed spec fn undo_ops(&self) -> Seq<Op> {
        self.undo_stack@
    }

    /// The operations that redo would apply again, oldest first.
    pub closed spec fn redo_ops(&self) -> Seq<Op> {
        self.redo_stack@
    }

    /// The two stacks together hold at most `MAX_HISTORY` operations.
    pub open spec fn wf(&self) -> bool {
        self.undo_ops().len() + self.redo_ops().len() <= MAX_HISTORY
    }

    pub fn new() -> (h: Self)
        ensures
            h.undo_ops() == Seq::<Op>::empty(),
            h.redo_ops() == Seq::<Op>::empty(),
            h.wf(),
    {
        History { undo_stack: VecDeque::new(), redo_stack: VecDeque::new() }
    }

    /// Records a new operation: it goes on top of the undo stack (dropping
    /// the oldest past `MAX_HISTORY`), and the redo stack is cleared.
    pub fn push(&mut self, op: Op)
        ensures
            final(self).undo_ops() == pushed(old(self).undo_ops(), op),
            final(self).redo_ops() == Seq::<Op>::empty(),
            old(self).wf() ==> final(self).wf(),
    {
        self.undo_stack.push_back(op);
        if self.undo_stack.len() > MAX_HISTORY {
            self.undo_stack.pop_front();
        }
        self.redo_stack.clear();
    }

    /// Reverts the most recent operation on the graph and moves it to the
    /// redo stack. `false`, with nothing changed, when there is none.
    pub fn undo(&mut self, graph: &mut TrussGraph) -> (done: bool)
        ensures
            done == (old(self).undo_ops().len() > 0),
            !done ==> *final(self) == *old(self) && *final(graph) == *old(graph),
            done ==> {
                let op = old(self).undo_ops().last();
                &&& final(self).undo_ops() == old(self).undo_ops().drop_last()
                &&& final(self).redo_ops() == old(self).redo_ops().push(op)
                &&& final(graph).node_map() == op.undo_nodes(old(graph).node_map())
                &&& final(graph).beam_map() == op.undo_beams(old(graph).beam_map())
            },
            final(graph).next_node_id() == old(graph).next_node_id(),
            final(graph).next_beam_id() == old(graph).next_beam_id(),
            old(self).wf() ==> final(self).wf(),
            old(graph).wf() && all_ids_below(old(self).undo_ops(), old(graph).next_node_id(), old(graph).next_beam_id())
                ==> final(graph).wf(),
            consistent(*old(graph), *old(self)) ==> consistent(*final(graph), *final(self)),
    {
        if self.undo_stack.len() == 0 {
            return false;
        }
        let ghost g0 = *graph;
        let ghost h0 = *self;
        match self.undo_stack.pop_back() {
            Some(op) => {
                proof {
                    let last = h0.undo_ops().len() - 1;
                    assert(h0.undo_ops()[last] == op);
                }
                apply_inverse(&op, graph);
                self.redo_stack.push_back(op);
                proof {
                    if consistent(g0, h0) {
                        lemma_undo_then_redo(op, g0.node_map(), g0.beam_map());
                        assert(undo_chain(h0.undo_ops().drop_last(), op.undo_nodes(g0.node_map()), op.undo_beams(g0.beam_map())));
                        assert(simple_beams(graph.beam_map()));
                        assert(self.redo_ops().drop_last() =~= h0.redo_ops());
                        assert(self.redo_ops().last() == op);
                        assert(all_ids_below(self.undo_ops(), graph.next_node_id(), graph.next_beam_id())) by {
                            assert forall|i: int| 0 <= i < self.undo_ops().len() implies #[trigger] self.undo_ops()[i].ids_below(graph.next_node_id(), graph.next_beam_id()) by {
                                assert(self.undo_ops()[i] == h0.undo_ops()[i]);
                            }
                        }
                        assert(all_ids_below(self.redo_ops(), graph.next_node_id(), graph.next_beam_id())) by {
                            assert forall|i: int| 0 <= i < self.redo_ops().len() implies #[trigger] self.redo_ops()[i].ids_below(graph.next_node_id(), graph.next_beam_id()) by {
                                if i < h0.redo_ops().len() {
                                    assert(self.redo_ops()[i] == h0.redo_ops()[i]);
                                } else {
                                    assert(h0.undo_ops()[h0.undo_ops().len() - 1] == op);
                                }
                            }
                        }
                    }
                }
                true
            },
            None => false,
        }
    }

    /// Applies the most recently undone operation to the graph again and
    /// moves it back to the undo stack. `false`, with nothing changed, when
    /// there is none.
    pub fn redo(&mut self, graph: &mut TrussGraph) -> (done: bool)
        ensures
            done == (old(self).redo_ops().len() > 0),
            !done ==> *final(self) == *old(self) && *final(graph) == *old(graph),
            done ==> {
                let op = old(self).redo_ops().last();
                &&& final(self).redo_ops() == old(self).redo_ops().drop_last()
                &&& final(self).undo_ops() == old(self).undo_ops().push(op)
                &&& final(graph).node_map() == op.redo_nodes(old(graph).node_map())
                &&& final(graph).beam_map() == op.redo_beams(old(graph).beam_map())
            },
            final(graph).next_node_id() == old(graph).next_node_id(),
            final(graph).next_beam_id() == old(graph).next_beam_id(),
            old(self).wf() ==> final(self).wf(),
            old(graph).wf() && all_ids_below(old(self).redo_ops(), old(graph).next_node_id(), old(graph).next_beam_id())
                ==> final(graph).wf(),
            consistent(*old(graph), *old(self)) ==> consistent(*final(graph), *final(self)),
    {
        if self.redo_stack.len() == 0 {
            return false;
        }
        let ghost g0 = *graph;
        let ghost h0 = *self;
        match self.redo_stack.pop_back() {
            Some(op) => {
                proof {
                    let last = h0.redo_ops().len() - 1;
                    assert(h0.redo_ops()[last] == op);
                }
                apply_forward(&op, graph);
                self.undo_stack.push_back(op);
                proof {
                    if consistent(g0, h0) {
                        lemma_redo_then_undo(op, g0.node_map(), g0.beam_map());
                        assert(redo_chain(h0.redo_ops().drop_last(), op.redo_nodes(g0.node_map()), op.redo_beams(g0.beam_map())));
                        assert(simple_beams(graph.beam_map()));
                        assert(self.undo_ops().drop_last() =~= h0.undo_ops());
                        assert(self.undo_ops().last() == op);
                        assert(all_ids_below(self.redo_ops(), graph.next_node_id(), graph.next_beam_id())) by {
                            assert forall|i: int| 0 <= i < self.redo_ops().len() implies #[trigger] self.redo_ops()[i].ids_below(graph.next_node_id(), graph.next_beam_id()) by {
                                assert(self.redo_ops()[i] == h0.redo_ops()[i]);
                            }
                        }
                        assert(all_ids_below(self.undo_ops(), graph.next_node_id(), graph.next_beam_id())) by {
                            assert forall|i: int| 0 <= i < self.undo_ops().len() implies #[trigger] self.undo_ops()[i].ids_below(graph.next_node_id(), graph.next_beam_id()) by {
                                if i < h0.undo_ops().len() {
                                    assert(self.undo_ops()[i] == h0.undo_ops()[i]);
                                } else {
                                    assert(h0.redo_ops()[h0.redo_ops().len() - 1] == op);
                                }
                            }
                        }
                    }
                }
                true
            },
            None => false,
        }
    }

    /// The undo/redo keys: with Ctrl held, Z undoes and Y or Shift+Z redoes.
    /// When Z finds nothing to undo, Y still redoes.
    pub fn undo_redo_keys(
        &mut self,
        graph: &mut TrussGraph,
        ctrl: bool,
        shift: bool,
        z_pressed: bool,
        y_pressed: bool,
    ) -> (r: UndoRedo)
        ensures
            r == (if !ctrl {
                UndoRedo::Nothing
            } else if z_pressed && !shift && old(self).undo_ops().len() > 0 {
                UndoRedo::Undone
            } else if (y_pressed || (z_pressed && shift)) && old(self).redo_ops().len() > 0 {
                UndoRedo::Redone
            } else {
                UndoRedo::Nothing
            }),
            r == UndoRedo::Nothing ==> *final(self) == *old(self) && *final(graph) == *old(graph),
            r == UndoRedo::Undone ==> {
                let op = old(self).undo_ops().last();
                &&& final(self).undo_ops() == old(self).undo_ops().drop_last()
                &&& final(self).redo_ops() == old(self).redo_ops().push(op)
                &&& final(graph).node_map() == op.undo_nodes(old(graph).node_map())
                &&& final(graph).beam_map() == op.undo_beams(old(graph).beam_map())
            },
            r == UndoRedo::Redone ==> {
                let op = old(self).redo_ops().last();
                &&& final(self).redo_ops() == old(self).redo_ops().drop_last()
                &&& final(self).undo_ops() == old(self).undo_ops().push(op)
                &&& final(graph).node_map() == op.redo_nodes(old(graph).node_map())
                &&& final(graph).beam_map() == op.redo_beams(old(graph).beam_map())
            },
            final(graph).next_node_id() == old(graph).next_node_id(),
            final(graph).next_beam_id() == old(graph).next_beam_id(),
            old(self).wf() ==> final(self).wf(),
            old(graph).wf() && all_ids_below(old(self).undo_ops(), old(graph).next_node_id(), old(graph).next_beam_id())
                && all_ids_below(old(self).redo_ops(), old(graph).next_node_id(), old(graph).next_beam_id())
                ==> final(graph).wf(),
            consistent(*old(graph), *old(self)) ==> consistent(*final(graph), *final(self)),
    {
        if !ctrl {
            return UndoRedo::Nothing;
        }
        if z_pressed && !shift && self.undo(graph) {
            return UndoRedo::Undone;
        }
        if (y_pressed || (z_pressed && shift)) && self.redo(graph) {
            return UndoRedo::Redone;
        }
        UndoRedo::Nothing
    }
}

impl Default for History {
    fn default() -> (h: Self)
        ensures
            h.undo_ops() == Seq::<Op>::empty(),
            h.redo_ops() == Seq::<Op>::empty(),
    {
        History::new()
    }
}

/// The nodes of the given kind.
pub open spec fn nodes_of_kind(nodes: Map<NodeId, Node>, kind: NodeKind) -> Map<NodeId, Node> {
    Map::new(|k: NodeId| nodes.contains_key(k) && nodes[k].kind == kind, |k: NodeId| nodes[k])
}

/// Wipes every beam and every free node in one operation, which goes on the
/// undo stack; anchors stay. `false`, with nothing changed, when there are
/// no beams.
pub fn clear_all(graph: &mut TrussGraph, history: &mut History) -> (cleared: bool)
    ensures
        cleared == !old(graph).beam_map().dom().is_empty(),
        !cleared ==> *final(graph) == *old(graph) && *final(history) == *old(history),
        cleared ==> {
            let op = final(history).undo_ops().last();
            &&& final(graph).beam_map() == Map::<BeamId, Beam>::empty()
            &&& final(graph).node_map() == nodes_of_kind(old(graph).node_map(), NodeKind::Anchor)
            &&& final(history).undo_ops() == pushed(old(history).undo_ops(), op)
            &&& final(history).redo_ops() == Seq::<Op>::empty()
            &&& op matches Op::ClearAll { beams, removed_nodes }
            &&& lists_entries(beams@, old(graph).beam_map())
            &&& lists_entries(removed_nodes@, nodes_of_kind(old(graph).node_map(), NodeKind::Free))
            &&& op.wf()
            &&& op.is_done_in(final(graph).node_map(), final(graph).beam_map())
            &&& op.undo_nodes(final(graph).node_map()) == old(graph).node_map()
            &&& op.undo_beams(final(graph).beam_map()) == old(graph).beam_map()
            &&& old(graph).wf() ==> op.ids_below(final(graph).next_node_id(), final(graph).next_beam_id())
        },
        final(graph).next_node_id() == old(graph).next_node_id(),
        final(graph).next_beam_id() == old(graph).next_beam_id(),
        old(graph).wf() ==> final(graph).wf(),
        old(history).wf() ==> final(history).wf(),
        consistent(*old(graph), *old(history)) ==> consistent(*final(graph), *final(history)),
        keeps_anchors(old(graph).node_map(), final(graph).node_map()),
{
    if graph.has_no_beams() {
        return false;
    }
    let ghost g0 = *graph;
    let ghost h0 = *history;
    let beams = graph.take_beams();
    let entries = graph.node_entries();
    let ghost nodes = g0.node_map();
    let ghost free = nodes_of_kind(nodes, NodeKind::Free);
    let mut removed: Vec<(NodeId, Node)> = Vec::new();
    let mut i: usize = 0;
    while i < entries.len()
        invariant
            0 <= i <= entries.len(),
            nodes == g0.node_map(),
            free == nodes_of_kind(nodes, NodeKind::Free),
            lists_entries(entries@, nodes),
            distinct_keys(removed@),
            all_present(free, removed@),
            forall|k: NodeId| #[trigger] keys_of(removed@).contains(k) <==> exists|j: int|
                0 <= j < i && #[trigger] entries@[j].0 == k && entries@[j].1.kind == NodeKind::Free,
        decreases entries.len() - i,
    {
        let ghost prev = removed@;
        let (id, node) = entries[i];
        if node.kind == NodeKind::Free {
            proof {
                assert forall|j: int| 0 <= j < removed@.len() implies #[trigger] removed@[j].0 != id by {
                    assert(keys_of(removed@).contains(removed@[j].0));
                    let j2 = choose|j2: int| 0 <= j2 < i && #[trigger] entries@[j2].0 == removed@[j].0
                        && entries@[j2].1.kind == NodeKind::Free;
                    assert(entries@[j2].0 != entries@[i as int].0);
                }
            }
            removed.push((id, node));
        }
        i = i + 1;
        proof {
            assert forall|k: NodeId| #[trigger] keys_of(removed@).contains(k) <==> exists|j: int|
                0 <= j < i && #[trigger] entries@[j].0 == k && entries@[j].1.kind == NodeKind::Free by {
                if keys_of(removed@).contains(k) {
                    let j = choose|j: int| 0 <= j < removed@.len() && #[trigger] removed@[j].0 == k;
                    if j == removed@.len() - 1 && node.kind == NodeKind::Free {
                        assert(entries@[i - 1].0 == k);
                    } else {
                        assert(prev[j].0 == k);
                        assert(keys_of(prev).contains(k));
                    }
                }
                if exists|j: int| 0 <= j < i && #[trigger] entries@[j].0 == k && entries@[j].1.kind == NodeKind::Free {
                    let j = choose|j: int| 0 <= j < i && #[trigger] entries@[j].0 == k && entries@[j].1.kind == NodeKind::Free;
                    if j == i - 1 {
                        assert(removed@[removed@.len() - 1].0 == k);
                    } else {
                        assert(keys_of(prev).contains(k));
                        let j3 = choose|j3: int| 0 <= j3 < prev.len() && #[trigger] prev[j3].0 == k;
                        assert(removed@[j3].0 == k);
                    }
                }
            }
        }
    }
    proof {
        assert(lists_entries(removed@, free)) by {
            assert forall|k: NodeId| free.contains_key(k) implies exists|j: int| 0 <= j < removed@.len() && #[trigger] removed@[j].0 == k by {
                let j = choose|j: int| 0 <= j < entries@.len() && #[trigger] entries@[j].0 == k;
                assert(keys_of(removed@).contains(k));
            }
        }
    }
    drop_nodes(graph, &removed);
    let op = Op::ClearAll { beams, removed_nodes: removed };
    proof {
        lemma_lists_entries(removed@, free);
        lemma_lists_entries(beams@, g0.beam_map());
        assert(all_present(nodes, removed@));
        lemma_remove_then_insert(nodes, removed@);
        lemma_removed_absent(nodes, removed@);
        lemma_remove_entries(nodes, removed@);
        assert(graph.node_map() =~= nodes_of_kind(nodes, NodeKind::Anchor)) by {
            assert forall|k: NodeId| graph.node_map().contains_key(k) <==> nodes_of_kind(nodes, NodeKind::Anchor).contains_key(k) by {
                if nodes.contains_key(k) && nodes[k].kind == NodeKind::Free {
                    assert(free.contains_key(k));
                }
            }
        }
    }
    history.push(op);
    proof {
        assert(history.undo_ops().last() == op);
        if consistent(g0, h0) {
            lemma_record(h0.undo_ops(), op, g0.node_map(), g0.beam_map(), graph.node_map(), graph.beam_map());
            lemma_pushed_ids_below(h0.undo_ops(), op, graph.next_node_id(), graph.next_beam_id());
        }
    }
    true
}

/// The clear-all key: Ctrl+N clears the truss, when it has beams, as
/// `clear_all` does: the `ClearAll` operation goes on the undo stack and the
/// redo stack is emptied. Otherwise nothing changes.
pub fn clear_all_keys(graph: &mut TrussGraph, history: &mut History, ctrl: bool, n_pressed: bool) -> (cleared: bool)
    ensures
        cleared == (ctrl && n_pressed && !old(graph).beam_map().dom().is_empty()),
        !cleared ==> *final(graph) == *old(graph) && *final(history) == *old(history),
        cleared ==> {
            let op = final(history).undo_ops().last();
            &&& final(graph).beam_map() == Map::<BeamId, Beam>::empty()
            &&& final(graph).node_map() == nodes_of_kind(old(graph).node_map(), NodeKind::Anchor)
            &&& final(history).undo_ops() == pushed(old(history).undo_ops(), op)
            &&& final(history).redo_ops() == Seq::<Op>::empty()
            &&& op matches Op::ClearAll { beams, removed_nodes }
            &&& lists_entries(beams@, old(graph).beam_map())
            &&& lists_entries(removed_nodes@, nodes_of_kind(old(graph).node_map(), NodeKind::Free))
            &&& op.wf()
            &&& op.is_done_in(final(graph).node_map(), final(graph).beam_map())
            &&& op.undo_nodes(final(graph).node_map()) == old(graph).node_map()
            &&& op.undo_beams(final(graph).beam_map()) == old(graph).beam_map()
            &&& old(graph).wf() ==> op.ids_below(final(graph).next_node_id(), final(graph).next_beam_id())
        },
        final(graph).next_node_id() == old(graph).next_node_id(),
        final(graph).next_beam_id() == old(graph).next_beam_id(),
        old(graph).wf() ==> final(graph).wf(),
        old(history).wf() ==> final(history).wf(),
        consistent(*old(graph), *old(history)) ==> consistent(*final(graph), *final(history)),
        keeps_anchors(old(graph).node_map(), final(graph).node_map()),
{
    if !ctrl || !n_pressed {
        return false;
    }
    clear_all(graph, history)
}

} // verus!
