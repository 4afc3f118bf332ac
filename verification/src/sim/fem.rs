//! The integer side of the static solver: which degrees of freedom the
//! stiffness system has, in which order. Each node has two translational
//! DOFs (x, y); anchor DOFs are clamped, free node DOFs are unknowns. The
//! matrix assembly and the factorisation run on floating-point numbers and
//! live in the application.

use vstd::prelude::*;

use crate::entries::{distinct_keys, keys_of, lemma_lists_entries, lemma_lists_entries_len};
use crate::sim::graph::{Node, NodeId, NodeKind, TrussGraph};

verus! {

/// Stability of the constrained truss.
#[derive(Clone, Copy, Debug, PartialEq, Eq, Structural)]
pub enum StructureStatus {
    /// K_ff was positive definite: the truss stands.
    Stable,
    /// K_ff was singular — the truss is under-constrained.
    Unstable,
}

impl Default for StructureStatus {
    fn default() -> (s: Self)
        ensures
            s == StructureStatus::Stable,
    {
        StructureStatus::Stable
    }
}

/// Node order and free degrees of freedom of the stiffness system.
#[derive(Clone, Debug)]
pub struct DofLayout {
    /// Every node id once, ascending: node `nodes[i]` owns DOFs `2i` (x)
    /// and `2i + 1` (y).
    pub nodes: Vec<NodeId>,
    /// The DOFs of the free nodes, ascending.
    pub free_dofs: Vec<usize>,
}

pub open spec fn strictly_increasing(s: Seq<u32>) -> bool {
    forall|i: int, j: int| 0 <= i < j < s.len() ==> s[i] < s[j]
}

/// The free DOFs among the first `n` nodes of `order`.
pub open spec fn free_dofs_upto(order: Seq<NodeId>, nodes: Map<NodeId, Node>, n: nat) -> Seq<usize>
    decreases n,
{
    if n == 0 {
        Seq::empty()
    } else {
        let rest = free_dofs_upto(order, nodes, (n - 1) as nat);
        let i = n - 1;
        if nodes[order[i]].kind == NodeKind::Free {
            rest.push((2 * i) as usize).push((2 * i + 1) as usize)
        } else {
            rest
        }
    }
}

/// What the free DOFs of the first `n` nodes of `order` are: ascending;
/// each is `2i` or `2i + 1` for the index `i` of a free node below `n`; and
/// both DOFs of every free node below `n` are among them. So no anchor DOF
/// is listed and no free node is left out.
pub proof fn law_free_dofs(order: Seq<NodeId>, nodes: Map<NodeId, Node>, n: nat)
    requires
        n <= order.len(),
        n * 2 <= usize::MAX,
    ensures
        forall|j1: int, j2: int| 0 <= j1 < j2 < free_dofs_upto(order, nodes, n).len()
            ==> #[trigger] free_dofs_upto(order, nodes, n)[j1] < #[trigger] free_dofs_upto(order, nodes, n)[j2],
        forall|j: int| 0 <= j < free_dofs_upto(order, nodes, n).len() ==> {
            &&& #[trigger] free_dofs_upto(order, nodes, n)[j] < 2 * n
            &&& nodes[order[(free_dofs_upto(order, nodes, n)[j] / 2) as int]].kind == NodeKind::Free
        },
        forall|i: int| 0 <= i < n && #[trigger] nodes[order[i]].kind == NodeKind::Free ==> {
            &&& free_dofs_upto(order, nodes, n).contains((2 * i) as usize)
            &&& free_dofs_upto(order, nodes, n).contains((2 * i + 1) as usize)
        },
    decreases n,
{
    if n > 0 {
        let m = (n - 1) as nat;
        law_free_dofs(order, nodes, m);
        let rest = free_dofs_upto(order, nodes, m);
        let s = free_dofs_upto(order, nodes, n);
        let i = n - 1;
        if nodes[order[i]].kind == NodeKind::Free {
            assert(s == rest.push((2 * i) as usize).push((2 * i + 1) as usize));
            assert(s[rest.len() as int] == 2 * i);
            assert(s[(rest.len() + 1) as int] == 2 * i + 1);
            assert forall|j: int| 0 <= j < rest.len() implies #[trigger] s[j] == rest[j] && rest[j] < 2 * i by {
                assert(rest[j] < 2 * m);
            }
            assert forall|j: int| 0 <= j < s.len() implies #[trigger] s[j] < 2 * n
                && nodes[order[(s[j] / 2) as int]].kind == NodeKind::Free by {
                if j < rest.len() {
                    assert(s[j] == rest[j]);
                } else if j == rest.len() {
                    assert(s[j] / 2 == i);
                } else {
                    assert(s[j] / 2 == i);
                }
            }
            assert forall|k: int| 0 <= k < n && #[trigger] nodes[order[k]].kind == NodeKind::Free implies {
                &&& s.contains((2 * k) as usize)
                &&& s.contains((2 * k + 1) as usize)
            } by {
                if k == i {
                    assert(s[rest.len() as int] == (2 * k) as usize);
                    assert(s[(rest.len() + 1) as int] == (2 * k + 1) as usize);
                } else {
                    assert(rest.contains((2 * k) as usize));
                    assert(rest.contains((2 * k + 1) as usize));
                    let a = choose|a: int| 0 <= a < rest.len() && rest[a] == (2 * k) as usize;
                    let b = choose|b: int| 0 <= b < rest.len() && rest[b] == (2 * k + 1) as usize;
                    assert(s[a] == rest[a]);
                    assert(s[b] == rest[b]);
                }
            }
        } else {
            assert(s == rest);
            assert forall|k: int| 0 <= k < n && #[trigger] nodes[order[k]].kind == NodeKind::Free implies {
                &&& s.contains((2 * k) as usize)
                &&& s.contains((2 * k + 1) as usize)
            } by {
                assert(k != i);
            }
        }
    }
}

/// The ids of the entries, ascending.
fn sorted_ids(entries: &Vec<(NodeId, Node)>) -> (ids: Vec<NodeId>)
    requires
        distinct_keys(entries@),
    ensures
        strictly_increasing(ids@),
        ids.len() == entries.len(),
        forall|k: NodeId| ids@.contains(k) <==> keys_of(entries@).contains(k),
{
    let mut ids: Vec<NodeId> = Vec::new();
    let mut i: usize = 0;
    while i < entries.len()
        invariant
            0 <= i <= entries.len(),
            distinct_keys(entries@),
            strictly_increasing(ids@),
            ids.len() == i,
            forall|k: NodeId| ids@.contains(k) <==> exists|j: int| 0 <= j < i && #[trigger] entries@[j].0 == k,
        decreases entries.len() - i,
    {
        let x = entries[i].0;
        let mut p: usize = 0;
        while p < ids.len() && ids[p] < x
            invariant
                0 <= p <= ids.len(),
                forall|j: int| 0 <= j < p ==> ids@[j] < x,
            decreases ids.len() - p,
        {
            p = p + 1;
        }
        assert(!ids@.contains(x)) by {
            if ids@.contains(x) {
                let m = choose|m: int| 0 <= m < ids@.len() && ids@[m] == x;
                let j = choose|j: int| 0 <= j < i && #[trigger] entries@[j].0 == ids@[m];
                assert(entries@[j].0 != entries@[i as int].0);
            }
        }
        assert(forall|j: int| p <= j < ids@.len() ==> ids@[j] > x) by {
            if p < ids@.len() {
                assert(ids@[p as int] >= x);
                assert(ids@[p as int] != x);
            }
        }
        let ghost prev = ids@;
        ids.insert(p, x);
        assert(ids@ == prev.insert(p as int, x));
        i = i + 1;
        assert forall|k: NodeId| ids@.contains(k) <==> exists|j: int| 0 <= j < i && #[trigger] entries@[j].0 == k by {
            if ids@.contains(k) {
                let m = choose|m: int| 0 <= m < ids@.len() && ids@[m] == k;
                if m < p {
                    assert(prev.contains(k));
                } else if m == p {
                    assert(entries@[i - 1].0 == k);
                } else {
                    assert(prev[m - 1] == k);
                    assert(prev.contains(k));
                }
            }
            if exists|j: int| 0 <= j < i && #[trigger] entries@[j].0 == k {
                let j = choose|j: int| 0 <= j < i && #[trigger] entries@[j].0 == k;
                if j == i - 1 {
                    assert(ids@[p as int] == k);
                } else {
                    assert(prev.contains(k));
                    let m = choose|m: int| 0 <= m < prev.len() && prev[m] == k;
                    if m < p {
                        assert(ids@[m] == k);
                    } else {
                        assert(ids@[m + 1] == k);
                    }
                }
            }
        }
    }
    assert forall|k: NodeId| ids@.contains(k) <==> keys_of(entries@).contains(k) by {
        if keys_of(entries@).contains(k) {
            let j = choose|j: int| 0 <= j < entries@.len() && #[trigger] entries@[j].0 == k;
        }
    }
    ids
}

/// Orders the nodes by id and lists the degrees of freedom of the free
/// nodes: anchors are clamped in both directions.
pub fn dof_layout(graph: &TrussGraph) -> (layout: DofLayout)
    requires
        graph.node_map().dom().len() * 2 <= usize::MAX,
    ensures
        strictly_increasing(layout.nodes@),
        forall|k: NodeId| layout.nodes@.contains(k) <==> graph.node_map().contains_key(k),
        layout.free_dofs@ == free_dofs_upto(layout.nodes@, graph.node_map(), layout.nodes@.len()),
        forall|j1: int, j2: int| 0 <= j1 < j2 < layout.free_dofs@.len()
            ==> #[trigger] layout.free_dofs@[j1] < #[trigger] layout.free_dofs@[j2],
        forall|j: int| 0 <= j < layout.free_dofs@.len() ==> {
            &&& #[trigger] layout.free_dofs@[j] < 2 * layout.nodes@.len()
            &&& graph.node_map()[layout.nodes@[(layout.free_dofs@[j] / 2) as int]].kind == NodeKind::Free
        },
        forall|i: int| 0 <= i < layout.nodes@.len() && #[trigger] graph.node_map()[layout.nodes@[i]].kind
            == NodeKind::Free ==> {
            &&& layout.free_dofs@.contains((2 * i) as usize)
            &&& layout.free_dofs@.contains((2 * i + 1) as usize)
        },
{
    let entries = graph.node_entries();
    proof {
        lemma_lists_entries(entries@, graph.node_map());
        lemma_lists_entries_len(entries@, graph.node_map());
    }
    let nodes = sorted_ids(&entries);
    let ghost map = graph.node_map();
    let mut free_dofs: Vec<usize> = Vec::new();
    let mut i: usize = 0;
    while i < nodes.len()
        invariant
            0 <= i <= nodes.len(),
            nodes.len() * 2 <= usize::MAX,
            map == graph.node_map(),
            forall|k: NodeId| nodes@.contains(k) <==> map.contains_key(k),
            free_dofs@ == free_dofs_upto(nodes@, map, i as nat),
        decreases nodes.len() - i,
    {
        let id = nodes[i];
        assert(nodes@.contains(id));
        match graph.node(id) {
            Some(node) => {
                if node.kind == NodeKind::Free {
                    free_dofs.push(i * 2);
                    free_dofs.push(i * 2 + 1);
                }
            },
            None => {},
        }
        i = i + 1;
    }
    proof {
        law_free_dofs(nodes@, map, nodes@.len());
    }
    DofLayout { nodes, free_dofs }
}

} // verus!
