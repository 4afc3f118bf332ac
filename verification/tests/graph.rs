use beambuilder::sim::graph::{same_endpoints, Beam, Node, NodeKind, Pos, TrussGraph};

fn pos(x: f32, y: f32) -> Pos {
    Pos { x_bits: x.to_bits(), y_bits: y.to_bits() }
}

#[test]
fn add_node_hands_out_consecutive_ids() {
    let mut g = TrussGraph::new();
    assert_eq!(g.add_node(pos(0.0, 0.0), NodeKind::Anchor), 0);
    assert_eq!(g.add_node(pos(32.0, 0.0), NodeKind::Free), 1);
    assert_eq!(g.add_node(pos(64.0, 0.0), NodeKind::Free), 2);
    assert_eq!(g.nodes.len(), 3);
    assert_eq!(g.node_pos(1), Some(pos(32.0, 0.0)));
    assert_eq!(g.node(0), Some(Node { pos: pos(0.0, 0.0), kind: NodeKind::Anchor }));
    assert_eq!(g.node_pos(7), None);
}

#[test]
fn removed_node_id_is_not_reused() {
    let mut g = TrussGraph::default();
    let a = g.add_node(pos(0.0, 0.0), NodeKind::Free);
    assert_eq!(g.remove_node(a), Some(Node { pos: pos(0.0, 0.0), kind: NodeKind::Free }));
    assert_eq!(g.remove_node(a), None);
    let b = g.add_node(pos(0.0, 0.0), NodeKind::Free);
    assert_ne!(a, b);
    assert_eq!(b, 1);
}

#[test]
fn add_beam_refuses_self_loop() {
    let mut g = TrussGraph::new();
    let a = g.add_node(pos(0.0, 0.0), NodeKind::Anchor);
    assert_eq!(g.add_beam(a, a), None);
    assert!(g.has_no_beams());
}

#[test]
fn add_beam_refuses_duplicates_in_either_direction() {
    let mut g = TrussGraph::new();
    let a = g.add_node(pos(0.0, 0.0), NodeKind::Anchor);
    let b = g.add_node(pos(32.0, 0.0), NodeKind::Free);
    let c = g.add_node(pos(32.0, 32.0), NodeKind::Free);
    assert_eq!(g.add_beam(a, b), Some(0));
    assert_eq!(g.add_beam(a, b), None);
    assert_eq!(g.add_beam(b, a), None);
    assert_eq!(g.add_beam(b, c), Some(1));
    assert_eq!(g.beams.len(), 2);
    assert_eq!(g.beams.get(&1), Some(&Beam { a: b, b: c }));
}

#[test]
fn remove_beam_returns_it_once() {
    let mut g = TrussGraph::new();
    let a = g.add_node(pos(0.0, 0.0), NodeKind::Anchor);
    let b = g.add_node(pos(32.0, 0.0), NodeKind::Free);
    let id = g.add_beam(a, b).unwrap();
    assert_eq!(g.remove_beam(id), Some(Beam { a, b }));
    assert_eq!(g.remove_beam(id), None);
    // The pair may be joined again, under a new id.
    assert_eq!(g.add_beam(b, a), Some(1));
}

#[test]
fn beam_count_for_counts_both_ends() {
    let mut g = TrussGraph::new();
    let a = g.add_node(pos(0.0, 0.0), NodeKind::Anchor);
    let b = g.add_node(pos(32.0, 0.0), NodeKind::Free);
    let c = g.add_node(pos(64.0, 0.0), NodeKind::Free);
    let d = g.add_node(pos(96.0, 0.0), NodeKind::Free);
    g.add_beam(a, b).unwrap();
    g.add_beam(c, b).unwrap();
    g.add_beam(a, c).unwrap();
    assert_eq!(g.beam_count_for(a), 2);
    assert_eq!(g.beam_count_for(b), 2);
    assert_eq!(g.beam_count_for(c), 2);
    assert_eq!(g.beam_count_for(d), 0);
    assert_eq!(g.beam_count_for(99), 0);
}

#[test]
fn same_endpoints_ignores_direction() {
    let beam = Beam { a: 3, b: 5 };
    assert!(same_endpoints(beam, 3, 5));
    assert!(same_endpoints(beam, 5, 3));
    assert!(!same_endpoints(beam, 3, 3));
    assert!(!same_endpoints(beam, 3, 4));
}

#[test]
fn seed_anchors_adds_anchors_in_order() {
    let mut g = TrussGraph::new();
    let first = g.add_node(pos(1.0, 1.0), NodeKind::Free);
    g.seed_anchors(&vec![pos(-96.0, 0.0), pos(96.0, 0.0)]);
    assert_eq!(first, 0);
    assert_eq!(g.node(1), Some(Node { pos: pos(-96.0, 0.0), kind: NodeKind::Anchor }));
    assert_eq!(g.node(2), Some(Node { pos: pos(96.0, 0.0), kind: NodeKind::Anchor }));
    assert_eq!(g.add_node(pos(0.0, 0.0), NodeKind::Free), 3);
}

#[test]
fn entries_list_every_element_once() {
    let mut g = TrussGraph::new();
    for i in 0..5u32 {
        g.add_node(pos(i as f32, 0.0), NodeKind::Free);
    }
    g.add_beam(0, 1).unwrap();
    g.add_beam(1, 2).unwrap();
    let mut ids: Vec<u32> = g.node_entries().iter().map(|(k, _)| *k).collect();
    ids.sort();
    assert_eq!(ids, vec![0, 1, 2, 3, 4]);
    let mut beams = g.beam_entries();
    beams.sort_by_key(|(k, _)| *k);
    assert_eq!(beams, vec![(0, Beam { a: 0, b: 1 }), (1, Beam { a: 1, b: 2 })]);
    let taken = g.take_beams();
    assert_eq!(taken.len(), 2);
    assert!(g.has_no_beams());
    assert_eq!(g.nodes.len(), 5);
}

#[test]
fn insert_restores_under_the_old_id() {
    let mut g = TrussGraph::new();
    let a = g.add_node(pos(0.0, 0.0), NodeKind::Free);
    let node = g.remove_node(a).unwrap();
    g.insert_node(a, node);
    assert_eq!(g.node(a), Some(node));
    g.insert_beam(4, Beam { a: 0, b: 1 });
    assert_eq!(g.beams.get(&4), Some(&Beam { a: 0, b: 1 }));
    // Ids handed out later still start where they left off.
    assert_eq!(g.add_node(pos(1.0, 0.0), NodeKind::Free), 1);
}
