use beambuilder::edit::delete::delete_beam;
use beambuilder::edit::draw::commit_beam;
use beambuilder::edit::history::{apply_forward, apply_inverse, clear_all, clear_all_keys, History, Op, UndoRedo, MAX_HISTORY};
use beambuilder::edit::snap::SnapResult;
use beambuilder::sim::graph::{Beam, Node, NodeKind, Pos, TrussGraph};

fn pos(x: f32, y: f32) -> Pos {
    Pos { x_bits: x.to_bits(), y_bits: y.to_bits() }
}

fn free(x: f32, y: f32) -> Node {
    Node { pos: pos(x, y), kind: NodeKind::Free }
}

fn sorted_nodes(g: &TrussGraph) -> Vec<(u32, Node)> {
    let mut v = g.node_entries();
    v.sort_by_key(|(k, _)| *k);
    v
}

fn sorted_beams(g: &TrussGraph) -> Vec<(u32, Beam)> {
    let mut v = g.beam_entries();
    v.sort_by_key(|(k, _)| *k);
    v
}

/// Two anchors at (0, 0) and (128, 0).
fn two_anchors() -> TrussGraph {
    let mut g = TrussGraph::new();
    g.seed_anchors(&vec![pos(0.0, 0.0), pos(128.0, 0.0)]);
    g
}

#[test]
fn snap_result_pos() {
    assert_eq!(SnapResult::Existing(3, pos(1.0, 2.0)).pos(), pos(1.0, 2.0));
    assert_eq!(SnapResult::Grid(pos(32.0, 64.0)).pos(), pos(32.0, 64.0));
}

#[test]
fn commit_between_grid_points_creates_two_free_nodes() {
    let mut g = TrussGraph::new();
    let mut h = History::new();
    let r = commit_beam(&mut g, &mut h, SnapResult::Grid(pos(0.0, 0.0)), SnapResult::Grid(pos(32.0, 0.0)));
    assert_eq!(r, Some(0));
    assert_eq!(sorted_nodes(&g), vec![(0, free(0.0, 0.0)), (1, free(32.0, 0.0))]);
    assert_eq!(sorted_beams(&g), vec![(0, Beam { a: 0, b: 1 })]);
}

#[test]
fn commit_from_node_to_grid_creates_one_node() {
    let mut g = two_anchors();
    let mut h = History::new();
    let r = commit_beam(&mut g, &mut h, SnapResult::Existing(0, pos(0.0, 0.0)), SnapResult::Grid(pos(32.0, 32.0)));
    assert_eq!(r, Some(0));
    assert_eq!(g.node(2), Some(free(32.0, 32.0)));
    assert_eq!(g.beams.get(&0), Some(&Beam { a: 0, b: 2 }));
}

#[test]
fn refused_commit_rolls_back_new_nodes() {
    let mut g = two_anchors();
    let mut h = History::new();
    assert_eq!(commit_beam(&mut g, &mut h, SnapResult::Existing(0, pos(0.0, 0.0)), SnapResult::Existing(1, pos(128.0, 0.0))), Some(0));
    let nodes = sorted_nodes(&g);
    // The same pair again, backwards: refused.
    assert_eq!(commit_beam(&mut g, &mut h, SnapResult::Existing(1, pos(128.0, 0.0)), SnapResult::Existing(0, pos(0.0, 0.0))), None);
    // A node to itself: refused.
    assert_eq!(commit_beam(&mut g, &mut h, SnapResult::Existing(1, pos(128.0, 0.0)), SnapResult::Existing(1, pos(128.0, 0.0))), None);
    assert_eq!(sorted_nodes(&g), nodes);
    assert_eq!(g.beams.len(), 1);
    // Nothing refused was recorded: one undo empties the truss.
    assert!(h.undo(&mut g));
    assert!(!h.undo(&mut g));
    assert!(g.has_no_beams());
}

#[test]
fn undo_of_commit_removes_beam_and_created_nodes() {
    let mut g = two_anchors();
    let mut h = History::new();
    let before_nodes = sorted_nodes(&g);
    commit_beam(&mut g, &mut h, SnapResult::Existing(0, pos(0.0, 0.0)), SnapResult::Grid(pos(64.0, 32.0))).unwrap();
    let after_nodes = sorted_nodes(&g);
    let after_beams = sorted_beams(&g);
    assert!(h.undo(&mut g));
    assert_eq!(sorted_nodes(&g), before_nodes);
    assert!(g.has_no_beams());
    assert!(h.redo(&mut g));
    assert_eq!(sorted_nodes(&g), after_nodes);
    assert_eq!(sorted_beams(&g), after_beams);
}

#[test]
fn delete_sweeps_orphaned_free_ends_only() {
    let mut g = two_anchors();
    let mut h = History::new();
    // anchor 0 -- free 2 -- free 3 -- anchor 1
    commit_beam(&mut g, &mut h, SnapResult::Existing(0, pos(0.0, 0.0)), SnapResult::Grid(pos(32.0, 0.0))).unwrap();
    commit_beam(&mut g, &mut h, SnapResult::Existing(2, pos(32.0, 0.0)), SnapResult::Grid(pos(64.0, 0.0))).unwrap();
    commit_beam(&mut g, &mut h, SnapResult::Existing(3, pos(64.0, 0.0)), SnapResult::Existing(1, pos(128.0, 0.0))).unwrap();
    // Deleting the last beam orphans nothing: node 3 is still held by beam 1.
    assert_eq!(delete_beam(&mut g, &mut h, 2), Some(Beam { a: 3, b: 1 }));
    assert_eq!(g.nodes.len(), 4);
    // Deleting beam 1 orphans free node 3 but not free node 2.
    assert_eq!(delete_beam(&mut g, &mut h, 1), Some(Beam { a: 2, b: 3 }));
    assert_eq!(g.node(3), None);
    assert_eq!(g.node(2), Some(free(32.0, 0.0)));
    // Deleting beam 0 orphans free node 2; the anchor stays.
    assert_eq!(delete_beam(&mut g, &mut h, 0), Some(Beam { a: 0, b: 2 }));
    assert_eq!(g.node(2), None);
    assert_eq!(g.node(0), Some(Node { pos: pos(0.0, 0.0), kind: NodeKind::Anchor }));
    assert!(g.has_no_beams());
    // No such beam: nothing happens.
    assert_eq!(delete_beam(&mut g, &mut h, 0), None);
}

#[test]
fn undo_of_delete_restores_beam_and_orphans() {
    let mut g = two_anchors();
    let mut h = History::new();
    commit_beam(&mut g, &mut h, SnapResult::Grid(pos(0.0, 32.0)), SnapResult::Grid(pos(32.0, 32.0))).unwrap();
    let nodes = sorted_nodes(&g);
    let beams = sorted_beams(&g);
    delete_beam(&mut g, &mut h, 0).unwrap();
    assert_eq!(g.nodes.len(), 2);
    assert!(h.undo(&mut g));
    assert_eq!(sorted_nodes(&g), nodes);
    assert_eq!(sorted_beams(&g), beams);
}

#[test]
fn clear_all_keeps_anchors_and_undo_restores() {
    let mut g = two_anchors();
    let mut h = History::new();
    assert!(!clear_all(&mut g, &mut h));
    commit_beam(&mut g, &mut h, SnapResult::Existing(0, pos(0.0, 0.0)), SnapResult::Grid(pos(64.0, 32.0))).unwrap();
    commit_beam(&mut g, &mut h, SnapResult::Existing(2, pos(64.0, 32.0)), SnapResult::Existing(1, pos(128.0, 0.0))).unwrap();
    let nodes = sorted_nodes(&g);
    let beams = sorted_beams(&g);
    assert!(clear_all(&mut g, &mut h));
    assert!(g.has_no_beams());
    assert_eq!(
        sorted_nodes(&g),
        vec![(0, Node { pos: pos(0.0, 0.0), kind: NodeKind::Anchor }), (1, Node { pos: pos(128.0, 0.0), kind: NodeKind::Anchor })]
    );
    assert!(h.undo(&mut g));
    assert_eq!(sorted_nodes(&g), nodes);
    assert_eq!(sorted_beams(&g), beams);
    assert!(h.redo(&mut g));
    assert!(g.has_no_beams());
    assert_eq!(g.nodes.len(), 2);
}

#[test]
fn clear_all_needs_ctrl_and_n() {
    let mut g = two_anchors();
    let mut h = History::new();
    commit_beam(&mut g, &mut h, SnapResult::Existing(0, pos(0.0, 0.0)), SnapResult::Existing(1, pos(128.0, 0.0))).unwrap();
    assert!(!clear_all_keys(&mut g, &mut h, false, true));
    assert!(!clear_all_keys(&mut g, &mut h, true, false));
    assert_eq!(g.beams.len(), 1);
    assert!(clear_all_keys(&mut g, &mut h, true, true));
    assert!(g.has_no_beams());
    assert!(!clear_all_keys(&mut g, &mut h, true, true));
}

#[test]
fn clear_all_keys_records_an_undoable_clear() {
    let mut g = two_anchors();
    let mut h = History::new();
    commit_beam(&mut g, &mut h, SnapResult::Existing(0, pos(0.0, 0.0)), SnapResult::Grid(pos(64.0, 32.0))).unwrap();
    commit_beam(&mut g, &mut h, SnapResult::Existing(2, pos(64.0, 32.0)), SnapResult::Existing(1, pos(128.0, 0.0))).unwrap();
    assert!(h.undo(&mut g));
    let ids = g.next_ids();
    let nodes = sorted_nodes(&g);
    let beams = sorted_beams(&g);
    assert!(clear_all_keys(&mut g, &mut h, true, true));
    assert_eq!(g.next_ids(), ids);
    assert_eq!(g.nodes.len(), 2);
    // The redo stack was emptied: Ctrl+Y finds nothing.
    assert_eq!(h.undo_redo_keys(&mut g, true, false, false, true), UndoRedo::Nothing);
    // Ctrl+Z brings back every beam and free node with its id.
    assert_eq!(h.undo_redo_keys(&mut g, true, false, true, false), UndoRedo::Undone);
    assert_eq!(sorted_nodes(&g), nodes);
    assert_eq!(sorted_beams(&g), beams);
    assert_eq!(g.next_ids(), ids);
}

#[test]
fn round_trip_with_an_id_listed_twice() {
    let mut g = two_anchors();
    apply_forward(
        &Op::AddBeam { beam_id: 3, beam: Beam { a: 0, b: 5 }, created_nodes: vec![(5, free(8.0, 8.0))] },
        &mut g,
    );
    let nodes = sorted_nodes(&g);
    let beams = sorted_beams(&g);
    let op = Op::DeleteBeam { beam_id: 3, beam: Beam { a: 0, b: 5 }, removed_nodes: vec![(5, free(8.0, 8.0)), (5, free(8.0, 8.0))] };
    apply_forward(&op, &mut g);
    assert!(g.has_no_beams());
    assert_eq!(g.node(5), None);
    apply_inverse(&op, &mut g);
    assert_eq!(sorted_nodes(&g), nodes);
    assert_eq!(sorted_beams(&g), beams);
}

#[test]
fn drag_with_a_grid_end_is_never_refused() {
    let mut g = two_anchors();
    let mut h = History::new();
    assert_eq!(
        commit_beam(&mut g, &mut h, SnapResult::Existing(0, pos(0.0, 0.0)), SnapResult::Existing(1, pos(128.0, 0.0))),
        Some(0)
    );
    assert_eq!(
        commit_beam(&mut g, &mut h, SnapResult::Existing(1, pos(128.0, 0.0)), SnapResult::Existing(0, pos(0.0, 0.0))),
        None
    );
    assert_eq!(commit_beam(&mut g, &mut h, SnapResult::Existing(0, pos(0.0, 0.0)), SnapResult::Grid(pos(0.0, 32.0))), Some(1));
    assert_eq!(commit_beam(&mut g, &mut h, SnapResult::Grid(pos(32.0, 32.0)), SnapResult::Existing(1, pos(128.0, 0.0))), Some(2));
    assert_eq!(commit_beam(&mut g, &mut h, SnapResult::Grid(pos(64.0, 64.0)), SnapResult::Grid(pos(96.0, 64.0))), Some(3));
    assert_eq!(g.beams.len(), 4);
    assert_eq!(g.nodes.len(), 6);
}

#[test]
fn new_edit_clears_redo() {
    let mut g = two_anchors();
    let mut h = History::new();
    commit_beam(&mut g, &mut h, SnapResult::Existing(0, pos(0.0, 0.0)), SnapResult::Grid(pos(32.0, 0.0))).unwrap();
    assert!(h.undo(&mut g));
    commit_beam(&mut g, &mut h, SnapResult::Existing(1, pos(128.0, 0.0)), SnapResult::Grid(pos(96.0, 0.0))).unwrap();
    assert!(!h.redo(&mut g));
    assert_eq!(g.beams.len(), 1);
}

#[test]
fn history_keeps_at_most_max_operations() {
    let mut g = TrussGraph::new();
    let mut h = History::new();
    for i in 0..(MAX_HISTORY + 5) {
        let x = (i * 64) as f32;
        commit_beam(&mut g, &mut h, SnapResult::Grid(pos(x, 0.0)), SnapResult::Grid(pos(x + 32.0, 0.0))).unwrap();
    }
    let mut undone = 0;
    while h.undo(&mut g) {
        undone += 1;
    }
    assert_eq!(undone, MAX_HISTORY);
    // The oldest five beams could not be undone.
    assert_eq!(g.beams.len(), 5);
    let mut ids: Vec<u32> = g.beam_entries().iter().map(|(k, _)| *k).collect();
    ids.sort();
    assert_eq!(ids, vec![0, 1, 2, 3, 4]);
}

#[test]
fn push_drops_the_oldest_past_the_bound() {
    let mut g = TrussGraph::new();
    let mut h = History::new();
    for i in 0..(MAX_HISTORY as u32 + 1) {
        h.push(Op::DeleteBeam { beam_id: i, beam: Beam { a: 0, b: 1 }, removed_nodes: Vec::new() });
    }
    let mut undone = 0;
    while h.undo(&mut g) {
        undone += 1;
    }
    assert_eq!(undone, MAX_HISTORY);
    // Undoing put back every beam but the first one recorded.
    assert_eq!(g.beams.len(), MAX_HISTORY);
    assert!(g.beams.get(&0).is_none());
    assert!(g.beams.get(&1).is_some());
}

#[test]
fn undo_redo_keys() {
    let mut g = two_anchors();
    let mut h = History::new();
    commit_beam(&mut g, &mut h, SnapResult::Existing(0, pos(0.0, 0.0)), SnapResult::Existing(1, pos(128.0, 0.0))).unwrap();
    // Without Ctrl nothing happens.
    assert_eq!(h.undo_redo_keys(&mut g, false, false, true, false), UndoRedo::Nothing);
    assert_eq!(g.beams.len(), 1);
    // Ctrl+Z undoes.
    assert_eq!(h.undo_redo_keys(&mut g, true, false, true, false), UndoRedo::Undone);
    assert!(g.has_no_beams());
    // Ctrl+Shift+Z redoes.
    assert_eq!(h.undo_redo_keys(&mut g, true, true, true, false), UndoRedo::Redone);
    assert_eq!(g.beams.len(), 1);
    // Ctrl+Y with nothing to redo does nothing.
    assert_eq!(h.undo_redo_keys(&mut g, true, false, false, true), UndoRedo::Nothing);
    assert_eq!(h.undo_redo_keys(&mut g, true, false, true, false), UndoRedo::Undone);
    // Ctrl+Y redoes.
    assert_eq!(h.undo_redo_keys(&mut g, true, false, false, true), UndoRedo::Redone);
    assert_eq!(g.beams.len(), 1);
}

#[test]
fn z_with_empty_undo_stack_still_lets_y_redo() {
    let mut g = two_anchors();
    let mut h = History::new();
    commit_beam(&mut g, &mut h, SnapResult::Existing(0, pos(0.0, 0.0)), SnapResult::Existing(1, pos(128.0, 0.0))).unwrap();
    assert!(h.undo(&mut g));
    // Undo stack empty now; Ctrl with Z and Y both pressed redoes.
    assert_eq!(h.undo_redo_keys(&mut g, true, false, true, true), UndoRedo::Redone);
    assert_eq!(g.beams.len(), 1);
}

#[test]
fn apply_forward_then_inverse_round_trip() {
    let mut g = two_anchors();
    let nodes = sorted_nodes(&g);
    let op = Op::AddBeam { beam_id: 7, beam: Beam { a: 0, b: 9 }, created_nodes: vec![(9, free(10.0, 10.0))] };
    apply_forward(&op, &mut g);
    assert_eq!(g.node(9), Some(free(10.0, 10.0)));
    assert_eq!(g.beams.get(&7), Some(&Beam { a: 0, b: 9 }));
    apply_inverse(&op, &mut g);
    assert_eq!(sorted_nodes(&g), nodes);
    assert!(g.has_no_beams());
}

#[test]
fn history_default_is_empty() {
    let mut g = TrussGraph::new();
    let mut h = History::default();
    assert!(!h.undo(&mut g));
    assert!(!h.redo(&mut g));
}

#[test]
fn undoing_every_edit_walks_back_through_each_state() {
    let mut g = two_anchors();
    let mut h = History::new();
    let mut states = vec![(sorted_nodes(&g), sorted_beams(&g))];
    commit_beam(&mut g, &mut h, SnapResult::Existing(0, pos(0.0, 0.0)), SnapResult::Grid(pos(64.0, 32.0))).unwrap();
    states.push((sorted_nodes(&g), sorted_beams(&g)));
    commit_beam(&mut g, &mut h, SnapResult::Existing(2, pos(64.0, 32.0)), SnapResult::Existing(1, pos(128.0, 0.0))).unwrap();
    states.push((sorted_nodes(&g), sorted_beams(&g)));
    delete_beam(&mut g, &mut h, 0).unwrap();
    states.push((sorted_nodes(&g), sorted_beams(&g)));
    commit_beam(&mut g, &mut h, SnapResult::Grid(pos(32.0, 96.0)), SnapResult::Grid(pos(64.0, 96.0))).unwrap();
    states.push((sorted_nodes(&g), sorted_beams(&g)));
    assert!(clear_all(&mut g, &mut h));
    states.push((sorted_nodes(&g), sorted_beams(&g)));
    for i in (0..states.len() - 1).rev() {
        assert!(h.undo(&mut g));
        assert_eq!((sorted_nodes(&g), sorted_beams(&g)), states[i]);
    }
    assert!(!h.undo(&mut g));
    for state in states.iter().skip(1) {
        assert!(h.redo(&mut g));
        assert_eq!(&(sorted_nodes(&g), sorted_beams(&g)), state);
    }
    assert!(!h.redo(&mut g));
    // Undo and redo never hand ids back: the next node is still 5.
    assert_eq!(g.next_ids(), (5, 3));
}
