use beambuilder::cli::{Cli, CliError};
use beambuilder::edit::grid::is_major_line;
use beambuilder::sim::dynamic::TestResult;
use beambuilder::sim::fem::{dof_layout, StructureStatus};
use beambuilder::sim::graph::{NodeKind, Pos, TrussGraph};
use beambuilder::state::{toggle_test_state, GameState};
use beambuilder::ui::hud::{mode_label, status_label, LabelColor};
use beambuilder::world::render::ground_indices;

fn pos(x: f32, y: f32) -> Pos {
    Pos { x_bits: x.to_bits(), y_bits: y.to_bits() }
}

fn parts(p: &[&str]) -> Vec<String> {
    p.iter().map(|s| s.to_string()).collect()
}

#[test]
fn space_starts_a_test_and_escape_ends_it() {
    assert_eq!(toggle_test_state(GameState::Edit, true, false), Some(GameState::Test));
    assert_eq!(toggle_test_state(GameState::Edit, false, true), None);
    assert_eq!(toggle_test_state(GameState::Test, false, true), Some(GameState::Edit));
    assert_eq!(toggle_test_state(GameState::Test, true, false), None);
    assert_eq!(toggle_test_state(GameState::Menu, true, true), None);
    assert_eq!(toggle_test_state(GameState::Result, true, true), None);
    assert_eq!(GameState::default(), GameState::Edit);
}

#[test]
fn mode_labels() {
    assert_eq!(mode_label(GameState::Menu), "MENU");
    assert_eq!(mode_label(GameState::Edit), "EDIT");
    assert_eq!(mode_label(GameState::Test), "TEST");
    assert_eq!(mode_label(GameState::Result), "RESULT");
}

#[test]
fn status_labels() {
    assert_eq!(status_label(GameState::Edit, StructureStatus::Stable, TestResult::Won), ("", LabelColor::Red));
    assert_eq!(status_label(GameState::Edit, StructureStatus::Unstable, TestResult::Running), ("UNSTABLE", LabelColor::Red));
    assert_eq!(status_label(GameState::Test, StructureStatus::Unstable, TestResult::Running), ("TESTING…  [ESC]", LabelColor::Yellow));
    assert_eq!(status_label(GameState::Test, StructureStatus::Stable, TestResult::Won), ("WON!  [ESC]", LabelColor::Green));
    assert_eq!(status_label(GameState::Test, StructureStatus::Stable, TestResult::Lost), ("FAILED  [ESC]", LabelColor::Red));
    assert_eq!(status_label(GameState::Menu, StructureStatus::Unstable, TestResult::Lost), ("", LabelColor::Red));
    assert_eq!(StructureStatus::default(), StructureStatus::Stable);
    assert_eq!(TestResult::default(), TestResult::Running);
}

#[test]
fn dof_layout_orders_nodes_and_clamps_anchors() {
    let mut g = TrussGraph::new();
    g.add_node(pos(0.0, 0.0), NodeKind::Free); // 0
    g.add_node(pos(0.0, 0.0), NodeKind::Anchor); // 1
    g.add_node(pos(0.0, 0.0), NodeKind::Free); // 2
    g.add_node(pos(0.0, 0.0), NodeKind::Anchor); // 3
    g.add_node(pos(0.0, 0.0), NodeKind::Free); // 4
    g.remove_node(2);
    let layout = dof_layout(&g);
    assert_eq!(layout.nodes, vec![0, 1, 3, 4]);
    // Node 0 sits at index 0, node 4 at index 3.
    assert_eq!(layout.free_dofs, vec![0, 1, 6, 7]);
}

#[test]
fn dof_layout_of_anchors_only_is_empty() {
    let mut g = TrussGraph::new();
    g.seed_anchors(&vec![pos(0.0, 0.0), pos(1.0, 0.0)]);
    let layout = dof_layout(&g);
    assert_eq!(layout.nodes, vec![0, 1]);
    assert!(layout.free_dofs.is_empty());
    let empty = dof_layout(&TrussGraph::new());
    assert!(empty.nodes.is_empty());
}

#[test]
fn ground_triangulation() {
    assert_eq!(ground_indices(3), vec![0, 3, 1, 1, 3, 4, 1, 4, 2, 2, 4, 5]);
    assert_eq!(ground_indices(2), vec![0, 2, 1, 1, 2, 3]);
    assert!(ground_indices(1).is_empty());
    assert!(ground_indices(0).is_empty());
}

#[test]
fn major_grid_lines_every_fourth() {
    assert!(is_major_line(0));
    assert!(is_major_line(4));
    assert!(is_major_line(-4));
    assert!(is_major_line(-8));
    assert!(!is_major_line(1));
    assert!(!is_major_line(-1));
    assert!(!is_major_line(-6));
    assert!(!is_major_line(62));
}

#[test]
fn resolve_strips_the_assets_directory() {
    let cli = Cli { level: "assets/levels/01_first_gap.level.ron".to_string() };
    let full = parts(&["home", "me", "game", "assets", "levels", "01_first_gap.level.ron"]);
    let assets = parts(&["home", "me", "game", "assets"]);
    let (path, f) = cli.resolve(Some(full.clone()), Ok(assets)).unwrap();
    assert_eq!(path.0, "levels/01_first_gap.level.ron");
    assert_eq!(f, full);
}

#[test]
fn resolve_of_a_file_directly_in_assets() {
    let cli = Cli { level: "x.ron".to_string() };
    let (path, _) = cli.resolve(Some(parts(&["a", "assets", "x.ron"])), Ok(parts(&["a", "assets"]))).unwrap();
    assert_eq!(path.0, "x.ron");
}

#[test]
fn resolve_of_the_assets_directory_itself_is_empty() {
    let cli = Cli { level: "assets".to_string() };
    let (path, _) = cli.resolve(Some(parts(&["a", "assets"])), Ok(parts(&["a", "assets"]))).unwrap();
    assert_eq!(path.0, "");
}

#[test]
fn resolve_compares_whole_components() {
    let cli = Cli { level: "assets2/x.ron".to_string() };
    match cli.resolve(Some(parts(&["a", "assets2", "x.ron"])), Ok(parts(&["a", "assets"]))) {
        Err(CliError::NotUnderAssets { full, assets }) => {
            assert_eq!(full, parts(&["a", "assets2", "x.ron"]));
            assert_eq!(assets, parts(&["a", "assets"]));
        },
        other => panic!("unexpected {:?}", other),
    }
}

#[test]
fn resolve_refuses_a_shorter_path() {
    let cli = Cli { level: "/a".to_string() };
    assert!(matches!(
        cli.resolve(Some(parts(&["a"])), Ok(parts(&["a", "assets"]))),
        Err(CliError::NotUnderAssets { .. })
    ));
}

#[test]
fn resolve_reports_a_missing_level_first() {
    let cli = Cli { level: "nowhere.ron".to_string() };
    match cli.resolve(None, Err(CliError::AssetsDirMissing)) {
        Err(CliError::LevelNotFound { level }) => assert_eq!(level, "nowhere.ron"),
        other => panic!("unexpected {:?}", other),
    }
}

#[test]
fn resolve_passes_on_the_assets_error() {
    let cli = Cli { level: "x.ron".to_string() };
    assert!(matches!(cli.resolve(Some(parts(&["x.ron"])), Err(CliError::AssetsDirMissing)), Err(CliError::AssetsDirMissing)));
    assert!(matches!(cli.resolve(Some(parts(&["x.ron"])), Err(CliError::AssetsDirUnreadable)), Err(CliError::AssetsDirUnreadable)));
}
