use fs_galaxy::agent::AgentState;
use fs_galaxy::fs_model::{FileSystemModel, WalkEntry};
use fs_galaxy::gitignore::GitignoreChecker;
use fs_galaxy::history::HoveredFile;
use fs_galaxy::label::extract_time_from_rfc3339;

#[test]
fn time_of_day_is_cut_out_of_a_timestamp() {
    assert_eq!(extract_time_from_rfc3339("2024-01-15T14:30:45.123Z"), "14:30:45");
    assert_eq!(extract_time_from_rfc3339("2024-01-15T14:30:45+00:00"), "14:30:45");
    assert_eq!(extract_time_from_rfc3339("2024-01-15T14:30:45"), "14:30:45");
    assert_eq!(extract_time_from_rfc3339("2024-01-15T14:30"), "14:30");
    assert_eq!(extract_time_from_rfc3339("2024-01-15T"), "");
    assert_eq!(extract_time_from_rfc3339("T"), "");
    assert_eq!(extract_time_from_rfc3339("no time here"), "no time here");
    assert_eq!(extract_time_from_rfc3339(""), "");
    // only the first T counts
    assert_eq!(extract_time_from_rfc3339("aTbTcdefghijk"), "bTcdefgh");
    assert_eq!(extract_time_from_rfc3339("\u{e4}T\u{f6}\u{fc}:30:45.1"), "\u{f6}\u{fc}:30:45");
}

#[test]
fn failed_ignore_check_counts_as_not_ignored() {
    let checker = GitignoreChecker::new(&"/proj".to_string());
    assert_eq!(checker.root_path, "/proj");
    assert!(checker.is_ignored(Some(true)));
    assert!(!checker.is_ignored(Some(false)));
    assert!(!checker.is_ignored(None));
}

#[test]
fn hovered_node_is_cleared_only_by_its_own_leave() {
    let mut hovered = HoveredFile::new();
    assert_eq!(hovered.0, None);
    hovered.out(3);
    assert_eq!(hovered.0, None);
    hovered.over(3);
    assert_eq!(hovered.0, Some(3));
    hovered.over(5);
    hovered.out(3);
    assert_eq!(hovered.0, Some(5));
    hovered.out(5);
    assert_eq!(hovered.0, None);
}

#[test]
fn moving_state_gives_its_ends() {
    let moving: AgentState<(i32, i32)> =
        AgentState::Moving { from: (1, 2), to: (3, 4), progress: 5, target_node: 6 };
    assert_eq!(moving.moving_from(), Some((1, 2)));
    assert_eq!(moving.moving_to(), Some((3, 4)));
    let idle: AgentState<(i32, i32)> = AgentState::Idle { timer: 0 };
    assert_eq!(idle.moving_from(), None);
    assert_eq!(idle.moving_to(), None);
}

#[test]
fn place_among_siblings() {
    let entry = |path: &str, is_dir: bool| WalkEntry {
        path: path.to_string(),
        name: path.rsplit('/').next().unwrap().to_string(),
        is_dir,
    };
    let mut model = FileSystemModel::build_initial(&vec![
        entry("/p", true),
        entry("/p/a", false),
        entry("/p/b", false),
        entry("/p/c", false),
    ]);
    assert_eq!(model.index_in_parent(0), 0);
    assert_eq!(model.index_in_parent(1), 0);
    assert_eq!(model.index_in_parent(2), 1);
    assert_eq!(model.index_in_parent(3), 2);
    model.remove_node(&"/p/a".to_string());
    assert_eq!(model.index_in_parent(2), 0);
    assert_eq!(model.index_in_parent(3), 1);
    // a removed node is no longer listed
    assert_eq!(model.index_in_parent(1), 0);
}
