use fs_galaxy::fs_model::{FileSystemModel, WalkEntry};
use fs_galaxy::reconcile::{EventOutcome, ModelChange, VisiblePath};
use fs_galaxy::watcher::{ChangeKind, FileSystemEvent};

fn entry(path: &str, name: &str, is_dir: bool) -> WalkEntry {
    WalkEntry { path: path.to_string(), name: name.to_string(), is_dir }
}

fn visible(path: &str, is_dir: bool) -> VisiblePath {
    VisiblePath { path: path.to_string(), is_dir }
}

fn index_of(model: &FileSystemModel, path: &str) -> Option<usize> {
    model.get_node_by_path(&path.to_string()).map(|(index, _)| index)
}

fn project_with_build() -> FileSystemModel {
    FileSystemModel::build_initial(&vec![
        entry("/proj", "proj", true),
        entry("/proj/build", "build", true),
        entry("/proj/build/out.o", "out.o", false),
        entry("/proj/build/deep", "deep", true),
        entry("/proj/build/deep/x.o", "x.o", false),
        entry("/proj/src", "src", true),
        entry("/proj/src/main.rs", "main.rs", false),
        entry("/proj/.gitignore", ".gitignore", false),
    ])
}

#[test]
fn newly_ignored_directory_is_removed() {
    let mut model = project_with_build();
    let src = index_of(&model, "/proj/src").unwrap();
    let main = index_of(&model, "/proj/src/main.rs").unwrap();
    let ignore = index_of(&model, "/proj/.gitignore").unwrap();
    let done = model.reconcile(&vec![
        visible("/proj", true),
        visible("/proj/src", true),
        visible("/proj/src/main.rs", false),
        visible("/proj/.gitignore", false),
    ]);
    assert_eq!(done.removed, vec![1, 2, 3, 4]);
    assert!(done.added.is_empty());
    assert_eq!(index_of(&model, "/proj/build"), None);
    assert_eq!(index_of(&model, "/proj/build/out.o"), None);
    assert_eq!(index_of(&model, "/proj/build/deep"), None);
    assert_eq!(index_of(&model, "/proj/build/deep/x.o"), None);
    assert_eq!(index_of(&model, "/proj"), Some(0));
    assert_eq!(index_of(&model, "/proj/src"), Some(src));
    assert_eq!(index_of(&model, "/proj/src/main.rs"), Some(main));
    assert_eq!(index_of(&model, "/proj/.gitignore"), Some(ignore));
    assert_eq!(model.total_nodes(), 8);
    assert_eq!(model.nodes()[0].children, vec![src, ignore]);
    assert!(model.nodes()[1].children.is_empty());
    assert!(model.nodes()[3].children.is_empty());
}

#[test]
fn newly_visible_paths_are_added_in_walk_order() {
    let mut model = FileSystemModel::build_initial(&vec![
        entry("/proj", "proj", true),
        entry("/proj/src", "src", true),
    ]);
    let done = model.reconcile(&vec![
        visible("/proj", true),
        visible("/proj/src", true),
        visible("/proj/target", true),
        visible("/proj/target/app", false),
    ]);
    assert!(done.removed.is_empty());
    assert_eq!(done.added, vec![2, 3]);
    assert_eq!(model.nodes()[2].path, "/proj/target");
    assert_eq!(model.nodes()[2].name, "target");
    assert!(model.nodes()[2].is_dir);
    assert_eq!(model.nodes()[2].depth, 1);
    assert_eq!(model.nodes()[3].parent, Some(2));
    assert_eq!(model.nodes()[3].depth, 2);
    assert_eq!(model.nodes()[0].children, vec![1, 2]);
}

#[test]
fn reconcile_removes_and_adds_in_one_pass() {
    let mut model = project_with_build();
    let done = model.reconcile(&vec![
        visible("/proj", true),
        visible("/proj/src", true),
        visible("/proj/src/main.rs", false),
        visible("/proj/src/lib.rs", false),
        visible("/proj/src/lib.rs", false),
    ]);
    assert_eq!(done.removed, vec![1, 2, 3, 4, 7]);
    assert_eq!(done.added, vec![8]);
    assert_eq!(index_of(&model, "/proj/src/lib.rs"), Some(8));
    assert_eq!(model.nodes()[8].parent, Some(5));
    assert_eq!(index_of(&model, "/proj/.gitignore"), None);
}

#[test]
fn reconcile_with_the_same_walk_changes_nothing() {
    let mut model = project_with_build();
    let done = model.reconcile(&vec![
        visible("/proj/.gitignore", false),
        visible("/proj/src/main.rs", false),
        visible("/proj/src", true),
        visible("/proj/build/deep/x.o", false),
        visible("/proj/build/deep", true),
        visible("/proj/build/out.o", false),
        visible("/proj/build", true),
        visible("/proj", true),
    ]);
    assert!(done.removed.is_empty());
    assert!(done.added.is_empty());
    assert_eq!(model.total_nodes(), 8);
    assert_eq!(model.nodes()[0].children, vec![1, 5, 7]);
}

#[test]
fn reconcile_with_an_empty_walk_unbinds_everything() {
    let mut model = project_with_build();
    let done = model.reconcile(&Vec::new());
    assert_eq!(done.removed, vec![0, 1, 2, 3, 4, 5, 6, 7]);
    assert!(done.added.is_empty());
    assert_eq!(model.total_nodes(), 8);
    for node in model.nodes() {
        assert!(node.children.is_empty());
        assert!(model.get_node_by_path(&node.path).is_none());
    }
}

#[test]
fn reconcile_passes_over_removed_slots() {
    let mut model = project_with_build();
    model.remove_node(&"/proj/build/out.o".to_string());
    let done = model.reconcile(&vec![
        visible("/proj", true),
        visible("/proj/src", true),
        visible("/proj/src/main.rs", false),
    ]);
    assert_eq!(done.removed, vec![1, 3, 4, 7]);
}

#[test]
fn created_event_adds_a_node() {
    let mut model = project_with_build();
    let event = FileSystemEvent::Created("/proj/src/lib.rs".to_string(), false);
    let outcome = model.apply_event(&event, false);
    assert_eq!(outcome, EventOutcome { change: ModelChange::Added(8), gitignore_changed: false });
    assert_eq!(index_of(&model, "/proj/src/lib.rs"), Some(8));
    // the watcher may report a creation twice
    let again = model.apply_event(&event, false);
    assert_eq!(again, EventOutcome { change: ModelChange::Unchanged, gitignore_changed: false });
    assert_eq!(model.total_nodes(), 9);
}

#[test]
fn created_event_for_an_ignored_path_is_skipped() {
    let mut model = project_with_build();
    let event = FileSystemEvent::Created("/proj/target/app".to_string(), false);
    let outcome = model.apply_event(&event, true);
    assert_eq!(outcome, EventOutcome { change: ModelChange::Unchanged, gitignore_changed: false });
    assert_eq!(model.total_nodes(), 8);
    assert_eq!(index_of(&model, "/proj/target/app"), None);
}

#[test]
fn deleted_event_removes_a_node() {
    let mut model = project_with_build();
    let event = FileSystemEvent::Deleted("/proj/src/main.rs".to_string());
    assert_eq!(
        model.apply_event(&event, false),
        EventOutcome { change: ModelChange::Removed(6), gitignore_changed: false }
    );
    assert_eq!(
        model.apply_event(&event, false),
        EventOutcome { change: ModelChange::Unchanged, gitignore_changed: false }
    );
    // whether the path is ignored plays no part in a deletion
    let other = FileSystemEvent::Deleted("/proj/build/out.o".to_string());
    assert_eq!(
        model.apply_event(&other, true),
        EventOutcome { change: ModelChange::Removed(2), gitignore_changed: false }
    );
}

#[test]
fn modified_event_leaves_the_model_alone() {
    let mut model = project_with_build();
    let event = FileSystemEvent::Modified("/proj/src/main.rs".to_string());
    assert_eq!(
        model.apply_event(&event, false),
        EventOutcome { change: ModelChange::Unchanged, gitignore_changed: false }
    );
    assert_eq!(model.total_nodes(), 8);
    assert_eq!(index_of(&model, "/proj/src/main.rs"), Some(6));
}

#[test]
fn any_event_on_a_gitignore_file_asks_for_reconciliation() {
    let mut model = project_with_build();
    let modified = FileSystemEvent::Modified("/proj/.gitignore".to_string());
    assert_eq!(
        model.apply_event(&modified, false),
        EventOutcome { change: ModelChange::Unchanged, gitignore_changed: true }
    );
    let created = FileSystemEvent::Created("/proj/src/.gitignore".to_string(), false);
    assert_eq!(
        model.apply_event(&created, false),
        EventOutcome { change: ModelChange::Added(8), gitignore_changed: true }
    );
    let ignored = FileSystemEvent::Created("/proj/build/.gitignore".to_string(), false);
    assert_eq!(
        model.apply_event(&ignored, true),
        EventOutcome { change: ModelChange::Unchanged, gitignore_changed: true }
    );
    let deleted = FileSystemEvent::Deleted("/proj/.gitignore".to_string());
    assert_eq!(
        model.apply_event(&deleted, false),
        EventOutcome { change: ModelChange::Removed(7), gitignore_changed: true }
    );
}

#[test]
fn raw_notifications_become_events() {
    let path = "/proj/a".to_string();
    match FileSystemEvent::from_change(ChangeKind::Create, path.clone(), true) {
        Some(FileSystemEvent::Created(p, is_dir)) => {
            assert_eq!(p, path);
            assert!(is_dir);
        }
        other => panic!("unexpected {:?}", other),
    }
    match FileSystemEvent::from_change(ChangeKind::Remove, path.clone(), true) {
        Some(FileSystemEvent::Deleted(p)) => assert_eq!(p, path),
        other => panic!("unexpected {:?}", other),
    }
    match FileSystemEvent::from_change(ChangeKind::Modify, path.clone(), false) {
        Some(FileSystemEvent::Modified(p)) => assert_eq!(p, path),
        other => panic!("unexpected {:?}", other),
    }
    assert!(FileSystemEvent::from_change(ChangeKind::Other, path.clone(), false).is_none());
    let event = FileSystemEvent::Deleted(path.clone());
    assert_eq!(event.path(), &path);
}
