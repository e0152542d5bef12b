use fs_galaxy::fs_model::{FileSystemModel, WalkEntry};
use fs_galaxy::path_index::PathIndex;
use fs_galaxy::paths::{display_name, is_gitignore_file, is_gitignore_name};

fn entry(path: &str, name: &str, is_dir: bool) -> WalkEntry {
    WalkEntry { path: path.to_string(), name: name.to_string(), is_dir }
}

fn project() -> FileSystemModel {
    FileSystemModel::build_initial(&vec![
        entry("/proj", "proj", true),
        entry("/proj/src", "src", true),
        entry("/proj/src/main.rs", "main.rs", false),
        entry("/proj/README.md", "README.md", false),
    ])
}

fn index_of(model: &FileSystemModel, path: &str) -> Option<usize> {
    model.get_node_by_path(&path.to_string()).map(|(index, _)| index)
}

/// Checks by hand what the model promises of itself.
fn assert_consistent(model: &FileSystemModel) {
    for (i, node) in model.nodes().iter().enumerate() {
        match node.parent {
            Some(p) => {
                assert!(p < i);
                assert_eq!(node.depth, model.nodes()[p].depth + 1);
            }
            None => assert_eq!(node.depth, 0),
        }
        let mut seen = node.children.clone();
        seen.sort();
        seen.dedup();
        assert_eq!(seen.len(), node.children.len());
        for &c in &node.children {
            assert_eq!(model.nodes()[c].parent, Some(i));
            assert_eq!(index_of(model, &model.nodes()[c].path), Some(c));
        }
        if let Some(bound) = index_of(model, &node.path) {
            assert_eq!(model.nodes()[bound].path, node.path);
        }
    }
}

#[test]
fn new_model_is_empty() {
    let model = FileSystemModel::new();
    assert_eq!(model.total_nodes(), 0);
    assert!(model.root().is_none());
    assert!(model.nodes().is_empty());
    assert!(model.get_node(0).is_none());
    assert!(model.get_node_by_path(&"/proj".to_string()).is_none());
}

#[test]
fn build_initial_links_each_node_below_its_parent() {
    let model = project();
    assert_eq!(model.total_nodes(), 4);
    assert_eq!(model.root(), Some(0));
    assert_eq!(model.nodes()[0].depth, 0);
    assert_eq!(model.nodes()[0].parent, None);
    assert_eq!(model.nodes()[0].children, vec![1, 3]);
    assert_eq!(model.nodes()[1].depth, 1);
    assert_eq!(model.nodes()[1].parent, Some(0));
    assert_eq!(model.nodes()[1].children, vec![2]);
    assert_eq!(model.nodes()[2].depth, 2);
    assert_eq!(model.nodes()[2].parent, Some(1));
    assert_eq!(model.nodes()[2].name, "main.rs");
    assert!(!model.nodes()[2].is_dir);
    assert_eq!(model.nodes()[3].depth, 1);
    assert_eq!(model.nodes()[3].parent, Some(0));
    assert_consistent(&model);
}

#[test]
fn build_initial_keeps_the_names_of_the_walk() {
    let model = FileSystemModel::build_initial(&vec![entry("/", "/", true), entry("/etc", "etc", true)]);
    assert_eq!(model.nodes()[0].name, "/");
    assert_eq!(model.nodes()[1].name, "etc");
    assert_eq!(model.nodes()[1].parent, Some(0));
    assert_eq!(model.nodes()[1].depth, 1);
}

#[test]
fn build_initial_passes_over_a_repeated_path() {
    let model = FileSystemModel::build_initial(&vec![
        entry("/proj", "proj", true),
        entry("/proj/a", "a", false),
        entry("/proj/a", "again", true),
    ]);
    assert_eq!(model.total_nodes(), 2);
    assert_eq!(model.nodes()[1].name, "a");
    assert_eq!(model.nodes()[0].children, vec![1]);
}

#[test]
fn watched_directory_scenario() {
    // two files below the root, both at depth 1
    let mut model = FileSystemModel::build_initial(&vec![
        entry("/proj/src", "src", true),
        entry("/proj/src/main.rs", "main.rs", false),
        entry("/proj/src/README.md", "README.md", false),
    ]);
    assert_eq!(model.total_nodes(), 3);
    let main = index_of(&model, "/proj/src/main.rs").unwrap();
    let readme = index_of(&model, "/proj/src/README.md").unwrap();
    assert_eq!(model.nodes()[main].depth, 1);
    assert_eq!(model.nodes()[readme].depth, 1);

    let lib = model.add_node("/proj/src/lib.rs".to_string(), false).unwrap();
    assert_eq!(lib, 3);
    assert_eq!(model.nodes()[lib].depth, 1);
    assert_eq!(model.nodes()[lib].parent, model.nodes()[main].parent);

    assert_eq!(model.remove_node(&"/proj/src/README.md".to_string()), Some(readme));
    assert_eq!(index_of(&model, "/proj/src/README.md"), None);
    assert_eq!(index_of(&model, "/proj/src/main.rs"), Some(main));
    assert_consistent(&model);
}

#[test]
fn created_file_joins_its_siblings() {
    let mut model = project();
    let main = index_of(&model, "/proj/src/main.rs").unwrap();
    let readme = index_of(&model, "/proj/README.md").unwrap();
    let lib = model.add_node("/proj/src/lib.rs".to_string(), false).unwrap();
    assert_eq!(lib, 4);
    assert_eq!(model.nodes()[lib].depth, model.nodes()[main].depth);
    assert_eq!(model.nodes()[lib].parent, model.nodes()[main].parent);
    assert_eq!(model.nodes()[lib].name, "lib.rs");
    assert_eq!(model.nodes()[1].children, vec![main, lib]);

    assert_eq!(model.remove_node(&"/proj/README.md".to_string()), Some(readme));
    assert_eq!(index_of(&model, "/proj/README.md"), None);
    assert_eq!(index_of(&model, "/proj/src/main.rs"), Some(main));
    assert_eq!(model.nodes()[0].children, vec![1]);
    assert_consistent(&model);
}

#[test]
fn adding_a_path_twice_changes_nothing() {
    let mut model = project();
    let first = model.add_node("/proj/notes.txt".to_string(), false);
    assert_eq!(first, Some(4));
    let children = model.nodes()[0].children.clone();
    let second = model.add_node("/proj/notes.txt".to_string(), true);
    assert_eq!(second, None);
    assert_eq!(model.total_nodes(), 5);
    assert_eq!(index_of(&model, "/proj/notes.txt"), Some(4));
    assert!(!model.nodes()[4].is_dir);
    assert_eq!(model.nodes()[0].children, children);
    assert_eq!(model.root(), Some(0));
}

#[test]
fn a_path_without_a_bound_parent_becomes_the_root() {
    let mut model = project();
    let stray = model.add_node("/elsewhere/file.txt".to_string(), false).unwrap();
    assert_eq!(model.nodes()[stray].parent, None);
    assert_eq!(model.nodes()[stray].depth, 0);
    assert_eq!(model.root(), Some(stray));
    let top = model.add_node("/".to_string(), true).unwrap();
    assert_eq!(model.nodes()[top].name, "");
    assert_eq!(model.nodes()[top].parent, None);
    assert_eq!(model.root(), Some(top));
    assert_consistent(&model);
}

#[test]
fn removed_slot_stays_and_is_not_used_again() {
    let mut model = project();
    let src = index_of(&model, "/proj/src").unwrap();
    let main = index_of(&model, "/proj/src/main.rs").unwrap();
    assert_eq!(model.remove_node(&"/proj/src".to_string()), Some(src));
    assert_eq!(model.total_nodes(), 4);
    assert_eq!(model.get_node(src).unwrap().path, "/proj/src");
    assert!(model.get_node(src).unwrap().children.is_empty());
    assert_eq!(model.nodes()[0].children, vec![3]);
    // the child keeps its slot, its index and its link to the old slot
    assert_eq!(index_of(&model, "/proj/src/main.rs"), Some(main));
    assert_eq!(model.nodes()[main].parent, Some(src));

    assert_eq!(model.remove_node(&"/proj/src".to_string()), None);

    let again = model.add_node("/proj/src".to_string(), true).unwrap();
    assert_eq!(again, 4);
    assert_eq!(model.nodes()[again].depth, 1);
    assert!(model.nodes()[again].children.is_empty());
    let lib = model.add_node("/proj/src/lib.rs".to_string(), false).unwrap();
    assert_eq!(model.nodes()[lib].parent, Some(again));
    assert_eq!(model.nodes()[lib].depth, 2);
    assert_consistent(&model);
}

#[test]
fn lookups_miss_quietly() {
    let model = project();
    assert!(model.get_node(4).is_none());
    assert!(model.get_node(usize::MAX).is_none());
    assert!(model.get_node_by_path(&"/proj/missing".to_string()).is_none());
    let (index, node) = model.get_node_by_path(&"/proj/README.md".to_string()).unwrap();
    assert_eq!(index, 3);
    assert_eq!(node.path, "/proj/README.md");
    assert_eq!(model.get_node(3).unwrap().name, "README.md");
}

#[test]
fn deep_chain_has_rising_depths() {
    let mut model = FileSystemModel::new();
    let mut path = String::from("/a");
    model.add_node(path.clone(), true);
    for level in 1..20usize {
        path.push_str("/d");
        let index = model.add_node(path.clone(), true).unwrap();
        assert_eq!(model.nodes()[index].depth, level);
        assert_eq!(model.nodes()[index].parent, Some(index - 1));
    }
    assert_eq!(model.root(), Some(0));
    assert_consistent(&model);
}

#[test]
fn add_named_takes_the_given_name() {
    let mut model = FileSystemModel::new();
    assert_eq!(model.add_named("/proj".to_string(), "shown".to_string(), true), Some(0));
    assert_eq!(model.add_named("/proj/x".to_string(), "x".to_string(), false), Some(1));
    assert_eq!(model.add_named("/proj/x".to_string(), "again".to_string(), false), None);
    assert_eq!(model.nodes()[0].name, "shown");
    assert_eq!(model.nodes()[0].children, vec![1]);
    assert_eq!(model.nodes()[1].name, "x");
    assert_eq!(model.nodes()[1].parent, Some(0));
    assert_eq!(model.nodes()[1].depth, 1);
    assert_eq!(model.root(), Some(0));
}

#[test]
fn display_name_is_the_final_component() {
    assert_eq!(display_name(&"/proj/src/main.rs".to_string()), "main.rs");
    assert_eq!(display_name(&"relative/dir/".to_string()), "dir");
    assert_eq!(display_name(&"/".to_string()), "");
    assert_eq!(display_name(&"..".to_string()), "");
}

#[test]
fn gitignore_files_are_told_by_name() {
    assert!(is_gitignore_file(&"/proj/.gitignore".to_string()));
    assert!(is_gitignore_file(&".gitignore".to_string()));
    assert!(is_gitignore_file(&"/proj/sub/.gitignore".to_string()));
    assert!(!is_gitignore_file(&"/proj/.gitignore.bak".to_string()));
    assert!(!is_gitignore_file(&"/proj/gitignore".to_string()));
    assert!(!is_gitignore_file(&"/proj/.gitignore/inner".to_string()));
    assert!(!is_gitignore_file(&"/".to_string()));
}

#[test]
fn gitignore_is_told_by_the_final_component() {
    assert!(is_gitignore_name(&Some(".gitignore".to_string())));
    assert!(!is_gitignore_name(&Some(".gitignore ".to_string())));
    assert!(!is_gitignore_name(&Some("".to_string())));
    assert!(!is_gitignore_name(&None));
}

#[test]
fn add_below_goes_by_the_given_parent() {
    let mut model = FileSystemModel::new();
    assert_eq!(model.add_below("a".to_string(), "a".to_string(), true, None), Some(0));
    // the parent is whatever the caller names, bound or not
    assert_eq!(
        model.add_below("x/y".to_string(), "y".to_string(), false, Some("a".to_string())),
        Some(1)
    );
    assert_eq!(model.nodes()[1].parent, Some(0));
    assert_eq!(model.nodes()[1].depth, 1);
    assert_eq!(
        model.add_below("a/b".to_string(), "b".to_string(), false, Some("nowhere".to_string())),
        Some(2)
    );
    assert_eq!(model.nodes()[2].parent, None);
    assert_eq!(model.nodes()[2].depth, 0);
    assert_eq!(model.root(), Some(2));
    assert_eq!(
        model.add_below("a/b".to_string(), "again".to_string(), true, Some("a".to_string())),
        None
    );
    assert_eq!(model.nodes()[0].children, vec![1]);
    assert_consistent(&model);
}

#[test]
fn path_index_binds_and_unbinds() {
    let mut index = PathIndex::new();
    assert_eq!(index.get(&"a".to_string()), None);
    assert!(!index.contains_key(&"a".to_string()));
    index.insert("a".to_string(), 1);
    index.insert("b".to_string(), 2);
    index.insert("c".to_string(), 3);
    assert_eq!(index.get(&"a".to_string()), Some(1));
    assert_eq!(index.get(&"b".to_string()), Some(2));
    index.insert("b".to_string(), 20);
    assert_eq!(index.get(&"b".to_string()), Some(20));
    assert_eq!(index.remove(&"a".to_string()), Some(1));
    assert_eq!(index.remove(&"a".to_string()), None);
    assert_eq!(index.get(&"a".to_string()), None);
    assert_eq!(index.get(&"b".to_string()), Some(20));
    assert_eq!(index.get(&"c".to_string()), Some(3));
    assert!(index.contains_key(&"c".to_string()));
}
