use rand::rngs::StdRng;
use rand::SeedableRng;

use fs_galaxy::mock::{
    check_interval_ms, concurrent_sessions_from, explanation_candidates,
    explanation_candidates_for, generate_action_explanation, initial_delay_ms, long_pause_from,
    max_concurrent_sessions, next_tool_use, pick_delay_ms, pick_model, pick_tool, prefers_read,
    session_length, session_length_from, session_name, thinks_long, wind_down_ms,
};
use fs_galaxy::text::{decimal, phrase, reads_as};

fn candidates(tool: &str, path: &str, action: u32, total: u32) -> Vec<String> {
    explanation_candidates(&tool.to_string(), &path.to_string(), action, total)
}

#[test]
fn early_reads_are_explained_as_exploring() {
    assert_eq!(
        candidates("Read", "/proj/src/main.rs", 0, 10),
        vec![
            "Reading main.rs to understand the codebase structure",
            "Scanning main.rs to identify dependencies",
            "Reviewing main.rs to understand the current implementation",
            "Checking main.rs for existing patterns and conventions",
            "Examining main.rs to locate the entry point",
        ]
    );
    // action 2 of 10 is still early, action 3 of 10 is not
    assert_eq!(candidates("Read", "a.txt", 2, 10).len(), 5);
    assert_eq!(
        candidates("Read", "a.txt", 3, 10),
        vec![
            "Reading a.txt to verify the changes needed",
            "Checking a.txt before making modifications",
            "Reviewing a.txt to ensure compatibility",
            "Analyzing a.txt to understand the impact area",
        ]
    );
    assert_eq!(candidates("Read", "a.txt", 0, 0).len(), 4);
    assert_eq!(candidates("Read", "a.txt", u32::MAX, u32::MAX).len(), 4);
}

#[test]
fn writes_and_edits_are_explained_by_the_kind_of_file() {
    assert_eq!(
        candidates("Write", "src/lib.rs", 5, 9),
        vec![
            "Writing lib.rs to add new functionality",
            "Creating lib.rs with the required implementation",
            "Writing lib.rs to introduce the new module",
        ]
    );
    assert_eq!(
        candidates("Write", "Cargo.toml", 5, 9),
        vec![
            "Writing Cargo.toml to update configuration",
            "Creating Cargo.toml with new settings",
            "Writing Cargo.toml to document the changes",
        ]
    );
    assert_eq!(
        candidates("Edit", "/x/agent.rs", 1, 4),
        vec![
            "Editing agent.rs to fix the identified issue",
            "Updating agent.rs to improve the implementation",
            "Modifying agent.rs to add the requested feature",
            "Refactoring agent.rs to follow best practices",
            "Editing agent.rs to integrate the new functionality",
        ]
    );
    assert_eq!(
        candidates("Edit", "notes.md", 1, 4),
        vec![
            "Editing notes.md to update configuration",
            "Updating notes.md to fix inconsistencies",
            "Modifying notes.md to align with requirements",
        ]
    );
    // a file named "rs" has no extension
    assert_eq!(candidates("Edit", "/x/rs", 1, 4).len(), 3);
}

#[test]
fn other_tools_are_named_with_the_file() {
    assert_eq!(candidates("Grep", "/proj/src/main.rs", 1, 4), vec!["Grep main.rs"]);
    assert_eq!(candidates("Bash", "/", 1, 4), vec!["Bash file"]);
    assert_eq!(candidates("", "..", 1, 4), vec![" file"]);
}

#[test]
fn explanation_is_one_of_the_candidates() {
    let mut rng = StdRng::seed_from_u64(1);
    let mut seen = std::collections::HashSet::new();
    for _ in 0..200 {
        let text = generate_action_explanation(
            &"Edit".to_string(),
            &"src/lib.rs".to_string(),
            3,
            8,
            &mut rng,
        );
        assert!(candidates("Edit", "src/lib.rs", 3, 8).contains(&text));
        seen.insert(text);
    }
    assert_eq!(seen.len(), 5);
}

#[test]
fn random_bounds_hold() {
    let mut rng = StdRng::seed_from_u64(2);
    for _ in 0..500 {
        assert!((4..=12).contains(&session_length(&mut rng)));
        assert!((1000..4000).contains(&wind_down_ms(&mut rng)));
        assert!((2..=4).contains(&max_concurrent_sessions(&mut rng)));
        assert!(initial_delay_ms(&mut rng) < 2000);
        assert!((1000..4000).contains(&check_interval_ms(&mut rng)));
        let pause = pick_delay_ms(&mut rng);
        assert!([200, 400, 600, 900, 1500, 2500, 4000, 6000].contains(&pause));
        let models = vec!["large".to_string(), "small".to_string()];
        assert!(models.contains(&pick_model(&models, &mut rng)));
    }
}

#[test]
fn draws_are_turned_into_bounds() {
    assert_eq!(session_length_from(0), 4);
    assert_eq!(session_length_from(8), 12);
    assert_eq!(session_length_from(9), 4);
    assert_eq!(session_length_from(u32::MAX), 4 + u32::MAX % 9);
    assert_eq!(long_pause_from(0), 1000);
    assert_eq!(long_pause_from(2999), 3999);
    assert_eq!(long_pause_from(3000), 1000);
    assert_eq!(long_pause_from(u64::MAX), 1000 + u64::MAX % 3000);
    assert_eq!(concurrent_sessions_from(0), 2);
    assert_eq!(concurrent_sessions_from(2), 4);
    assert_eq!(concurrent_sessions_from(3), 2);
    assert!(thinks_long(0));
    assert!(thinks_long(29));
    assert!(!thinks_long(30));
    assert!(!thinks_long(99));
}

#[test]
fn reads_are_preferred_in_the_first_third_only() {
    // 9 actions: the first third is actions 0, 1 and 2
    assert!(prefers_read(0, 9, 0));
    assert!(prefers_read(2, 9, 84));
    assert!(!prefers_read(2, 9, 85));
    assert!(!prefers_read(3, 9, 0));
    // 4 actions: the first third is action 0
    assert!(prefers_read(0, 4, 10));
    assert!(!prefers_read(1, 4, 10));
    assert!(!prefers_read(0, 2, 0));
    assert!(!prefers_read(0, 0, 0));
}

#[test]
fn explanations_by_name_and_kind() {
    let list = |tool: &str, name: &str, rust: bool, exploring: bool| {
        explanation_candidates_for(&tool.to_string(), &name.to_string(), rust, exploring)
    };
    assert_eq!(list("Read", "x", false, true).len(), 5);
    assert_eq!(list("Read", "x", true, false).len(), 4);
    assert_eq!(list("Write", "x", true, false)[2], "Writing x to introduce the new module");
    assert_eq!(list("Write", "x", false, true)[1], "Creating x with new settings");
    assert_eq!(list("Edit", "x", true, true)[3], "Refactoring x to follow best practices");
    assert_eq!(list("Edit", "x", false, false)[2], "Modifying x to align with requirements");
    assert_eq!(list("Glob", "", true, true), vec!["Glob "]);
}

#[test]
fn random_draws_vary() {
    let mut rng = StdRng::seed_from_u64(5);
    let mut lengths = std::collections::HashSet::new();
    let mut wind_downs = std::collections::HashSet::new();
    let mut delays = std::collections::HashSet::new();
    let mut pauses = std::collections::HashSet::new();
    for _ in 0..300 {
        lengths.insert(session_length(&mut rng));
        wind_downs.insert(wind_down_ms(&mut rng));
        delays.insert(initial_delay_ms(&mut rng));
        pauses.insert(pick_delay_ms(&mut rng));
    }
    assert_eq!(lengths.len(), 9);
    assert!(wind_downs.len() > 100);
    assert!(delays.len() > 100);
    assert_eq!(pauses.len(), 8);
}

#[test]
fn early_actions_mostly_read() {
    let mut rng = StdRng::seed_from_u64(3);
    let mut early_reads = 0;
    let mut late_reads = 0;
    for _ in 0..1000 {
        let early = pick_tool(0, 9, &mut rng);
        assert!(["Read", "Write", "Edit"].contains(&early.as_str()));
        if early == "Read" {
            early_reads += 1;
        }
        let late = pick_tool(3, 9, &mut rng);
        assert!(["Read", "Write", "Edit"].contains(&late.as_str()));
        if late == "Read" {
            late_reads += 1;
        }
    }
    assert!(early_reads > 800);
    assert!(early_reads < 1000);
    assert!(late_reads < 500);
}

#[test]
fn next_step_fits_together() {
    let files = vec!["/proj/src/main.rs".to_string(), "/proj/README.md".to_string()];
    let mut rng = StdRng::seed_from_u64(4);
    for action in 0..12 {
        let step = next_tool_use(&files, action, 12, &mut rng);
        assert!(files.contains(&step.file_path));
        assert!(["Read", "Write", "Edit"].contains(&step.tool_name.as_str()));
        assert!(candidates(&step.tool_name, &step.file_path, action, 12).contains(&step.reason));
        assert!([200, 400, 600, 900, 1500, 2500, 4000, 6000].contains(&step.delay_ms));
    }
}

#[test]
fn sessions_are_named_by_number() {
    assert_eq!(session_name(1), "mock-session-1");
    assert_eq!(session_name(0), "mock-session-0");
    assert_eq!(session_name(42), "mock-session-42");
    assert_eq!(session_name(u32::MAX), "mock-session-4294967295");
}

#[test]
fn numbers_are_written_in_decimal() {
    for n in [0u32, 7, 9, 10, 11, 99, 100, 101, 1_000_000, 4_294_967_295] {
        assert_eq!(decimal(n), n.to_string());
    }
}

#[test]
fn text_helpers() {
    assert!(reads_as(&"rs".to_string(), "rs"));
    assert!(!reads_as(&"rs ".to_string(), "rs"));
    assert!(!reads_as(&"".to_string(), "rs"));
    assert_eq!(phrase("a ", &"b".to_string(), " c"), "a b c");
    assert_eq!(phrase("", &"".to_string(), ""), "");
}
