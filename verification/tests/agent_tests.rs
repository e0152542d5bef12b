use std::collections::hash_map::DefaultHasher;
use std::collections::VecDeque;
use std::hash::{Hash, Hasher};

use fs_galaxy::agent::{
    Agent, AgentAction, AgentArrivedEvent, AgentState, DESPAWN_DURATION, IDLE_TIMEOUT,
    MOVE_DURATION, SPAWN_DURATION,
};
use fs_galaxy::color::{color_from_hash, generate_agent_color, hash_session_id, AgentColor};
use fs_galaxy::label::{describe_action, label_for, tool_verb};

type Pos = (f32, f32, f32);

const ORIGIN: Pos = (0.0, 15.0, 0.0);
const FAR: Pos = (8.0, 0.0, -3.5);

fn idle_agent(queue: Vec<AgentAction<Pos>>) -> Agent<Pos> {
    let mut agent = Agent::new("s1".to_string(), VecDeque::from(queue), ORIGIN);
    agent.state = AgentState::Idle { timer: 0 };
    agent
}

fn move_to(position: Pos, node_index: usize) -> AgentAction<Pos> {
    AgentAction::MoveTo { position, node_index }
}

#[test]
fn new_agent_is_spawning() {
    let agent: Agent<Pos> = Agent::new("s1".to_string(), VecDeque::new(), ORIGIN);
    assert_eq!(agent.session_id, "s1");
    assert!(matches!(agent.state, AgentState::Spawning { timer: 0 }));
    assert!(agent.event_queue.is_empty());
    assert_eq!(agent.current_target_file, None);
    assert_eq!(agent.current_action, None);
    assert_eq!(agent.position, ORIGIN);
    assert_eq!(agent.color, generate_agent_color("s1"));
    assert!(!agent.is_despawning());
    assert!(!agent.is_finished());
}

#[test]
fn spawning_ends_after_the_spawn_duration() {
    let mut agent: Agent<Pos> = Agent::new("s1".to_string(), VecDeque::new(), ORIGIN);
    assert_eq!(agent.step(200_000), None);
    assert!(matches!(agent.state, AgentState::Spawning { timer: 200_000 }));
    assert_eq!(agent.step(299_999), None);
    assert!(matches!(agent.state, AgentState::Spawning { timer: 499_999 }));
    assert_eq!(agent.step(1), None);
    assert!(matches!(agent.state, AgentState::Idle { timer: 0 }));
    assert_eq!(SPAWN_DURATION, 500_000);
}

#[test]
fn idle_agent_with_one_move_arrives_once() {
    let mut agent = idle_agent(vec![move_to(FAR, 42)]);
    agent.current_action = Some("Reading main.rs".to_string());

    // the first step takes the action and starts the move at progress 0
    assert_eq!(agent.step(16_000), None);
    match &agent.state {
        AgentState::Moving { from, to, progress, target_node } => {
            assert_eq!(*from, ORIGIN);
            assert_eq!(*to, FAR);
            assert_eq!(*progress, 0);
            assert_eq!(*target_node, 42);
        }
        other => panic!("unexpected {:?}", other),
    }
    assert!(agent.event_queue.is_empty());
    assert_eq!(agent.current_target_file, Some(42));

    // progress rises with each step and the arrival comes exactly once
    let mut arrivals = Vec::new();
    let mut last = 0;
    let mut steps = 0;
    while let AgentState::Moving { .. } = agent.state {
        if let Some(event) = agent.step(100_000) {
            arrivals.push(event);
        }
        steps += 1;
        if let AgentState::Moving { progress, .. } = agent.state {
            assert!(progress > last);
            assert_eq!(progress, steps * 100_000);
            assert!(progress < MOVE_DURATION);
            last = progress;
        }
    }
    assert_eq!(steps, 12);
    assert_eq!(arrivals, vec![AgentArrivedEvent { node_index: 42 }]);
    assert!(matches!(agent.state, AgentState::Idle { timer: 0 }));
    assert_eq!(agent.current_target_file, Some(42));
    assert_eq!(agent.current_action, Some("Reading main.rs".to_string()));

    // no second arrival afterwards
    assert_eq!(agent.step(100_000), None);
    assert!(matches!(agent.state, AgentState::Idle { timer: 100_000 }));
}

#[test]
fn move_completes_exactly_at_the_move_duration() {
    let mut agent = idle_agent(vec![move_to(FAR, 7)]);
    agent.step(0);
    assert_eq!(agent.step(MOVE_DURATION - 1), None);
    assert!(matches!(agent.state, AgentState::Moving { progress: 1_199_999, .. }));
    assert_eq!(agent.step(1), Some(AgentArrivedEvent { node_index: 7 }));
    assert!(matches!(agent.state, AgentState::Idle { timer: 0 }));
}

#[test]
fn move_starts_from_where_the_agent_is_shown() {
    let mut agent = idle_agent(vec![move_to(FAR, 1), move_to(ORIGIN, 2)]);
    agent.step(10);
    agent.step(MOVE_DURATION);
    // the presentation layer stopped short of the target
    agent.position = (7.5, 0.5, -3.0);
    agent.step(10);
    match &agent.state {
        AgentState::Moving { from, to, progress, target_node } => {
            assert_eq!(*from, (7.5, 0.5, -3.0));
            assert_eq!(*to, ORIGIN);
            assert_eq!(*progress, 0);
            assert_eq!(*target_node, 2);
        }
        other => panic!("unexpected {:?}", other),
    }
}

#[test]
fn queued_moves_are_taken_in_order_one_at_a_time() {
    let mut agent = idle_agent(vec![move_to(FAR, 1), move_to(ORIGIN, 2), move_to(FAR, 3)]);
    let mut arrivals = Vec::new();
    for _ in 0..12 {
        if let Some(event) = agent.step(600_000) {
            arrivals.push(event.node_index);
        }
    }
    assert_eq!(arrivals, vec![1, 2, 3]);
    assert!(agent.event_queue.is_empty());
    assert_eq!(agent.current_target_file, Some(3));
}

#[test]
fn idle_agent_despawns_once_the_timeout_is_exceeded() {
    let mut agent = idle_agent(vec![]);
    agent.current_action = Some("Editing lib.rs".to_string());
    assert_eq!(agent.step(IDLE_TIMEOUT), None);
    assert!(matches!(agent.state, AgentState::Idle { timer: 5_000_000 }));
    assert_eq!(agent.current_action, Some("Editing lib.rs".to_string()));
    assert_eq!(agent.step(1), None);
    assert!(matches!(agent.state, AgentState::Despawning { timer: 0 }));
    assert_eq!(agent.current_action, None);
    assert!(agent.is_despawning());
    assert!(!agent.is_finished());
}

#[test]
fn despawning_runs_up_to_its_duration_and_stays() {
    let mut agent = idle_agent(vec![]);
    agent.state = AgentState::Despawning { timer: 0 };
    agent.step(499_999);
    assert!(matches!(agent.state, AgentState::Despawning { timer: 499_999 }));
    assert!(!agent.is_finished());
    agent.step(1);
    assert!(matches!(agent.state, AgentState::Despawning { timer: 500_000 }));
    assert!(agent.is_finished());
    agent.step(1_000_000);
    assert!(matches!(agent.state, AgentState::Despawning { timer: 500_000 }));
    assert_eq!(DESPAWN_DURATION, 500_000);
}

#[test]
fn huge_steps_do_not_overflow() {
    let mut spawning: Agent<Pos> = Agent::new("s".to_string(), VecDeque::new(), ORIGIN);
    spawning.state = AgentState::Spawning { timer: u64::MAX };
    spawning.step(u64::MAX);
    assert!(matches!(spawning.state, AgentState::Idle { timer: 0 }));

    let mut idle = idle_agent(vec![]);
    idle.state = AgentState::Idle { timer: u64::MAX };
    idle.step(u64::MAX);
    assert!(matches!(idle.state, AgentState::Despawning { timer: 0 }));

    let mut moving = idle_agent(vec![]);
    moving.state =
        AgentState::Moving { from: ORIGIN, to: FAR, progress: u64::MAX, target_node: 9 };
    assert_eq!(moving.step(u64::MAX), Some(AgentArrivedEvent { node_index: 9 }));

    let mut despawning = idle_agent(vec![]);
    despawning.state = AgentState::Despawning { timer: 3 };
    despawning.step(u64::MAX);
    assert!(matches!(despawning.state, AgentState::Despawning { timer: 500_000 }));
}

#[test]
fn cancel_despawn_touches_despawning_agents_only() {
    let mut agent = idle_agent(vec![]);
    agent.state = AgentState::Despawning { timer: 300_000 };
    assert!(agent.cancel_despawn());
    assert!(matches!(agent.state, AgentState::Idle { timer: 0 }));
    agent.state = AgentState::Idle { timer: 77 };
    assert!(!agent.cancel_despawn());
    assert!(matches!(agent.state, AgentState::Idle { timer: 77 }));
    agent.state = AgentState::Spawning { timer: 5 };
    assert!(!agent.cancel_despawn());
    assert!(matches!(agent.state, AgentState::Spawning { timer: 5 }));
}

#[test]
fn enqueue_move_appends_and_labels() {
    let mut agent = idle_agent(vec![move_to(FAR, 1)]);
    agent.enqueue_move(ORIGIN, 2, "Writing out.txt".to_string());
    assert_eq!(agent.event_queue.len(), 2);
    assert!(matches!(agent.event_queue[1], AgentAction::MoveTo { node_index: 2, .. }));
    assert_eq!(agent.current_action, Some("Writing out.txt".to_string()));
    agent.state = AgentState::Despawning { timer: 400_000 };
    agent.enqueue_move(FAR, 3, "Reading a".to_string());
    assert!(matches!(agent.state, AgentState::Idle { timer: 0 }));
    assert_eq!(agent.event_queue.len(), 3);
}

#[test]
fn session_hash_is_the_hash_of_the_text() {
    for id in ["s1", "", "mock-session-12", "sitzung-\u{e4}\u{f6}\u{fc}"] {
        let mut hasher = DefaultHasher::new();
        id.hash(&mut hasher);
        assert_eq!(hash_session_id(id), hasher.finish());
    }
    assert_ne!(hash_session_id("s1"), hash_session_id("s2"));
}

#[test]
fn color_follows_the_hash() {
    assert_eq!(color_from_hash(0), AgentColor { hue: 0, saturation: 70, lightness: 60 });
    assert_eq!(color_from_hash(359), AgentColor { hue: 359, saturation: 71, lightness: 60 });
    assert_eq!(color_from_hash(360), AgentColor { hue: 0, saturation: 71, lightness: 60 });
    // 0x13_1d_00: byte 1 is 29, byte 2 is 19
    let hash = (19u64 << 16) | (29u64 << 8);
    assert_eq!(
        color_from_hash(hash),
        AgentColor { hue: (hash % 360) as u16, saturation: 70 + ((hash >> 8) % 30) as u8, lightness: 79 }
    );
    let all = color_from_hash(u64::MAX);
    assert_eq!(all.hue, (u64::MAX % 360) as u16);
    assert_eq!(all.saturation, 70 + ((u64::MAX >> 8) % 30) as u8);
    assert_eq!(all.lightness, 60 + ((u64::MAX >> 16) % 20) as u8);
}

#[test]
fn color_is_the_same_for_the_same_session() {
    for id in ["s1", "mock-session-3", "another"] {
        let color = generate_agent_color(id);
        assert_eq!(color, generate_agent_color(id));
        assert_eq!(color, color_from_hash(hash_session_id(id)));
        assert!(color.hue < 360);
        assert!((70..100).contains(&color.saturation));
        assert!((60..80).contains(&color.lightness));
    }
}

#[test]
fn tools_have_their_verbs() {
    assert_eq!(tool_verb(&"Read".to_string()), "Reading");
    assert_eq!(tool_verb(&"Write".to_string()), "Writing");
    assert_eq!(tool_verb(&"Edit".to_string()), "Editing");
    assert_eq!(tool_verb(&"Grep".to_string()), "Searching");
    assert_eq!(tool_verb(&"Glob".to_string()), "Finding");
    assert_eq!(tool_verb(&"Bash".to_string()), "Working on");
    assert_eq!(tool_verb(&"read".to_string()), "Working on");
    assert_eq!(tool_verb(&"".to_string()), "Working on");
}

#[test]
fn action_is_described_by_verb_and_file_name() {
    let describe = |tool: &str, resolved: &str, given: &str| {
        describe_action(&tool.to_string(), &resolved.to_string(), &given.to_string())
    };
    assert_eq!(describe("Read", "/proj/src/main.rs", "src/main.rs"), "Reading main.rs");
    assert_eq!(describe("Edit", "/proj/README.md", "./README.md"), "Editing README.md");
    assert_eq!(describe("Fetch", "/proj/a.txt", "a.txt"), "Working on a.txt");
    assert_eq!(label_for(&"Write".to_string(), &"notes.txt".to_string()), "Writing notes.txt");
    assert_eq!(label_for(&"Think".to_string(), &"".to_string()), "Working on ");
    // a path without a final component is shown as the event gave it
    assert_eq!(describe("Glob", "/", "/"), "Finding /");
    assert_eq!(describe("Grep", "..", "../"), "Searching ../");
}
