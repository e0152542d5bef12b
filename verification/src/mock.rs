//! A made-up workload for trying the visualisation out: sessions that read,
//! write and edit files of a directory at a believable pace.
//!
//! The choices are random. What is chosen from, and within which bounds, is
//! stated here; the generator itself is handed in by the caller.

use vstd::prelude::*;
use vstd::string::StringExecFns;
use rand::rngs::StdRng;
use rand::seq::IndexedRandom;
use rand::Rng;
use crate::paths::{extension_of, file_name_of, path_extension, path_file_name};
use crate::text::{decimal, decimal_text, phrase, reads_as};

verus! {

/// The random number generator of the `rand` crate, carried through as it
/// is.
#[verifier::external_type_specification]
#[verifier::external_body]
pub struct ExStdRng(StdRng);

/// Calls `rand::Rng::random::<u32>`. Nothing is claimed of the number.
#[verifier::external_body]
fn random_u32(rng: &mut StdRng) -> u32 {
    rng.random::<u32>()
}

/// Calls `rand::Rng::random::<u64>`. Nothing is claimed of the number.
#[verifier::external_body]
fn random_u64(rng: &mut StdRng) -> u64 {
    rng.random::<u64>()
}

/// Calls `rand::Rng::random_range` with the range from `low` up to, not
/// including, `high`.
///
/// Trusted: the number lies in that range. The call panics on an empty
/// range, which the precondition leaves out.
#[verifier::external_body]
fn random_in_range(rng: &mut StdRng, low: u64, high: u64) -> (r: u64)
    requires
        low < high,
    ensures
        low <= r < high,
{
    rng.random_range(low..high)
}

/// Calls `rand::seq::IndexedRandom::choose` on `items`.
///
/// Trusted: the result is one of the items, and `None` exactly where there
/// is none to choose from.
#[verifier::external_body]
fn choose_from<'a, T>(items: &'a [T], rng: &mut StdRng) -> (r: Option<&'a T>)
    ensures
        match r {
            Some(item) => items@.contains(*item),
            None => items@.len() == 0,
        },
{
    items.choose(rng)
}

/// The tools that a made-up session uses.
pub open spec fn tool_names() -> Seq<Seq<char>> {
    seq!["Read"@, "Write"@, "Edit"@]
}

/// The short pauses between two actions, in milliseconds.
pub open spec fn short_delays() -> Seq<u64> {
    seq![200, 400, 600, 900]
}

/// The long pauses, in which a session seems to think, in milliseconds.
pub open spec fn long_delays() -> Seq<u64> {
    seq![1500, 2500, 4000, 6000]
}

/// Whether action number `action_number` of `total_actions` falls into the
/// first three tenths of the session, in which it explores.
pub open spec fn is_exploring(action_number: u32, total_actions: u32) -> bool {
    10 * action_number < 3 * total_actions
}

/// Whether action number `action_number` of `total_actions` falls into the
/// first third of the session, in which it mostly reads.
pub open spec fn is_reading_phase(action_number: u32, total_actions: u32) -> bool {
    action_number < total_actions / 3
}

/// The name under which an explanation speaks of a file: the final
/// component of its path, or "file" where it has none.
pub open spec fn spoken_name(file_path: Seq<char>) -> Seq<char> {
    match file_name_of(file_path) {
        Some(name) => name,
        None => "file"@,
    }
}

/// Whether a path has the extension `rs`.
pub open spec fn is_rust_source(file_path: Seq<char>) -> bool {
    extension_of(file_path) == Some("rs"@)
}

/// The explanations among which one is chosen for the use of `tool_name` on
/// a file that is spoken of as `name`.
///
/// Reading is explained as exploring early in a session and as checking
/// later; writing and editing are explained by the kind of file, Rust source
/// or other. Any other tool has the one explanation that names the tool and
/// the file.
pub open spec fn explanations_for(
    tool_name: Seq<char>,
    name: Seq<char>,
    rust_source: bool,
    exploring: bool,
) -> Seq<Seq<char>> {
    if tool_name == "Read"@ {
        if exploring {
            seq![
                "Reading "@ + name + " to understand the codebase structure"@,
                "Scanning "@ + name + " to identify dependencies"@,
                "Reviewing "@ + name + " to understand the current implementation"@,
                "Checking "@ + name + " for existing patterns and conventions"@,
                "Examining "@ + name + " to locate the entry point"@,
            ]
        } else {
            seq![
                "Reading "@ + name + " to verify the changes needed"@,
                "Checking "@ + name + " before making modifications"@,
                "Reviewing "@ + name + " to ensure compatibility"@,
                "Analyzing "@ + name + " to understand the impact area"@,
            ]
        }
    } else if tool_name == "Write"@ {
        if rust_source {
            seq![
                "Writing "@ + name + " to add new functionality"@,
                "Creating "@ + name + " with the required implementation"@,
                "Writing "@ + name + " to introduce the new module"@,
            ]
        } else {
            seq![
                "Writing "@ + name + " to update configuration"@,
                "Creating "@ + name + " with new settings"@,
                "Writing "@ + name + " to document the changes"@,
            ]
        }
    } else if tool_name == "Edit"@ {
        if rust_source {
            seq![
                "Editing "@ + name + " to fix the identified issue"@,
                "Updating "@ + name + " to improve the implementation"@,
                "Modifying "@ + name + " to add the requested feature"@,
                "Refactoring "@ + name + " to follow best practices"@,
                "Editing "@ + name + " to integrate the new functionality"@,
            ]
        } else {
            seq![
                "Editing "@ + name + " to update configuration"@,
                "Updating "@ + name + " to fix inconsistencies"@,
                "Modifying "@ + name + " to align with requirements"@,
            ]
        }
    } else {
        seq![tool_name + " "@ + name]
    }
}

/// The explanations among which one is chosen for the use of `tool_name` on
/// the file `file_path`, as action `action_number` of `total_actions`.
pub open spec fn explanations(
    tool_name: Seq<char>,
    file_path: Seq<char>,
    action_number: u32,
    total_actions: u32,
) -> Seq<Seq<char>> {
    explanations_for(
        tool_name,
        spoken_name(file_path),
        is_rust_source(file_path),
        is_exploring(action_number, total_actions),
    )
}

/// The texts of a list of strings.
pub open spec fn texts(list: Seq<String>) -> Seq<Seq<char>> {
    list.map_values(|s: String| s@)
}

/// The explanations among which one is chosen for the use of `tool_name` on
/// the file `file_path`, as action `action_number` of `total_actions`.
pub fn explanation_candidates(
    tool_name: &String,
    file_path: &String,
    action_number: u32,
    total_actions: u32,
) -> (candidates: Vec<String>)
    ensures
        texts(candidates@) == explanations(tool_name@, file_path@, action_number, total_actions),
        candidates@.len() > 0,
{
    let name = match path_file_name(file_path) {
        Some(name) => name,
        None => "file".to_owned(),
    };
    let rust_source = match path_extension(file_path) {
        Some(extension) => reads_as(&extension, "rs"),
        None => false,
    };
    let exploring = 10 * (action_number as u64) < 3 * (total_actions as u64);
    explanation_candidates_for(tool_name, &name, rust_source, exploring)
}

/// The explanations among which one is chosen for the use of `tool_name` on
/// a file that is spoken of as `name`; `rust_source` says whether the file
/// is Rust source, `exploring` whether the session is still in its first
/// three tenths.
pub fn explanation_candidates_for(
    tool_name: &String,
    name: &String,
    rust_source: bool,
    exploring: bool,
) -> (candidates: Vec<String>)
    ensures
        texts(candidates@) == explanations_for(tool_name@, name@, rust_source, exploring),
        candidates@.len() > 0,
{
    let mut list: Vec<String> = Vec::new();
    if reads_as(tool_name, "Read") {
        if exploring {
            list.push(phrase("Reading ", name, " to understand the codebase structure"));
            list.push(phrase("Scanning ", name, " to identify dependencies"));
            list.push(phrase("Reviewing ", name, " to understand the current implementation"));
            list.push(phrase("Checking ", name, " for existing patterns and conventions"));
            list.push(phrase("Examining ", name, " to locate the entry point"));
        } else {
            list.push(phrase("Reading ", name, " to verify the changes needed"));
            list.push(phrase("Checking ", name, " before making modifications"));
            list.push(phrase("Reviewing ", name, " to ensure compatibility"));
            list.push(phrase("Analyzing ", name, " to understand the impact area"));
        }
    } else if reads_as(tool_name, "Write") {
        if rust_source {
            list.push(phrase("Writing ", name, " to add new functionality"));
            list.push(phrase("Creating ", name, " with the required implementation"));
            list.push(phrase("Writing ", name, " to introduce the new module"));
        } else {
            list.push(phrase("Writing ", name, " to update configuration"));
            list.push(phrase("Creating ", name, " with new settings"));
            list.push(phrase("Writing ", name, " to document the changes"));
        }
    } else if reads_as(tool_name, "Edit") {
        if rust_source {
            list.push(phrase("Editing ", name, " to fix the identified issue"));
            list.push(phrase("Updating ", name, " to improve the implementation"));
            list.push(phrase("Modifying ", name, " to add the requested feature"));
            list.push(phrase("Refactoring ", name, " to follow best practices"));
            list.push(phrase("Editing ", name, " to integrate the new functionality"));
        } else {
            list.push(phrase("Editing ", name, " to update configuration"));
            list.push(phrase("Updating ", name, " to fix inconsistencies"));
            list.push(phrase("Modifying ", name, " to align with requirements"));
        }
    } else {
        let mut text = tool_name.clone();
        text.append(" ");
        text.append(name.as_str());
        list.push(text);
    }
    assert(texts(list@) =~= explanations_for(tool_name@, name@, rust_source, exploring));
    list
}

/// An explanation, in plain words, of the use of `tool_name` on the file
/// `file_path` as action `action_number` of `total_actions`: one of the
/// candidates, chosen at random.
pub fn generate_action_explanation(
    tool_name: &String,
    file_path: &String,
    action_number: u32,
    total_actions: u32,
    rng: &mut StdRng,
) -> (explanation: String)
    ensures
        explanations(tool_name@, file_path@, action_number, total_actions).contains(explanation@),
{
    let candidates = explanation_candidates(tool_name, file_path, action_number, total_actions);
    pick_text(&candidates, rng)
}

/// One of `list`, chosen at random.
fn pick_text(list: &Vec<String>, rng: &mut StdRng) -> (text: String)
    requires
        list@.len() > 0,
    ensures
        texts(list@).contains(text@),
{
    match choose_from(list.as_slice(), rng) {
        Some(chosen) => {
            proof {
                let i = choose|i: int| 0 <= i < list@.len() && list@[i] == *chosen;
                assert(texts(list@)[i] == chosen@);
            }
            chosen.clone()
        },
        None => {
            // not reached: the list is not empty
            list[0].clone()
        },
    }
}

/// One step of a made-up session: the tool, the file, the explanation, and
/// the pause that goes before it, in milliseconds.
#[derive(Debug)]
pub struct MockToolUse {
    pub tool_name: String,
    pub file_path: String,
    pub reason: String,
    pub delay_ms: u64,
}

/// The number of actions that a draw gives a made-up session: 4 to 12.
pub fn session_length_from(draw: u32) -> (actions: u32)
    ensures
        actions == 4 + draw % 9,
        4 <= actions <= 12,
{
    4 + draw % 9
}

/// The pause that a draw gives: one second to just under four, in
/// milliseconds.
pub fn long_pause_from(draw: u64) -> (pause: u64)
    ensures
        pause == 1000 + draw % 3000,
        1000 <= pause < 4000,
{
    1000 + draw % 3000
}

/// The number of made-up sessions that a draw lets run side by side: 2 to
/// 4.
pub fn concurrent_sessions_from(draw: u32) -> (sessions: u32)
    ensures
        sessions == 2 + draw % 3,
        2 <= sessions <= 4,
{
    2 + draw % 3
}

/// Whether action `action_number` of `total_actions` is a read for sure,
/// given a roll out of a hundred: in the first third of a session 85 rolls
/// in a hundred say so, later none does.
pub fn prefers_read(action_number: u32, total_actions: u32, roll: u64) -> (read: bool)
    ensures
        read == (is_reading_phase(action_number, total_actions) && roll < 85),
{
    action_number < total_actions / 3 && roll < 85
}

/// Whether the pause before an action is a long one, given a roll out of a
/// hundred: 30 rolls in a hundred say so.
pub fn thinks_long(roll: u64) -> (long: bool)
    ensures
        long == (roll < 30),
{
    roll < 30
}

/// The number of actions of a made-up session: 4 to 12.
pub fn session_length(rng: &mut StdRng) -> (actions: u32)
    ensures
        4 <= actions <= 12,
{
    session_length_from(random_u32(rng))
}

/// The pause after the last action of a made-up session: one second to just
/// under four, in milliseconds.
pub fn wind_down_ms(rng: &mut StdRng) -> (pause: u64)
    ensures
        1000 <= pause < 4000,
{
    long_pause_from(random_u64(rng))
}

/// The number of made-up sessions that run side by side: 2 to 4.
pub fn max_concurrent_sessions(rng: &mut StdRng) -> (sessions: u32)
    ensures
        2 <= sessions <= 4,
{
    concurrent_sessions_from(random_u32(rng))
}

/// The pause before a made-up session starts, so that sessions do not start
/// together: under two seconds, in milliseconds.
pub fn initial_delay_ms(rng: &mut StdRng) -> (pause: u64)
    ensures
        pause < 2000,
{
    random_in_range(rng, 0, 2000)
}

/// The pause between two looks at which sessions have ended: one second to
/// just under four, in milliseconds.
pub fn check_interval_ms(rng: &mut StdRng) -> (pause: u64)
    ensures
        1000 <= pause < 4000,
{
    long_pause_from(random_u64(rng))
}

/// The identifier of the made-up session with the given number.
pub fn session_name(counter: u32) -> (name: String)
    ensures
        name@ == "mock-session-"@ + decimal_text(counter as nat),
{
    let mut name = "mock-session-".to_owned();
    let digits = decimal(counter);
    name.append(digits.as_str());
    name
}

/// The model that a made-up session claims to run on: one of `models`,
/// chosen at random.
pub fn pick_model(models: &Vec<String>, rng: &mut StdRng) -> (model: String)
    requires
        models@.len() > 0,
    ensures
        texts(models@).contains(model@),
{
    pick_text(models, rng)
}

/// The tool of action `action_number` of `total_actions`: in the first
/// third of a session mostly "Read", later any of the three.
pub fn pick_tool(action_number: u32, total_actions: u32, rng: &mut StdRng) -> (tool: String)
    ensures
        tool_names().contains(tool@),
{
    let mut names: Vec<String> = Vec::new();
    names.push("Read".to_owned());
    names.push("Write".to_owned());
    names.push("Edit".to_owned());
    assert(texts(names@) =~= tool_names());
    if action_number < total_actions / 3 && prefers_read(
        action_number,
        total_actions,
        random_in_range(rng, 0, 100),
    ) {
        assert(tool_names()[0] == "Read"@);
        "Read".to_owned()
    } else {
        pick_text(&names, rng)
    }
}

/// The pause before an action: mostly a short one, at times a long one in
/// which the session seems to think.
pub fn pick_delay_ms(rng: &mut StdRng) -> (pause: u64)
    ensures
        short_delays().contains(pause) || long_delays().contains(pause),
{
    let long = thinks_long(random_in_range(rng, 0, 100));
    let delays: Vec<u64> = if long {
        vec![1500, 2500, 4000, 6000]
    } else {
        vec![200, 400, 600, 900]
    };
    assert(long ==> delays@ =~= long_delays());
    assert(!long ==> delays@ =~= short_delays());
    match choose_from(delays.as_slice(), rng) {
        Some(pause) => *pause,
        None => delays[0],
    }
}

/// The next step of a made-up session over `files`: a tool that fits the
/// phase of the session, one of the files, an explanation that fits both,
/// and a pause.
pub fn next_tool_use(
    files: &Vec<String>,
    action_number: u32,
    total_actions: u32,
    rng: &mut StdRng,
) -> (step: MockToolUse)
    requires
        files@.len() > 0,
    ensures
        tool_names().contains(step.tool_name@),
        texts(files@).contains(step.file_path@),
        explanations(step.tool_name@, step.file_path@, action_number, total_actions).contains(
            step.reason@,
        ),
        short_delays().contains(step.delay_ms) || long_delays().contains(step.delay_ms),
{
    let tool_name = pick_tool(action_number, total_actions, rng);
    let file_path = pick_text(files, rng);
    let reason = generate_action_explanation(&tool_name, &file_path, action_number, total_actions, rng);
    let delay_ms = pick_delay_ms(rng);
    MockToolUse { tool_name, file_path, reason, delay_ms }
}

} // verus!
