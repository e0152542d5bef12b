//! The line of text that says what an agent is doing.

use vstd::prelude::*;
use vstd::string::{StrSliceExecFns, StringExecFns};
use crate::paths::{file_name_of, path_file_name};
use crate::text::reads_as;

verus! {

/// The verb for a tool: the five known tools have one of their own, any
/// other tool is "Working on".
pub open spec fn verb_for(tool_name: Seq<char>) -> Seq<char> {
    if tool_name == "Read"@ {
        "Reading"@
    } else if tool_name == "Write"@ {
        "Writing"@
    } else if tool_name == "Edit"@ {
        "Editing"@
    } else if tool_name == "Grep"@ {
        "Searching"@
    } else if tool_name == "Glob"@ {
        "Finding"@
    } else {
        "Working on"@
    }
}

/// The name under which a file is shown: the final component of its resolved
/// path, or the path as the event gave it where there is no such component.
pub open spec fn shown_name(resolved_path: Seq<char>, file_path: Seq<char>) -> Seq<char> {
    match file_name_of(resolved_path) {
        Some(name) => name,
        None => file_path,
    }
}

/// The description of the use of a tool on a file that is shown under the
/// name `shown`: the verb, a space, the name.
pub open spec fn label_text(tool_name: Seq<char>, shown: Seq<char>) -> Seq<char> {
    verb_for(tool_name) + " "@ + shown
}

/// The description of a tool use on the file that the event named
/// `file_path` and that resolved to `resolved_path`.
pub open spec fn action_label(tool_name: Seq<char>, resolved_path: Seq<char>, file_path: Seq<char>) -> Seq<char> {
    label_text(tool_name, shown_name(resolved_path, file_path))
}

/// The verb for the tool `tool_name`.
pub fn tool_verb(tool_name: &String) -> (verb: &'static str)
    ensures
        verb@ == verb_for(tool_name@),
{
    if reads_as(tool_name, "Read") {
        "Reading"
    } else if reads_as(tool_name, "Write") {
        "Writing"
    } else if reads_as(tool_name, "Edit") {
        "Editing"
    } else if reads_as(tool_name, "Grep") {
        "Searching"
    } else if reads_as(tool_name, "Glob") {
        "Finding"
    } else {
        "Working on"
    }
}

/// The description of the use of `tool_name` on the file that the event
/// named `file_path` and that resolved to `resolved_path`.
pub fn describe_action(tool_name: &String, resolved_path: &String, file_path: &String) -> (label: String)
    ensures
        label@ == action_label(tool_name@, resolved_path@, file_path@),
{
    match path_file_name(resolved_path) {
        Some(name) => label_for(tool_name, &name),
        None => label_for(tool_name, file_path),
    }
}

/// The description of the use of `tool_name` on a file that is shown under
/// the name `shown`.
pub fn label_for(tool_name: &String, shown: &String) -> (label: String)
    ensures
        label@ == label_text(tool_name@, shown@),
{
    let mut label = tool_verb(tool_name).to_owned();
    label.append(" ");
    label.append(shown.as_str());
    label
}

/// The place of the first `T` in `text`.
pub open spec fn first_t(text: Seq<char>) -> int {
    choose|k: int|
        0 <= k < text.len() && text[k] == 'T' && forall|j: int| 0 <= j < k ==> text[j] != 'T'
}

/// The time of day in a timestamp of the form `2024-01-15T14:30:45.123Z`:
/// the eight characters after the first `T`, or all that follow it where
/// they are fewer; a text without a `T` is given back whole.
pub open spec fn time_of_day(timestamp: Seq<char>) -> Seq<char> {
    if timestamp.contains('T') {
        let start = first_t(timestamp) + 1;
        if timestamp.len() - start >= 8 {
            timestamp.subrange(start, start + 8)
        } else {
            timestamp.subrange(start, timestamp.len() as int)
        }
    } else {
        timestamp
    }
}

/// The time of day, `HH:MM:SS`, out of a timestamp.
pub fn extract_time_from_rfc3339<'a>(timestamp: &'a str) -> (time: &'a str)
    ensures
        time@ == time_of_day(timestamp@),
{
    let len = timestamp.unicode_len();
    let mut k: usize = 0;
    while k < len
        invariant
            k <= len,
            len == timestamp@.len(),
            forall|j: int| 0 <= j < k ==> timestamp@[j] != 'T',
        decreases len - k,
    {
        if timestamp.get_char(k) == 'T' {
            proof {
                let text = timestamp@;
                assert(text.contains('T'));
                assert(0 <= k < text.len() && text[k as int] == 'T' && forall|j: int|
                    0 <= j < k ==> text[j] != 'T');
                let chosen = first_t(text);
                assert(0 <= chosen < text.len() && text[chosen] == 'T' && forall|j: int|
                    0 <= j < chosen ==> text[j] != 'T');
                if chosen < k {
                    assert(text[chosen] != 'T');
                } else if k < chosen {
                    assert(text[k as int] != 'T');
                }
            }
            let start = k + 1;
            let end = if len - start >= 8 {
                start + 8
            } else {
                len
            };
            return timestamp.substring_char(start, end);
        }
        k += 1;
    }
    proof {
        if timestamp@.contains('T') {
            let j = choose|j: int| 0 <= j < timestamp@.len() && timestamp@[j] == 'T';
            assert(timestamp@[j] != 'T');
        }
    }
    timestamp
}

} // verus!
