//! The notifications of a file-system watcher, as the model takes them.

use vstd::prelude::*;

verus! {

/// A change that the watcher saw under the watched directory.
#[derive(Debug, Clone)]
pub enum FileSystemEvent {
    /// A path appeared; the flag says whether it is a directory.
    Created(String, bool),
    Deleted(String),
    Modified(String),
}

/// The kinds of raw notification that a watcher hands out.
#[derive(Debug, Clone, Copy, PartialEq, Eq, Structural)]
pub enum ChangeKind {
    Create,
    Remove,
    Modify,
    /// Anything else, such as an access or a notification without a kind.
    Other,
}

impl FileSystemEvent {
    /// The path that the event is about.
    pub open spec fn spec_path(&self) -> Seq<char> {
        match self {
            FileSystemEvent::Created(path, _) => path@,
            FileSystemEvent::Deleted(path) => path@,
            FileSystemEvent::Modified(path) => path@,
        }
    }

    /// The path that the event is about.
    pub fn path(&self) -> (path: &String)
        ensures
            path@ == self.spec_path(),
    {
        match self {
            FileSystemEvent::Created(path, _) => path,
            FileSystemEvent::Deleted(path) => path,
            FileSystemEvent::Modified(path) => path,
        }
    }

    /// The event for one path of a raw notification: creations, removals and
    /// modifications are passed on, everything else is dropped. `is_dir` is
    /// read for creations only.
    pub fn from_change(kind: ChangeKind, path: String, is_dir: bool) -> (event: Option<Self>)
        ensures
            event == match kind {
                ChangeKind::Create => Some(FileSystemEvent::Created(path, is_dir)),
                ChangeKind::Remove => Some(FileSystemEvent::Deleted(path)),
                ChangeKind::Modify => Some(FileSystemEvent::Modified(path)),
                ChangeKind::Other => None,
            },
    {
        match kind {
            ChangeKind::Create => Some(FileSystemEvent::Created(path, is_dir)),
            ChangeKind::Remove => Some(FileSystemEvent::Deleted(path)),
            ChangeKind::Modify => Some(FileSystemEvent::Modified(path)),
            ChangeKind::Other => None,
        }
    }
}

} // verus!
