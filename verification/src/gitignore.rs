//! The ignore rules of the watched directory, as far as the model needs
//! them: the rules themselves are asked of `git`, outside this library.

use vstd::prelude::*;

verus! {

/// Reads the answers of `git check-ignore` for paths under one directory.
#[derive(Debug)]
pub struct GitignoreChecker {
    /// The directory in which the check is run.
    pub root_path: String,
}

impl GitignoreChecker {
    /// A checker for the directory `root_path`.
    pub fn new(root_path: &String) -> (checker: Self)
        ensures
            checker.root_path@ == root_path@,
    {
        GitignoreChecker { root_path: root_path.clone() }
    }

    /// Whether a path counts as ignored, given how the check for it went:
    /// `Some(true)` where the command ran and succeeded, which is how it
    /// says that the path is ignored, `Some(false)` where it ran and did
    /// not, `None` where it could not be run. A check that could not be run
    /// counts as "not ignored": better to show a file too many.
    pub fn is_ignored(&self, check: Option<bool>) -> (ignored: bool)
        ensures
            ignored == (check == Some(true)),
    {
        match check {
            Some(succeeded) => succeeded,
            None => false,
        }
    }
}

} // verus!
