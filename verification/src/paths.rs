//! Path text and the two questions the model asks of it: which path is its
//! parent, and what is its final component.
//!
//! Paths are held as `String`s. Their structure is left to the standard
//! library, whose answers are given names here so that contracts can speak of
//! them.

use vstd::prelude::*;

verus! {

/// The parent that `std::path::Path::parent` gives for the path with text
/// `path`, or `None` where it gives none.
pub uninterp spec fn parent_of(path: Seq<char>) -> Option<Seq<char>>;

/// The final component that `std::path::Path::file_name` gives for the path
/// with text `path`, or `None` where it gives none.
pub uninterp spec fn file_name_of(path: Seq<char>) -> Option<Seq<char>>;

/// The extension that `std::path::Path::extension` gives for the path with
/// text `path`, without the dot, or `None` where it gives none.
pub uninterp spec fn extension_of(path: Seq<char>) -> Option<Seq<char>>;

/// The display name of a path: its final component, or the empty text where
/// it has none.
pub open spec fn name_of(path: Seq<char>) -> Seq<char> {
    match file_name_of(path) {
        Some(name) => name,
        None => Seq::empty(),
    }
}

/// Whether the final component of a path is `.gitignore`.
pub open spec fn names_gitignore(path: Seq<char>) -> bool {
    file_name_of(path) == Some(".gitignore"@)
}

/// Calls `std::path::Path::parent` on the path with the text of `path`.
///
/// Trusted: the result is the text of the parent that the standard library
/// returns, and `None` exactly where it returns none. Nothing more is claimed
/// of what that parent is.
#[verifier::external_body]
pub(crate) fn path_parent(path: &String) -> (r: Option<String>)
    ensures
        match r {
            Some(parent) => parent_of(path@) == Some(parent@),
            None => parent_of(path@) is None,
        },
{
    match std::path::Path::new(path.as_str()).parent() {
        Some(parent) => Some(parent.to_string_lossy().into_owned()),
        None => None,
    }
}

/// Calls `std::path::Path::file_name` on the path with the text of `path`.
///
/// Trusted: the result is the text of the final component that the standard
/// library returns, and `None` exactly where it returns none.
#[verifier::external_body]
pub(crate) fn path_file_name(path: &String) -> (r: Option<String>)
    ensures
        match r {
            Some(name) => file_name_of(path@) == Some(name@),
            None => file_name_of(path@) is None,
        },
{
    match std::path::Path::new(path.as_str()).file_name() {
        Some(name) => Some(name.to_string_lossy().into_owned()),
        None => None,
    }
}

/// Calls `std::path::Path::extension` on the path with the text of `path`.
///
/// Trusted: the result is the text of the extension that the standard
/// library returns, and `None` exactly where it returns none.
#[verifier::external_body]
pub(crate) fn path_extension(path: &String) -> (r: Option<String>)
    ensures
        match r {
            Some(extension) => extension_of(path@) == Some(extension@),
            None => extension_of(path@) is None,
        },
{
    match std::path::Path::new(path.as_str()).extension() {
        Some(extension) => Some(extension.to_string_lossy().into_owned()),
        None => None,
    }
}

/// The display name of `path`: its final component, or the empty text.
pub fn display_name(path: &String) -> (name: String)
    ensures
        name@ == name_of(path@),
{
    match path_file_name(path) {
        Some(name) => name,
        None => String::new(),
    }
}

/// Whether `path` names a `.gitignore` file, by its final component alone.
pub fn is_gitignore_file(path: &String) -> (r: bool)
    ensures
        r == names_gitignore(path@),
{
    let name = path_file_name(path);
    is_gitignore_name(&name)
}

/// Whether a final component, where a path has one, is `.gitignore`.
pub fn is_gitignore_name(name: &Option<String>) -> (r: bool)
    ensures
        r == match *name {
            Some(n) => n@ == ".gitignore"@,
            None => false,
        },
{
    match name {
        Some(n) => {
            let wanted = ".gitignore".to_owned();
            *n == wanted
        },
        None => false,
    }
}

} // verus!
