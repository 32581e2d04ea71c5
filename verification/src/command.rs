//! The requests that the catalog answers.

use vstd::prelude::*;

verus! {

/// Back up the item at `path`.
#[derive(Debug, PartialEq, Eq)]
pub struct The {
    pub path: String,
}

/// List the tracked paths.
#[derive(Debug, PartialEq, Eq)]
pub struct List {}

/// List the versions of `path`.
#[derive(Debug, PartialEq, Eq)]
pub struct Versions {
    pub path: String,
}

/// Restore `path` from the version that `version` selects, or from the
/// oldest version where it selects none.
#[derive(Debug, PartialEq, Eq)]
pub struct Restore {
    pub version: Option<String>,
    pub path: String,
}

/// Delete the version of `path` that `version` selects, or everything that
/// is stored for `path` where it selects none.
#[derive(Debug, PartialEq, Eq)]
pub struct Clean {
    pub version: Option<String>,
    pub path: String,
}

/// The text of a version selector, if one was given.
pub open spec fn selector_text(version: Option<String>) -> Option<Seq<char>> {
    match version {
        Some(text) => Some(text@),
        None => None,
    }
}

} // verus!
