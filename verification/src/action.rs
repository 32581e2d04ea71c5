//! What has to happen in the backup directory, and at the tracked paths, for
//! an operation on the catalog to take effect.

use crate::filetype::Filetype;
use vstd::prelude::*;

verus! {

/// One step on the file system. A version is named by the storage directory
/// of its record and by its own name below it; both are relative to the
/// backup root.
#[derive(Debug, PartialEq, Eq)]
pub enum Action {
    /// Create the storage directory `storage`.
    CreateStorage { storage: String },
    /// Copy the item at `source` to the version `name` in `storage`: a file
    /// byte for byte, a directory with everything below it.
    Store { filetype: Filetype, source: String, storage: String, name: String },
    /// Delete `target` and everything below it, if it exists.
    ClearTarget { target: String },
    /// Copy the version `name` in `storage` to `target`; a file overwrites
    /// the one that is there.
    Fetch { filetype: Filetype, storage: String, name: String, target: String },
    /// Delete the version `name` in `storage`: a single file, or a directory
    /// with everything below it.
    RemoveVersion { filetype: Filetype, storage: String, name: String },
    /// Delete the storage directory `storage` with everything below it.
    RemoveStorage { storage: String },
}

/// What an [`Action`] holds, as mathematical values.
pub enum ActionView {
    CreateStorage { storage: Seq<char> },
    Store { filetype: Filetype, source: Seq<char>, storage: Seq<char>, name: Seq<char> },
    ClearTarget { target: Seq<char> },
    Fetch { filetype: Filetype, storage: Seq<char>, name: Seq<char>, target: Seq<char> },
    RemoveVersion { filetype: Filetype, storage: Seq<char>, name: Seq<char> },
    RemoveStorage { storage: Seq<char> },
}

impl View for Action {
    type V = ActionView;

    open spec fn view(&self) -> ActionView {
        match *self {
            Action::CreateStorage { storage } => ActionView::CreateStorage { storage: storage@ },
            Action::Store { filetype, source, storage, name } => ActionView::Store {
                filetype,
                source: source@,
                storage: storage@,
                name: name@,
            },
            Action::ClearTarget { target } => ActionView::ClearTarget { target: target@ },
            Action::Fetch { filetype, storage, name, target } => ActionView::Fetch {
                filetype,
                storage: storage@,
                name: name@,
                target: target@,
            },
            Action::RemoveVersion { filetype, storage, name } => ActionView::RemoveVersion {
                filetype,
                storage: storage@,
                name: name@,
            },
            Action::RemoveStorage { storage } => ActionView::RemoveStorage { storage: storage@ },
        }
    }
}

/// The views of a list of actions, in the same order.
pub open spec fn action_views(actions: Seq<Action>) -> Seq<ActionView> {
    actions.map_values(|a: Action| a@)
}

} // verus!
