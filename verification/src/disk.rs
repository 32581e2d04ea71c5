//! A model of the file system, to say what the steps of an operation
//! achieve: what stands at the tracked paths, and what is stored below the
//! backup root.
//!
//! The library does not touch the file system, so nothing here is executed.
//! The model fixes the meaning that the caller has to give to each
//! [`Action`](crate::action::Action), and what is proved with it holds of every
//! caller that does.

use crate::action::ActionView;
use crate::filetype::Filetype;
use vstd::prelude::*;

verus! {

/// The state of the file system as far as the backups go. `T` is whatever
/// can stand at a path: the bytes of a file, or a tree of files.
pub struct Disk<T> {
    /// What stands at each path outside the backup root.
    pub items: Map<Seq<char>, T>,
    /// The storage directories that exist below the backup root.
    pub storages: Set<Seq<char>>,
    /// What is stored below the backup root, by storage directory and by
    /// name within it.
    pub versions: Map<(Seq<char>, Seq<char>), T>,
}

/// Whether `action` can be carried out on `disk`: what it copies is there,
/// and a directory is not copied to a place where something stands already.
/// A file may be copied over another.
pub open spec fn can_step<T>(disk: Disk<T>, action: ActionView) -> bool {
    match action {
        ActionView::Store { filetype, source, storage, name } => {
            &&& disk.items.contains_key(source)
            &&& disk.storages.contains(storage)
            &&& filetype == Filetype::Directory ==> !disk.versions.contains_key((storage, name))
        },
        ActionView::Fetch { filetype, storage, name, target } => {
            &&& disk.versions.contains_key((storage, name))
            &&& filetype == Filetype::Directory ==> !disk.items.contains_key(target)
        },
        _ => true,
    }
}

/// The file system after `action` was carried out on `disk`.
pub open spec fn step<T>(disk: Disk<T>, action: ActionView) -> Disk<T> {
    match action {
        ActionView::CreateStorage { storage } => Disk {
            storages: disk.storages.insert(storage),
            ..disk
        },
        ActionView::Store { source, storage, name, .. } => Disk {
            versions: disk.versions.insert((storage, name), disk.items[source]),
            ..disk
        },
        ActionView::ClearTarget { target } => Disk { items: disk.items.remove(target), ..disk },
        ActionView::Fetch { storage, name, target, .. } => Disk {
            items: disk.items.insert(target, disk.versions[(storage, name)]),
            ..disk
        },
        ActionView::RemoveVersion { storage, name, .. } => Disk {
            versions: disk.versions.remove((storage, name)),
            ..disk
        },
        ActionView::RemoveStorage { storage } => Disk {
            storages: disk.storages.remove(storage),
            versions: disk.versions.remove_keys(
                Set::new(|key: (Seq<char>, Seq<char>)| key.0 == storage),
            ),
            ..disk
        },
    }
}

/// Whether the steps `actions` can be carried out on `disk`, one after the
/// other.
pub open spec fn can_run<T>(disk: Disk<T>, actions: Seq<ActionView>) -> bool
    decreases actions.len(),
{
    if actions.len() == 0 {
        true
    } else {
        can_step(disk, actions.first()) && can_run(
            step(disk, actions.first()),
            actions.drop_first(),
        )
    }
}

/// The file system after the steps `actions` were carried out on `disk`, one
/// after the other.
pub open spec fn run<T>(disk: Disk<T>, actions: Seq<ActionView>) -> Disk<T>
    decreases actions.len(),
{
    if actions.len() == 0 {
        disk
    } else {
        run(step(disk, actions.first()), actions.drop_first())
    }
}

/// One step after the other: the meaning of a list of one step.
pub proof fn lemma_run_one<T>(disk: Disk<T>, action: ActionView)
    ensures
        run(disk, seq![action]) == step(disk, action),
        can_run(disk, seq![action]) == can_step(disk, action),
{
    let actions = seq![action];
    assert(actions.drop_first() =~= Seq::<ActionView>::empty());
    assert(run(step(disk, action), actions.drop_first()) == step(disk, action));
    assert(can_run(step(disk, action), actions.drop_first()));
}

/// One step after the other: the meaning of a list of two steps.
pub proof fn lemma_run_two<T>(disk: Disk<T>, first: ActionView, second: ActionView)
    ensures
        run(disk, seq![first, second]) == step(step(disk, first), second),
        can_run(disk, seq![first, second]) == (can_step(disk, first) && can_step(
            step(disk, first),
            second,
        )),
{
    let actions = seq![first, second];
    assert(actions.drop_first() =~= seq![second]);
    lemma_run_one(step(disk, first), second);
}

} // verus!
