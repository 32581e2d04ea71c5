//! Putting a stored version back in the place it was taken from.

use crate::action::{action_views, Action, ActionView};
use crate::backup::{
    backup_actions, backup_catalog, backup_record, backup_version, lemma_backup_stores_item,
};
use crate::command::{selector_text, Restore};
use crate::disk::{can_run, lemma_run_one, lemma_run_two, run, Disk};
use crate::errors::Error;
use crate::filetype::Filetype;
use crate::metadata::{BackupMetadata, Metadata, RecordView, VersionView};
use crate::version::{
    lemma_name_selects_version, parse_version, selector_version, version_name, version_name_spec,
};
use vstd::prelude::*;

verus! {

/// The answer to a request to restore a path.
#[derive(Debug, PartialEq, Eq)]
pub enum RestoreOutcome {
    /// The path has no record, or its record has no version.
    NotTracked,
    /// The record has no version with the selected number.
    NoSuchVersion,
    /// The steps that bring `version` back.
    Restore { version: u32, actions: Vec<Action> },
}

/// What a [`RestoreOutcome`] holds, as mathematical values.
pub enum RestoreOutcomeView {
    NotTracked,
    NoSuchVersion,
    Restore { version: u32, actions: Seq<ActionView> },
}

impl View for RestoreOutcome {
    type V = RestoreOutcomeView;

    open spec fn view(&self) -> RestoreOutcomeView {
        match *self {
            RestoreOutcome::NotTracked => RestoreOutcomeView::NotTracked,
            RestoreOutcome::NoSuchVersion => RestoreOutcomeView::NoSuchVersion,
            RestoreOutcome::Restore { version, actions } => RestoreOutcomeView::Restore {
                version,
                actions: action_views(actions@),
            },
        }
    }
}

/// The steps that bring `version` of `record` back to `target`: a file is
/// copied over the one that is there; of a directory, what is there is
/// deleted first, then the stored tree is copied.
pub open spec fn restore_actions(record: RecordView, target: Seq<char>, version: u32) -> Seq<
    ActionView,
> {
    let fetch = ActionView::Fetch {
        filetype: record.filetype,
        storage: record.path,
        name: version_name_spec(version as nat),
        target,
    };
    match record.filetype {
        Filetype::File => seq![fetch],
        Filetype::Directory => seq![ActionView::ClearTarget { target }, fetch],
    }
}

/// The answer to a request to restore `path`.
///
/// With a selector, the selected version is restored; without one, the
/// oldest version that the record holds.
pub open spec fn restore_spec(
    catalog: Map<Seq<char>, RecordView>,
    path: Seq<char>,
    selector: Option<Seq<char>>,
) -> Result<RestoreOutcomeView, Error> {
    if !catalog.contains_key(path) {
        Ok(RestoreOutcomeView::NotTracked)
    } else {
        let record = catalog[path];
        match selector {
            Some(text) => match selector_version(text) {
                None => Err(Error::InvalidVersionFormat),
                Some(version) => if record.has_version(version) {
                    Ok(
                        RestoreOutcomeView::Restore {
                            version,
                            actions: restore_actions(record, path, version),
                        },
                    )
                } else {
                    Ok(RestoreOutcomeView::NoSuchVersion)
                },
            },
            None => if record.versions.len() == 0 {
                Ok(RestoreOutcomeView::NotTracked)
            } else {
                Ok(
                    RestoreOutcomeView::Restore {
                        version: record.versions[0].version,
                        actions: restore_actions(record, path, record.versions[0].version),
                    },
                )
            },
        }
    }
}

/// The view of the answer to a request to restore.
pub open spec fn restore_result_view(result: Result<RestoreOutcome, Error>) -> Result<
    RestoreOutcomeView,
    Error,
> {
    match result {
        Ok(outcome) => Ok(outcome@),
        Err(e) => Err(e),
    }
}

/// The steps that bring `version` of `record` back to `to`.
pub fn restore_version(record: &BackupMetadata, to: &str, version: u32) -> (actions: Vec<Action>)
    ensures
        action_views(actions@) == restore_actions(record@, to@, version),
{
    let mut actions: Vec<Action> = Vec::new();
    match record.filetype {
        Filetype::File => {},
        Filetype::Directory => {
            actions.push(Action::ClearTarget { target: String::from_str(to) });
        },
    }
    actions.push(
        Action::Fetch {
            filetype: record.filetype,
            storage: record.path.clone(),
            name: version_name(version),
            target: String::from_str(to),
        },
    );
    assert(action_views(actions@) =~= restore_actions(record@, to@, version));
    actions
}

/// Answers a request to restore a path. The catalog does not change.
pub fn restore(metadata: &Metadata, request: &Restore) -> (result: Result<RestoreOutcome, Error>)
    requires
        metadata.wf(),
    ensures
        restore_result_view(result) == restore_spec(
            metadata@,
            request.path@,
            selector_text(request.version),
        ),
{
    let record = match metadata.get(request.path.as_str()) {
        None => {
            return Ok(RestoreOutcome::NotTracked);
        },
        Some(record) => record,
    };
    match &request.version {
        Some(text) => {
            let version = match parse_version(text.as_str()) {
                Err(e) => {
                    return Err(e);
                },
                Ok(version) => version,
            };
            if record.has_version(version) {
                let actions = restore_version(record, request.path.as_str(), version);
                Ok(RestoreOutcome::Restore { version, actions })
            } else {
                Ok(RestoreOutcome::NoSuchVersion)
            }
        },
        None => match record.first_version() {
            None => Ok(RestoreOutcome::NotTracked),
            Some(version) => {
                let actions = restore_version(record, request.path.as_str(), version);
                Ok(RestoreOutcome::Restore { version, actions })
            },
        },
    }
}

/// Without a selector, the oldest version is restored: the first that the
/// record holds, whose number is the lowest of all. What then stands at the
/// path is what is stored under the name of that version.
pub proof fn lemma_default_restore_is_oldest<T>(
    catalog: Map<Seq<char>, RecordView>,
    path: Seq<char>,
    disk: Disk<T>,
)
    requires
        catalog.contains_key(path),
        catalog[path].wf(),
        catalog[path].versions.len() > 0,
        disk.versions.contains_key(
            (catalog[path].path, version_name_spec(catalog[path].versions[0].version as nat)),
        ),
    ensures
        can_run(
            disk,
            restore_actions(catalog[path], path, catalog[path].versions[0].version),
        ),
        run(
            disk,
            restore_actions(catalog[path], path, catalog[path].versions[0].version),
        ).items[path] == disk.versions[(
            catalog[path].path,
            version_name_spec(catalog[path].versions[0].version as nat),
        )],
        restore_spec(catalog, path, None) == Ok::<RestoreOutcomeView, Error>(
            RestoreOutcomeView::Restore {
                version: catalog[path].versions[0].version,
                actions: restore_actions(catalog[path], path, catalog[path].versions[0].version),
            },
        ),
        forall|i: int|
            0 <= i < catalog[path].versions.len() ==> catalog[path].versions[0].version <= (
            #[trigger] catalog[path].versions[i]).version,
{
    let versions = catalog[path].versions;
    lemma_restore_fetches_content(catalog[path], path, versions[0].version, disk);
    assert forall|i: int| 0 <= i < versions.len() implies versions[0].version <= (
    #[trigger] versions[i]).version by {
        if i > 0 {
            assert(versions[0].version < versions[i].version);
        }
    }
}

/// A request to restore a path that is not tracked is answered, not
/// refused, whatever the selector holds.
pub proof fn lemma_restore_untracked(
    catalog: Map<Seq<char>, RecordView>,
    path: Seq<char>,
    selector: Option<Seq<char>>,
)
    requires
        !catalog.contains_key(path),
    ensures
        restore_spec(catalog, path, selector) == Ok::<RestoreOutcomeView, Error>(RestoreOutcomeView::NotTracked),
{
}

/// A version is restored from the place to which its backup copied it: the
/// name of a version, given as the selector, brings back that version, from
/// the storage directory and under the name and the type of its record, to
/// the path it was taken from.
pub proof fn lemma_restore_fetches_stored_version(
    catalog: Map<Seq<char>, RecordView>,
    path: Seq<char>,
    i: int,
)
    requires
        catalog.contains_key(path),
        0 <= i < catalog[path].versions.len(),
    ensures
        restore_spec(
            catalog,
            path,
            Some(version_name_spec(catalog[path].versions[i].version as nat)),
        ) == Ok::<RestoreOutcomeView, Error>(
            RestoreOutcomeView::Restore {
                version: catalog[path].versions[i].version,
                actions: restore_actions(catalog[path], path, catalog[path].versions[i].version),
            },
        ),
        restore_actions(catalog[path], path, catalog[path].versions[i].version).last() == (
        ActionView::Fetch {
            filetype: catalog[path].filetype,
            storage: catalog[path].path,
            name: version_name_spec(catalog[path].versions[i].version as nat),
            target: path,
        }),
{
    lemma_name_selects_version(catalog[path].versions[i].version);
}

/// Restoring a version puts at the target what is stored under the name of
/// that version, whatever stood at the target before, and changes nothing
/// else.
pub proof fn lemma_restore_fetches_content<T>(
    record: RecordView,
    target: Seq<char>,
    version: u32,
    disk: Disk<T>,
)
    requires
        disk.versions.contains_key((record.path, version_name_spec(version as nat))),
    ensures
        can_run(disk, restore_actions(record, target, version)),
        run(disk, restore_actions(record, target, version)) == (Disk {
            items: disk.items.insert(
                target,
                disk.versions[(record.path, version_name_spec(version as nat))],
            ),
            ..disk
        }),
{
    let fetch = ActionView::Fetch {
        filetype: record.filetype,
        storage: record.path,
        name: version_name_spec(version as nat),
        target,
    };
    match record.filetype {
        Filetype::File => {
            lemma_run_one(disk, fetch);
        },
        Filetype::Directory => {
            let clear = ActionView::ClearTarget { target };
            lemma_run_two(disk, clear, fetch);
            assert(disk.items.remove(target).insert(
                target,
                disk.versions[(record.path, version_name_spec(version as nat))],
            ) =~= disk.items.insert(
                target,
                disk.versions[(record.path, version_name_spec(version as nat))],
            ));
        },
    }
}

/// A backup followed by a restore of the version it made brings back what
/// stood at the path when the backup was made, whatever became of the path
/// in between, as long as what is stored was left alone.
pub proof fn lemma_backup_then_restore<T>(
    catalog: Map<Seq<char>, RecordView>,
    path: Seq<char>,
    probed: Filetype,
    fresh_name: Seq<char>,
    timestamp: Seq<char>,
    disk: Disk<T>,
    later: Disk<T>,
)
    requires
        backup_version(catalog, path) <= u32::MAX,
        disk.items.contains_key(path),
        catalog.contains_key(path) ==> disk.storages.contains(catalog[path].path),
        backup_record(catalog, path, probed, fresh_name).filetype == Filetype::Directory
            ==> !disk.versions.contains_key(
            (
                backup_record(catalog, path, probed, fresh_name).path,
                version_name_spec(backup_version(catalog, path)),
            ),
        ),
        later.versions == run(disk, backup_actions(catalog, path, probed, fresh_name)).versions,
    ensures
        restore_spec(
            backup_catalog(catalog, path, probed, fresh_name, timestamp),
            path,
            Some(version_name_spec(backup_version(catalog, path))),
        ) == Ok::<RestoreOutcomeView, Error>(
            RestoreOutcomeView::Restore {
                version: backup_version(catalog, path) as u32,
                actions: restore_actions(
                    backup_record(catalog, path, probed, fresh_name),
                    path,
                    backup_version(catalog, path) as u32,
                ),
            },
        ),
        can_run(
            later,
            restore_actions(
                backup_record(catalog, path, probed, fresh_name),
                path,
                backup_version(catalog, path) as u32,
            ),
        ),
        run(
            later,
            restore_actions(
                backup_record(catalog, path, probed, fresh_name),
                path,
                backup_version(catalog, path) as u32,
            ),
        ).items[path] == disk.items[path],
{
    let version = backup_version(catalog, path) as u32;
    let record = backup_record(catalog, path, probed, fresh_name);
    let after = backup_catalog(catalog, path, probed, fresh_name, timestamp);
    let entry = VersionView { version, timestamp };
    assert(after[path].versions[record.versions.len() as int] == entry);
    assert(after[path].has_version(version));
    lemma_name_selects_version(version);
    assert(restore_actions(after[path], path, version) == restore_actions(record, path, version));
    lemma_backup_stores_item(catalog, path, probed, fresh_name, disk);
    lemma_restore_fetches_content(record, path, version, later);
}

} // verus!
