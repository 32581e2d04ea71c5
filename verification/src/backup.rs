//! Making a new version of a path.

use crate::action::{action_views, Action, ActionView};
use crate::command::The;
use crate::disk::{can_run, lemma_run_one, lemma_run_two, run, Disk};
use crate::errors::Error;
use crate::filetype::Filetype;
use crate::metadata::{BackupMetadata, Metadata, RecordView, VersionView};
use crate::query::list_versions_spec;
use crate::rand::{is_storage_name, rand_string};
use crate::version::{version_name, version_name_spec};
use vstd::prelude::*;

verus! {

/// What a backup has decided: the number of the new version, and the steps
/// that put its content in place. The catalog may be persisted only after
/// every step has succeeded.
#[derive(Debug, PartialEq, Eq)]
pub struct BackupPlan {
    pub version: u32,
    pub actions: Vec<Action>,
}

/// The record that a backup of `path` adds a version to: the one that the
/// catalog holds, or a new one, stored under `fresh_name`, of the type that
/// was found at `path`.
pub open spec fn backup_record(
    catalog: Map<Seq<char>, RecordView>,
    path: Seq<char>,
    probed: Filetype,
    fresh_name: Seq<char>,
) -> RecordView {
    if catalog.contains_key(path) {
        catalog[path]
    } else {
        RecordView { path: fresh_name, filetype: probed, versions: Seq::empty() }
    }
}

/// The number that the next version of `path` gets.
pub open spec fn backup_version(catalog: Map<Seq<char>, RecordView>, path: Seq<char>) -> nat {
    if catalog.contains_key(path) {
        catalog[path].next_version()
    } else {
        1
    }
}

/// The catalog after a backup of `path` at the time `timestamp`.
pub open spec fn backup_catalog(
    catalog: Map<Seq<char>, RecordView>,
    path: Seq<char>,
    probed: Filetype,
    fresh_name: Seq<char>,
    timestamp: Seq<char>,
) -> Map<Seq<char>, RecordView> {
    catalog.insert(
        path,
        backup_record(catalog, path, probed, fresh_name).with_version(
            VersionView { version: backup_version(catalog, path) as u32, timestamp },
        ),
    )
}

/// The steps of a backup of `path`: for a path that was not tracked, first
/// its storage directory is made; then the item is copied, as the type that
/// its record holds, to the name of the new version.
pub open spec fn backup_actions(
    catalog: Map<Seq<char>, RecordView>,
    path: Seq<char>,
    probed: Filetype,
    fresh_name: Seq<char>,
) -> Seq<ActionView> {
    let record = backup_record(catalog, path, probed, fresh_name);
    let store = ActionView::Store {
        filetype: record.filetype,
        source: path,
        storage: record.path,
        name: version_name_spec(backup_version(catalog, path)),
    };
    if catalog.contains_key(path) {
        seq![store]
    } else {
        seq![ActionView::CreateStorage { storage: fresh_name }, store]
    }
}

/// A well-formed record stays well formed when it gets its next version.
pub proof fn lemma_next_version_wf(record: RecordView, timestamp: Seq<char>)
    requires
        record.wf(),
        record.next_version() <= u32::MAX,
    ensures
        record.with_version(
            VersionView { version: record.next_version() as u32, timestamp },
        ).wf(),
{
    let version = VersionView { version: record.next_version() as u32, timestamp };
    let longer = record.with_version(version);
    let count = record.versions.len() as int;
    assert forall|i: int| 0 <= i < longer.versions.len() implies (
    #[trigger] longer.versions[i]).version >= 1 by {
        if i < count {
            assert(longer.versions[i] == record.versions[i]);
        }
    }
    assert forall|i: int, j: int| 0 <= i < j < longer.versions.len() implies (
    #[trigger] longer.versions[i]).version < (#[trigger] longer.versions[j]).version by {
        assert(longer.versions[i] == record.versions[i]);
        if j < count {
            assert(longer.versions[j] == record.versions[j]);
        } else if i < count - 1 {
            assert(record.versions[i].version < record.versions[count - 1].version);
        }
    }
}

/// Records a backup of the path in `request`, made at the time `timestamp`.
///
/// `probed` is the type found at the path and `fresh_name` an unused name
/// for a storage directory; both matter only where the path is not yet
/// tracked. Where the record has no version number left, nothing changes.
pub fn do_backup_with(
    metadata: &mut Metadata,
    request: &The,
    probed: Filetype,
    fresh_name: String,
    timestamp: String,
) -> (result: Result<BackupPlan, Error>)
    requires
        old(metadata).wf(),
    ensures
        final(metadata).wf(),
        match result {
            Ok(plan) => {
                &&& backup_version(old(metadata)@, request.path@) <= u32::MAX
                &&& plan.version == backup_version(old(metadata)@, request.path@)
                &&& action_views(plan.actions@) == backup_actions(
                    old(metadata)@,
                    request.path@,
                    probed,
                    fresh_name@,
                )
                &&& final(metadata)@ == backup_catalog(
                    old(metadata)@,
                    request.path@,
                    probed,
                    fresh_name@,
                    timestamp@,
                )
                &&& final(metadata).tracked_paths() == if old(metadata)@.contains_key(
                    request.path@,
                ) {
                    old(metadata).tracked_paths()
                } else {
                    old(metadata).tracked_paths().push(request.path@)
                }
            },
            Err(e) => {
                &&& e == Error::VersionOverflow
                &&& backup_version(old(metadata)@, request.path@) > u32::MAX
                &&& final(metadata)@ == old(metadata)@
                &&& final(metadata).tracked_paths() == old(metadata).tracked_paths()
            },
        },
{
    let mut actions: Vec<Action> = Vec::new();
    let mut record = match metadata.get(request.path.as_str()) {
        Some(existing) => existing.clone(),
        None => {
            actions.push(Action::CreateStorage { storage: fresh_name.clone() });
            BackupMetadata::new(fresh_name, probed)
        },
    };
    let ghost before = record@;
    assert(before == backup_record(old(metadata)@, request.path@, probed, fresh_name@));
    match record.next_version() {
        None => Err(Error::VersionOverflow),
        Some(version) => {
            actions.push(
                Action::Store {
                    filetype: record.filetype,
                    source: request.path.clone(),
                    storage: record.path.clone(),
                    name: version_name(version),
                },
            );
            record.push_version(version, timestamp);
            proof {
                lemma_next_version_wf(before, timestamp@);
                assert(action_views(actions@) =~= backup_actions(
                    old(metadata)@,
                    request.path@,
                    probed,
                    fresh_name@,
                ));
            }
            metadata.insert(request.path.as_str(), record);
            Ok(BackupPlan { version, actions })
        },
    }
}

/// The current local time as text, in the format of RFC 2822: the result of
/// `chrono::offset::Local::now()`, written by `chrono::DateTime::to_rfc2822`.
///
/// Trusted, and nothing is stated of the result: it depends on the clock and
/// on the time zone of the machine. `chrono` panics where the clock shows a
/// year after 9999.
#[verifier::external_body]
fn local_timestamp() -> (text: String) {
    ::chrono::offset::Local::now().to_rfc2822()
}

/// Records a backup of the path in `request`, made now; a path that is not
/// yet tracked gets a storage directory with a fresh random name.
///
/// The outcome is that of [`do_backup_with`] for some timestamp and, where
/// the path was not tracked, for some name of sixteen letters and digits.
pub fn do_backup(metadata: &mut Metadata, request: &The, probed: Filetype) -> (result: Result<
    BackupPlan,
    Error,
>)
    requires
        old(metadata).wf(),
    ensures
        final(metadata).wf(),
        match result {
            Ok(plan) => {
                &&& backup_version(old(metadata)@, request.path@) <= u32::MAX
                &&& plan.version == backup_version(old(metadata)@, request.path@)
                &&& exists|fresh_name: Seq<char>, timestamp: Seq<char>|
                    {
                        &&& old(metadata)@.contains_key(request.path@) || is_storage_name(
                            fresh_name,
                        )
                        &&& action_views(plan.actions@) == backup_actions(
                            old(metadata)@,
                            request.path@,
                            probed,
                            fresh_name,
                        )
                        &&& final(metadata)@ == #[trigger] backup_catalog(
                            old(metadata)@,
                            request.path@,
                            probed,
                            fresh_name,
                            timestamp,
                        )
                    }
                &&& final(metadata).tracked_paths() == if old(metadata)@.contains_key(
                    request.path@,
                ) {
                    old(metadata).tracked_paths()
                } else {
                    old(metadata).tracked_paths().push(request.path@)
                }
            },
            Err(e) => {
                &&& e == Error::VersionOverflow
                &&& backup_version(old(metadata)@, request.path@) > u32::MAX
                &&& final(metadata)@ == old(metadata)@
                &&& final(metadata).tracked_paths() == old(metadata).tracked_paths()
            },
        },
{
    let fresh_name = if metadata.contains(request.path.as_str()) {
        String::new()
    } else {
        rand_string()
    };
    let timestamp = local_timestamp();
    let result = do_backup_with(metadata, request, probed, fresh_name, timestamp);
    proof {
        if result.is_ok() {
            assert(metadata@ == backup_catalog(
                old(metadata)@,
                request.path@,
                probed,
                fresh_name@,
                timestamp@,
            ));
        }
    }
    result
}

/// The catalog after one backup of `path` at each of the times in
/// `timestamps`, in turn.
pub open spec fn after_backups(
    catalog: Map<Seq<char>, RecordView>,
    path: Seq<char>,
    probed: Filetype,
    fresh_name: Seq<char>,
    timestamps: Seq<Seq<char>>,
) -> Map<Seq<char>, RecordView>
    decreases timestamps.len(),
{
    if timestamps.len() == 0 {
        catalog
    } else {
        backup_catalog(
            after_backups(catalog, path, probed, fresh_name, timestamps.drop_last()),
            path,
            probed,
            fresh_name,
            timestamps.last(),
        )
    }
}

/// The versions numbered from 1 upwards, one for each of `timestamps`.
pub open spec fn numbered_versions(timestamps: Seq<Seq<char>>) -> Seq<VersionView> {
    Seq::new(
        timestamps.len(),
        |i: int| VersionView { version: (i + 1) as u32, timestamp: timestamps[i] },
    )
}

/// A path that was not tracked and is then backed up any number of times
/// has exactly the versions 1, 2, 3 and so on, in that order, each with the
/// timestamp of its backup. It keeps the storage name and the type of its
/// first backup, and no other path is touched.
pub proof fn lemma_backups_number_versions(
    catalog: Map<Seq<char>, RecordView>,
    path: Seq<char>,
    probed: Filetype,
    fresh_name: Seq<char>,
    timestamps: Seq<Seq<char>>,
)
    requires
        !catalog.contains_key(path),
        1 <= timestamps.len() <= u32::MAX,
    ensures
        after_backups(catalog, path, probed, fresh_name, timestamps) == catalog.insert(
            path,
            RecordView {
                path: fresh_name,
                filetype: probed,
                versions: numbered_versions(timestamps),
            },
        ),
        list_versions_spec(after_backups(catalog, path, probed, fresh_name, timestamps), path)
            == Some(numbered_versions(timestamps)),
        backup_version(after_backups(catalog, path, probed, fresh_name, timestamps), path)
            == timestamps.len() + 1,
    decreases timestamps.len(),
{
    let earlier = timestamps.drop_last();
    let before = after_backups(catalog, path, probed, fresh_name, earlier);
    let record = RecordView {
        path: fresh_name,
        filetype: probed,
        versions: numbered_versions(timestamps),
    };
    if timestamps.len() == 1 {
        assert(before == catalog);
        assert(backup_record(before, path, probed, fresh_name).with_version(
            VersionView { version: 1, timestamp: timestamps.last() },
        ).versions =~= numbered_versions(timestamps));
    } else {
        lemma_backups_number_versions(catalog, path, probed, fresh_name, earlier);
        assert(before[path].versions == numbered_versions(earlier));
        assert(before[path].versions.last().version == earlier.len());
        assert(before[path].with_version(
            VersionView { version: timestamps.len() as u32, timestamp: timestamps.last() },
        ).versions =~= numbered_versions(timestamps));
        assert(before.insert(
            path,
            record,
        ) =~= catalog.insert(path, record));
    }
    assert(record.versions.last().version == timestamps.len());
}

/// A backup stores what stands at the path, under the name of the new
/// version in the storage directory of the record, and leaves the path and
/// everything else that is stored as it was. For a tracked path its storage
/// directory has to exist; for a new one it is made. A directory can be
/// stored only where nothing is left under the name of the new version.
pub proof fn lemma_backup_stores_item<T>(
    catalog: Map<Seq<char>, RecordView>,
    path: Seq<char>,
    probed: Filetype,
    fresh_name: Seq<char>,
    disk: Disk<T>,
)
    requires
        disk.items.contains_key(path),
        catalog.contains_key(path) ==> disk.storages.contains(catalog[path].path),
        backup_record(catalog, path, probed, fresh_name).filetype == Filetype::Directory
            ==> !disk.versions.contains_key(
            (
                backup_record(catalog, path, probed, fresh_name).path,
                version_name_spec(backup_version(catalog, path)),
            ),
        ),
    ensures
        can_run(disk, backup_actions(catalog, path, probed, fresh_name)),
        run(disk, backup_actions(catalog, path, probed, fresh_name)) == (Disk {
            items: disk.items,
            storages: disk.storages.insert(
                backup_record(catalog, path, probed, fresh_name).path,
            ),
            versions: disk.versions.insert(
                (
                    backup_record(catalog, path, probed, fresh_name).path,
                    version_name_spec(backup_version(catalog, path)),
                ),
                disk.items[path],
            ),
        }),
{
    let record = backup_record(catalog, path, probed, fresh_name);
    let store = ActionView::Store {
        filetype: record.filetype,
        source: path,
        storage: record.path,
        name: version_name_spec(backup_version(catalog, path)),
    };
    if catalog.contains_key(path) {
        lemma_run_one(disk, store);
        assert(disk.storages.insert(record.path) =~= disk.storages);
    } else {
        lemma_run_two(disk, ActionView::CreateStorage { storage: fresh_name }, store);
    }
}

} // verus!
