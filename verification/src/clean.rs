//! Deleting one version of a path, or everything that is stored for it.

use crate::action::{action_views, Action, ActionView};
use crate::command::{selector_text, Clean};
use crate::disk::{can_run, lemma_run_one, run, Disk};
use crate::errors::Error;
use crate::metadata::{without_path, Metadata, RecordView, VersionView};
use crate::query::list_versions_spec;
use crate::version::{
    lemma_name_selects_version, parse_version, selector_version, version_name, version_name_spec,
};
use vstd::prelude::*;

verus! {

/// The answer to a request to clean a path.
#[derive(Debug, PartialEq, Eq)]
pub enum CleanOutcome {
    /// The path has no record.
    NotTracked,
    /// The record has no version with the selected number.
    NoSuchVersion,
    /// `version` has left the record; the steps delete its content.
    RemovedVersion { version: u32, actions: Vec<Action> },
    /// The record has left the catalog; the steps delete its storage.
    RemovedAll { actions: Vec<Action> },
}

/// What a [`CleanOutcome`] holds, as mathematical values.
pub enum CleanOutcomeView {
    NotTracked,
    NoSuchVersion,
    RemovedVersion { version: u32, actions: Seq<ActionView> },
    RemovedAll { actions: Seq<ActionView> },
}

impl View for CleanOutcome {
    type V = CleanOutcomeView;

    open spec fn view(&self) -> CleanOutcomeView {
        match *self {
            CleanOutcome::NotTracked => CleanOutcomeView::NotTracked,
            CleanOutcome::NoSuchVersion => CleanOutcomeView::NoSuchVersion,
            CleanOutcome::RemovedVersion { version, actions } => CleanOutcomeView::RemovedVersion {
                version,
                actions: action_views(actions@),
            },
            CleanOutcome::RemovedAll { actions } => CleanOutcomeView::RemovedAll {
                actions: action_views(actions@),
            },
        }
    }
}

/// The view of the answer to a request to clean.
pub open spec fn clean_result_view(result: Result<CleanOutcome, Error>) -> Result<
    CleanOutcomeView,
    Error,
> {
    match result {
        Ok(outcome) => Ok(outcome@),
        Err(e) => Err(e),
    }
}

/// The one step that deletes the content of `version` of `record`, as the
/// type that the record holds.
pub open spec fn remove_version_actions(record: RecordView, version: u32) -> Seq<ActionView> {
    seq![
        ActionView::RemoveVersion {
            filetype: record.filetype,
            storage: record.path,
            name: version_name_spec(version as nat),
        },
    ]
}

/// The one step that deletes everything that is stored for `record`.
pub open spec fn remove_all_actions(record: RecordView) -> Seq<ActionView> {
    seq![ActionView::RemoveStorage { storage: record.path }]
}

/// The answer to a request to clean `path`.
pub open spec fn clean_spec(
    catalog: Map<Seq<char>, RecordView>,
    path: Seq<char>,
    selector: Option<Seq<char>>,
) -> Result<CleanOutcomeView, Error> {
    if !catalog.contains_key(path) {
        Ok(CleanOutcomeView::NotTracked)
    } else {
        let record = catalog[path];
        match selector {
            Some(text) => match selector_version(text) {
                None => Err(Error::InvalidVersionFormat),
                Some(version) => if record.has_version(version) {
                    Ok(
                        CleanOutcomeView::RemovedVersion {
                            version,
                            actions: remove_version_actions(record, version),
                        },
                    )
                } else {
                    Ok(CleanOutcomeView::NoSuchVersion)
                },
            },
            None => Ok(CleanOutcomeView::RemovedAll { actions: remove_all_actions(record) }),
        }
    }
}

/// The catalog after a request to clean `path`: without the selected
/// version, without the record where no version was selected, and unchanged
/// where nothing was deleted.
pub open spec fn clean_catalog(
    catalog: Map<Seq<char>, RecordView>,
    path: Seq<char>,
    selector: Option<Seq<char>>,
) -> Map<Seq<char>, RecordView> {
    match clean_spec(catalog, path, selector) {
        Ok(CleanOutcomeView::RemovedVersion { version, .. }) => catalog.insert(
            path,
            catalog[path].without_version(version),
        ),
        Ok(CleanOutcomeView::RemovedAll { .. }) => catalog.remove(path),
        _ => catalog,
    }
}

/// A well-formed record stays well formed when versions leave it.
pub proof fn lemma_without_version_wf(record: RecordView, version: u32)
    requires
        record.wf(),
    ensures
        record.without_version(version).wf(),
    decreases record.versions.len(),
{
    reveal(Seq::filter);
    if record.versions.len() > 0 {
        let shorter = RecordView { versions: record.versions.drop_last(), ..record };
        assert forall|i: int| 0 <= i < shorter.versions.len() implies shorter.versions[i]
            == record.versions[i] by {}
        assert(shorter.wf());
        lemma_without_version_wf(shorter, version);
        let kept = shorter.without_version(version).versions;
        let last = record.versions.last();
        if last.version != version {
            let all = record.without_version(version).versions;
            assert(all == kept.push(last));
            assert forall|i: int| 0 <= i < kept.len() implies (#[trigger] kept[i]).version
                < last.version by {
                shorter.versions.lemma_filter_contains_rev(
                    |v: VersionView| v.version != version,
                    kept[i],
                );
                let k = choose|k: int|
                    0 <= k < shorter.versions.len() && shorter.versions[k] == kept[i];
                assert(record.versions[k].version < record.versions[record.versions.len()
                    - 1].version);
            }
            assert forall|i: int, j: int| 0 <= i < j < all.len() implies (#[trigger] all[i]).version
                < (#[trigger] all[j]).version by {
                assert(all[i] == kept[i]);
                if j < kept.len() {
                    assert(all[j] == kept[j]);
                }
            }
            assert forall|i: int| 0 <= i < all.len() implies (#[trigger] all[i]).version >= 1 by {
                if i < kept.len() {
                    assert(all[i] == kept[i]);
                } else {
                    assert(all[i] == record.versions[record.versions.len() - 1]);
                }
            }
        }
    }
}

/// Answers a request to clean a path, and takes what is to be deleted out of
/// the catalog. The catalog may be persisted only after every step of the
/// answer has succeeded.
pub fn clean(metadata: &mut Metadata, request: &Clean) -> (result: Result<CleanOutcome, Error>)
    requires
        old(metadata).wf(),
    ensures
        final(metadata).wf(),
        clean_result_view(result) == clean_spec(
            old(metadata)@,
            request.path@,
            selector_text(request.version),
        ),
        final(metadata)@ == clean_catalog(
            old(metadata)@,
            request.path@,
            selector_text(request.version),
        ),
        final(metadata).tracked_paths() == match result {
            Ok(CleanOutcome::RemovedAll { .. }) => without_path(
                old(metadata).tracked_paths(),
                request.path@,
            ),
            _ => old(metadata).tracked_paths(),
        },
{
    let mut record = match metadata.get(request.path.as_str()) {
        None => {
            return Ok(CleanOutcome::NotTracked);
        },
        Some(record) => record.clone(),
    };
    let ghost before = record@;
    match &request.version {
        Some(text) => {
            let version = match parse_version(text.as_str()) {
                Err(e) => {
                    return Err(e);
                },
                Ok(version) => version,
            };
            if !record.has_version(version) {
                return Ok(CleanOutcome::NoSuchVersion);
            }
            let mut actions: Vec<Action> = Vec::new();
            actions.push(
                Action::RemoveVersion {
                    filetype: record.filetype,
                    storage: record.path.clone(),
                    name: version_name(version),
                },
            );
            record.remove_version(version);
            proof {
                lemma_without_version_wf(before, version);
                assert(action_views(actions@) =~= remove_version_actions(before, version));
            }
            metadata.insert(request.path.as_str(), record);
            Ok(CleanOutcome::RemovedVersion { version, actions })
        },
        None => {
            let mut actions: Vec<Action> = Vec::new();
            actions.push(Action::RemoveStorage { storage: record.path.clone() });
            assert(action_views(actions@) =~= remove_all_actions(before));
            metadata.remove(request.path.as_str());
            Ok(CleanOutcome::RemovedAll { actions })
        },
    }
}

/// Taking out the number of the version at `i` removes that version and
/// nothing else.
pub proof fn lemma_without_version_removes(record: RecordView, i: int)
    requires
        record.wf(),
        0 <= i < record.versions.len(),
    ensures
        record.without_version(record.versions[i].version).versions == record.versions.remove(i),
    decreases record.versions.len(),
{
    reveal(Seq::filter);
    let version = record.versions[i].version;
    let shorter = RecordView { versions: record.versions.drop_last(), ..record };
    assert forall|k: int| 0 <= k < shorter.versions.len() implies shorter.versions[k]
        == record.versions[k] by {}
    assert(shorter.wf());
    let last = record.versions.len() - 1;
    if i == last {
        lemma_without_version_absent(shorter, version);
        assert(record.versions.remove(i) =~= shorter.versions);
    } else {
        lemma_without_version_removes(shorter, i);
        assert(record.versions[i].version < record.versions[last].version);
        assert(record.versions.remove(i) =~= shorter.versions.remove(i).push(
            record.versions.last(),
        ));
    }
}

/// Taking out a number that no version has changes nothing.
pub proof fn lemma_without_version_absent(record: RecordView, version: u32)
    requires
        forall|k: int|
            0 <= k < record.versions.len() ==> (#[trigger] record.versions[k]).version != version,
    ensures
        record.without_version(version).versions == record.versions,
    decreases record.versions.len(),
{
    reveal(Seq::filter);
    if record.versions.len() > 0 {
        let shorter = RecordView { versions: record.versions.drop_last(), ..record };
        assert forall|k: int| 0 <= k < shorter.versions.len() implies (
        #[trigger] shorter.versions[k]).version != version by {
            assert(shorter.versions[k] == record.versions[k]);
        }
        lemma_without_version_absent(shorter, version);
        assert(record.versions.last() == record.versions[record.versions.len() - 1]);
        assert(shorter.versions.push(record.versions.last()) =~= record.versions);
    }
}

/// Deleting one version leaves every other version of the path in the
/// record, in the same order, and leaves every other path as it was. The one
/// step deletes the content stored under the name of that version, which is
/// the name of no other version.
pub proof fn lemma_clean_version_keeps_others(
    catalog: Map<Seq<char>, RecordView>,
    path: Seq<char>,
    selector: Seq<char>,
    i: int,
)
    requires
        catalog.contains_key(path),
        catalog[path].wf(),
        0 <= i < catalog[path].versions.len(),
        selector_version(selector) == Some(catalog[path].versions[i].version),
    ensures
        clean_spec(catalog, path, Some(selector)) == Ok::<CleanOutcomeView, Error>(
            CleanOutcomeView::RemovedVersion {
                version: catalog[path].versions[i].version,
                actions: remove_version_actions(catalog[path], catalog[path].versions[i].version),
            },
        ),
        clean_catalog(catalog, path, Some(selector)) == catalog.insert(
            path,
            RecordView { versions: catalog[path].versions.remove(i), ..catalog[path] },
        ),
        forall|k: int|
            0 <= k < catalog[path].versions.len() && k != i ==> version_name_spec(
                (#[trigger] catalog[path].versions[k]).version as nat,
            ) != version_name_spec(catalog[path].versions[i].version as nat),
{
    let record = catalog[path];
    let version = record.versions[i].version;
    lemma_without_version_removes(record, i);
    assert(record.without_version(version) == RecordView {
        versions: record.versions.remove(i),
        ..record
    });
    assert forall|k: int| 0 <= k < record.versions.len() && k != i implies version_name_spec(
        (#[trigger] record.versions[k]).version as nat,
    ) != version_name_spec(version as nat) by {
        lemma_name_selects_version(version);
        if k < i {
            assert(record.versions[k].version < record.versions[i].version);
        } else {
            assert(record.versions[i].version < record.versions[k].version);
        }
    }
}

/// Cleaning a path without a selector deletes its storage directory and
/// takes its record out of the catalog: the path is then not tracked, and
/// every other path is as it was.
pub proof fn lemma_clean_all_untracks(catalog: Map<Seq<char>, RecordView>, path: Seq<char>)
    requires
        catalog.contains_key(path),
    ensures
        clean_spec(catalog, path, None) == Ok::<CleanOutcomeView, Error>(
            CleanOutcomeView::RemovedAll {
                actions: seq![ActionView::RemoveStorage { storage: catalog[path].path }],
            },
        ),
        clean_catalog(catalog, path, None) == catalog.remove(path),
        !clean_catalog(catalog, path, None).contains_key(path),
        list_versions_spec(clean_catalog(catalog, path, None), path).is_none(),
{
}

/// A request to clean a path that is not tracked is answered, not refused,
/// whatever the selector holds, and changes nothing.
pub proof fn lemma_clean_untracked(
    catalog: Map<Seq<char>, RecordView>,
    path: Seq<char>,
    selector: Option<Seq<char>>,
)
    requires
        !catalog.contains_key(path),
    ensures
        clean_spec(catalog, path, selector) == Ok::<CleanOutcomeView, Error>(CleanOutcomeView::NotTracked),
        clean_catalog(catalog, path, selector) == catalog,
{
}

/// Deleting one version of a record deletes what is stored under the name
/// of that version and nothing else: what the other versions of the record
/// hold stays where it is, and so does what stands at any path.
pub proof fn lemma_clean_version_keeps_content<T>(record: RecordView, i: int, disk: Disk<T>)
    requires
        record.wf(),
        0 <= i < record.versions.len(),
    ensures
        can_run(disk, remove_version_actions(record, record.versions[i].version)),
        run(disk, remove_version_actions(record, record.versions[i].version)) == (Disk {
            versions: disk.versions.remove(
                (record.path, version_name_spec(record.versions[i].version as nat)),
            ),
            ..disk
        }),
        forall|k: int|
            0 <= k < record.versions.len() && k != i && disk.versions.contains_key(
                (record.path, version_name_spec((#[trigger] record.versions[k]).version as nat)),
            ) ==> {
                let place = (record.path, version_name_spec(record.versions[k].version as nat));
                let after = run(
                    disk,
                    remove_version_actions(record, record.versions[i].version),
                );
                after.versions.contains_key(place) && after.versions[place]
                    == disk.versions[place]
            },
{
    let version = record.versions[i].version;
    let action = ActionView::RemoveVersion {
        filetype: record.filetype,
        storage: record.path,
        name: version_name_spec(version as nat),
    };
    lemma_run_one(disk, action);
    assert forall|k: int| 0 <= k < record.versions.len() && k != i implies version_name_spec(
        (#[trigger] record.versions[k]).version as nat,
    ) != version_name_spec(version as nat) by {
        lemma_name_selects_version(version);
        if k < i {
            assert(record.versions[k].version < record.versions[i].version);
        } else {
            assert(record.versions[i].version < record.versions[k].version);
        }
    }
}

/// Deleting everything that is stored for a record leaves nothing in its
/// storage directory, removes the directory, and touches no other storage
/// directory and no path.
pub proof fn lemma_clean_all_empties_storage<T>(record: RecordView, disk: Disk<T>)
    ensures
        can_run(disk, remove_all_actions(record)),
        run(disk, remove_all_actions(record)).items == disk.items,
        !run(disk, remove_all_actions(record)).storages.contains(record.path),
        forall|storage: Seq<char>, name: Seq<char>|
            #![trigger run(disk, remove_all_actions(record)).versions.contains_key((storage, name))]
            run(disk, remove_all_actions(record)).versions.contains_key((storage, name)) <==> (
            storage != record.path && disk.versions.contains_key((storage, name))),
        forall|storage: Seq<char>, name: Seq<char>|
            #![trigger run(disk, remove_all_actions(record)).versions[(storage, name)]]
            storage != record.path && disk.versions.contains_key((storage, name)) ==> run(
                disk,
                remove_all_actions(record),
            ).versions[(storage, name)] == disk.versions[(storage, name)],
{
    lemma_run_one(disk, ActionView::RemoveStorage { storage: record.path });
}

} // verus!
