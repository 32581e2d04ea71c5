//! Reading the catalog: the tracked paths, and the versions of one path.

use crate::command::{List, Versions};
use crate::metadata::{version_views, BackupVersionMetadata, Metadata, RecordView, VersionView};
use vstd::prelude::*;

verus! {

/// The versions of `path` in the order in which they were made, or `None`
/// where the path is not tracked.
pub open spec fn list_versions_spec(catalog: Map<Seq<char>, RecordView>, path: Seq<char>) -> Option<
    Seq<VersionView>,
> {
    if catalog.contains_key(path) {
        Some(catalog[path].versions)
    } else {
        None
    }
}

/// The view of the answer to a request for the versions of a path.
pub open spec fn versions_result_view(result: Option<&Vec<BackupVersionMetadata>>) -> Option<
    Seq<VersionView>,
> {
    match result {
        Some(versions) => Some(version_views(versions@)),
        None => None,
    }
}

/// The tracked paths, each once, in the order in which the catalog holds
/// them.
pub fn list(metadata: &Metadata, _request: &List) -> (result: Vec<String>)
    requires
        metadata.wf(),
    ensures
        result@.map_values(|p: String| p@) == metadata.tracked_paths(),
        metadata.tracked_paths().no_duplicates(),
        metadata.tracked_paths().to_set() == metadata@.dom(),
{
    metadata.paths()
}

/// The versions of the path in `request`, oldest first, or `None` where the
/// path is not tracked.
pub fn list_versions<'a>(metadata: &'a Metadata, request: &Versions) -> (result: Option<
    &'a Vec<BackupVersionMetadata>,
>)
    requires
        metadata.wf(),
    ensures
        versions_result_view(result) == list_versions_spec(metadata@, request.path@),
{
    match metadata.get(request.path.as_str()) {
        Some(record) => Some(&record.versions),
        None => None,
    }
}

/// A request for the versions of a path that is not tracked is answered
/// with `None`; one for a tracked path with all its versions.
pub proof fn lemma_list_versions_tracked(catalog: Map<Seq<char>, RecordView>, path: Seq<char>)
    ensures
        list_versions_spec(catalog, path).is_none() <==> !catalog.contains_key(path),
        catalog.contains_key(path) ==> list_versions_spec(catalog, path) == Some(
            catalog[path].versions,
        ),
{
}

} // verus!
