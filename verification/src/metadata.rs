//! The catalog: for every tracked path, where its versions are stored, what
//! kind of item it is, and which versions exist.

use crate::errors::Error;
use crate::filetype::Filetype;
use vstd::prelude::*;

verus! {

/// One stored snapshot of a tracked path.
#[derive(Debug, PartialEq, Eq)]
pub struct BackupVersionMetadata {
    /// The number of the version, counted from 1 within its record.
    pub version: u32,
    /// When the version was made, as text.
    pub timestamp: String,
}

/// What a [`BackupVersionMetadata`] holds, as mathematical values.
pub struct VersionView {
    pub version: u32,
    pub timestamp: Seq<char>,
}

impl View for BackupVersionMetadata {
    type V = VersionView;

    open spec fn view(&self) -> VersionView {
        VersionView { version: self.version, timestamp: self.timestamp@ }
    }
}

impl Clone for BackupVersionMetadata {
    fn clone(&self) -> (result: Self)
        ensures
            result@ == self@,
    {
        BackupVersionMetadata { version: self.version, timestamp: self.timestamp.clone() }
    }
}

/// The views of a sequence of versions, in the same order.
pub open spec fn version_views(versions: Seq<BackupVersionMetadata>) -> Seq<VersionView> {
    versions.map_values(|v: BackupVersionMetadata| v@)
}

/// Everything the catalog knows about one tracked path.
#[derive(Debug, PartialEq, Eq)]
pub struct BackupMetadata {
    /// The name of the directory, below the backup root, that holds the
    /// versions of this path. It never changes once the record exists.
    pub path: String,
    /// The kind of item that was found when the path was first backed up.
    pub filetype: Filetype,
    /// The versions that exist, oldest first.
    pub versions: Vec<BackupVersionMetadata>,
}

/// What a [`BackupMetadata`] holds, as mathematical values.
pub struct RecordView {
    pub path: Seq<char>,
    pub filetype: Filetype,
    pub versions: Seq<VersionView>,
}

impl RecordView {
    /// The version numbers are positive and strictly increasing.
    pub open spec fn wf(self) -> bool {
        &&& forall|i: int|
            0 <= i < self.versions.len() ==> (#[trigger] self.versions[i]).version >= 1
        &&& forall|i: int, j: int|
            0 <= i < j < self.versions.len() ==> (#[trigger] self.versions[i]).version < (
            #[trigger] self.versions[j]).version
    }

    /// Whether the record holds a version with number `n`.
    pub open spec fn has_version(self, n: u32) -> bool {
        exists|i: int| 0 <= i < self.versions.len() && (#[trigger] self.versions[i]).version == n
    }

    /// The number that the next version of this record gets: one more than
    /// that of the newest version, or 1 where there is none.
    pub open spec fn next_version(self) -> nat {
        if self.versions.len() == 0 {
            1
        } else {
            (self.versions.last().version + 1) as nat
        }
    }

    /// The record with one more version at its end.
    pub open spec fn with_version(self, version: VersionView) -> RecordView {
        RecordView { versions: self.versions.push(version), ..self }
    }

    /// The record without the versions numbered `n`; the others stay, in
    /// their order.
    pub open spec fn without_version(self, n: u32) -> RecordView {
        RecordView { versions: self.versions.filter(|v: VersionView| v.version != n), ..self }
    }
}

impl View for BackupMetadata {
    type V = RecordView;

    open spec fn view(&self) -> RecordView {
        RecordView {
            path: self.path@,
            filetype: self.filetype,
            versions: version_views(self.versions@),
        }
    }
}

impl Clone for BackupMetadata {
    fn clone(&self) -> (result: Self)
        ensures
            result@ == self@,
    {
        let mut versions: Vec<BackupVersionMetadata> = Vec::new();
        let mut i: usize = 0;
        while i < self.versions.len()
            invariant
                i <= self.versions.len(),
                versions@.len() == i,
                forall|k: int| 0 <= k < i ==> (#[trigger] versions@[k])@ == self.versions@[k]@,
            decreases self.versions.len() - i,
        {
            versions.push(self.versions[i].clone());
            i += 1;
        }
        assert(version_views(versions@) =~= version_views(self.versions@));
        BackupMetadata { path: self.path.clone(), filetype: self.filetype, versions }
    }
}

impl BackupMetadata {
    /// A record without versions, stored under `path`.
    pub fn new(path: String, filetype: Filetype) -> (result: Self)
        ensures
            result@ == (RecordView { path: path@, filetype, versions: Seq::empty() }),
            result@.wf(),
    {
        let result = BackupMetadata { path, filetype, versions: Vec::new() };
        assert(result@.versions =~= Seq::empty());
        result
    }

    /// Whether the version numbers are positive and strictly increasing.
    pub fn is_well_formed(&self) -> (result: bool)
        ensures
            result == self@.wf(),
    {
        let mut previous: u32 = 0;
        let mut i: usize = 0;
        while i < self.versions.len()
            invariant
                i <= self.versions.len(),
                i > 0 ==> previous == self.versions[i - 1].version,
                i == 0 ==> previous == 0,
                forall|k: int| 0 <= k < i ==> (#[trigger] self@.versions[k]).version >= 1,
                forall|k: int, l: int|
                    0 <= k < l < i ==> (#[trigger] self@.versions[k]).version < (
                    #[trigger] self@.versions[l]).version,
            decreases self.versions.len() - i,
        {
            let current = self.versions[i].version;
            if current <= previous {
                proof {
                    if i == 0 {
                        assert(self@.versions[0].version == 0);
                    } else {
                        assert(self@.versions[i - 1].version >= self@.versions[i as int].version);
                    }
                }
                return false;
            }
            assert forall|k: int, l: int| 0 <= k < l < i + 1 implies (
            #[trigger] self@.versions[k]).version < (#[trigger] self@.versions[l]).version by {
                if l == i && k < i - 1 {
                    assert(self@.versions[k].version < self@.versions[i - 1].version);
                }
            }
            previous = current;
            i += 1;
        }
        true
    }

    /// Whether the record holds a version with number `n`.
    pub fn has_version(&self, n: u32) -> (result: bool)
        ensures
            result == self@.has_version(n),
    {
        let mut i: usize = 0;
        while i < self.versions.len()
            invariant
                i <= self.versions.len(),
                forall|k: int| 0 <= k < i ==> (#[trigger] self@.versions[k]).version != n,
            decreases self.versions.len() - i,
        {
            if self.versions[i].version == n {
                assert(self@.versions[i as int].version == n);
                return true;
            }
            i += 1;
        }
        false
    }

    /// The number of the oldest version, if there is any.
    pub fn first_version(&self) -> (result: Option<u32>)
        ensures
            result == if self@.versions.len() == 0 {
                None
            } else {
                Some(self@.versions[0].version)
            },
    {
        if self.versions.len() == 0 {
            None
        } else {
            Some(self.versions[0].version)
        }
    }

    /// The number that the next version gets, or `None` where the newest
    /// version already has the highest number there is.
    pub fn next_version(&self) -> (result: Option<u32>)
        ensures
            result == if self@.next_version() <= u32::MAX {
                Some(self@.next_version() as u32)
            } else {
                None
            },
    {
        let count = self.versions.len();
        if count == 0 {
            Some(1)
        } else {
            let last = self.versions[count - 1].version;
            assert(last == self@.versions.last().version);
            if last == u32::MAX {
                None
            } else {
                Some(last + 1)
            }
        }
    }

    /// Adds a version at the end.
    pub fn push_version(&mut self, version: u32, timestamp: String)
        ensures
            final(self)@ == old(self)@.with_version(
                VersionView { version, timestamp: timestamp@ },
            ),
    {
        self.versions.push(BackupVersionMetadata { version, timestamp });
        assert(self@.versions =~= old(self)@.versions.push(
            VersionView { version, timestamp: timestamp@ },
        ));
    }

    /// Takes out the versions numbered `n` and keeps the others in their
    /// order.
    pub fn remove_version(&mut self, n: u32)
        ensures
            final(self)@ == old(self)@.without_version(n),
    {
        let ghost keep = |v: VersionView| v.version != n;
        let mut kept: Vec<BackupVersionMetadata> = Vec::new();
        let mut i: usize = 0;
        proof {
            reveal(Seq::filter);
            assert(version_views(self.versions@.take(0)) =~= Seq::empty());
        }
        while i < self.versions.len()
            invariant
                i <= self.versions.len(),
                keep == |v: VersionView| v.version != n,
                version_views(kept@) == version_views(self.versions@.take(i as int)).filter(keep),
            decreases self.versions.len() - i,
        {
            let ghost before = version_views(self.versions@.take(i as int));
            let ghost after = version_views(self.versions@.take(i as int + 1));
            proof {
                reveal(Seq::filter);
                assert(after.drop_last() =~= before);
                assert(after.last() == self.versions[i as int]@);
            }
            if self.versions[i].version != n {
                kept.push(self.versions[i].clone());
                assert(version_views(kept@) =~= before.filter(keep).push(
                    self.versions[i as int]@,
                ));
            }
            i += 1;
        }
        assert(self.versions@.take(i as int) =~= self.versions@);
        self.versions = kept;
    }
}

/// The records of a catalog as they are written down: a list of tracked
/// paths, each with its record.
pub type Entries = Seq<(Seq<char>, RecordView)>;

/// The views of a list of records, in the same order.
pub open spec fn record_views(records: Seq<(String, BackupMetadata)>) -> Entries {
    records.map_values(|e: (String, BackupMetadata)| (e.0@, e.1@))
}

/// Whether one of the entries is about `path`.
pub open spec fn has_key(entries: Entries, path: Seq<char>) -> bool {
    exists|i: int| 0 <= i < entries.len() && (#[trigger] entries[i]).0 == path
}

/// The place of an entry about `path`, where there is one.
pub open spec fn key_index(entries: Entries, path: Seq<char>) -> int {
    choose|i: int| 0 <= i < entries.len() && (#[trigger] entries[i]).0 == path
}

/// No path has two entries.
pub open spec fn distinct_keys(entries: Entries) -> bool {
    forall|i: int, j: int|
        0 <= i < j < entries.len() ==> (#[trigger] entries[i]).0 != (#[trigger] entries[j]).0
}

/// Every record is well formed.
pub open spec fn records_wf(entries: Entries) -> bool {
    forall|i: int| 0 <= i < entries.len() ==> (#[trigger] entries[i]).1.wf()
}

/// The mapping from paths to records that a list of entries stands for.
pub open spec fn as_map(entries: Entries) -> Map<Seq<char>, RecordView> {
    Map::new(
        |path: Seq<char>| has_key(entries, path),
        |path: Seq<char>| entries[key_index(entries, path)].1,
    )
}

/// The paths of a list of entries, in the same order.
pub open spec fn keys_of(entries: Entries) -> Seq<Seq<char>> {
    entries.map_values(|e: (Seq<char>, RecordView)| e.0)
}

/// With distinct paths, the mapping holds each entry's record under its
/// path.
pub proof fn lemma_as_map_entry(entries: Entries, i: int)
    requires
        distinct_keys(entries),
        0 <= i < entries.len(),
    ensures
        has_key(entries, entries[i].0),
        key_index(entries, entries[i].0) == i,
        as_map(entries).contains_key(entries[i].0),
        as_map(entries)[entries[i].0] == entries[i].1,
{
    assert(entries[i].0 == entries[i].0);
    let j = key_index(entries, entries[i].0);
    if j != i {
        if j < i {
            assert(entries[j].0 != entries[i].0);
        } else {
            assert(entries[i].0 != entries[j].0);
        }
    }
}

/// Replacing the record of an entry replaces it in the mapping.
pub proof fn lemma_as_map_update(entries: Entries, i: int, record: RecordView)
    requires
        distinct_keys(entries),
        0 <= i < entries.len(),
    ensures
        distinct_keys(entries.update(i, (entries[i].0, record))),
        as_map(entries.update(i, (entries[i].0, record))) == as_map(entries).insert(
            entries[i].0,
            record,
        ),
        keys_of(entries.update(i, (entries[i].0, record))) == keys_of(entries),
{
    let path = entries[i].0;
    let updated = entries.update(i, (path, record));
    assert forall|a: int, b: int| 0 <= a < b < updated.len() implies (#[trigger] updated[a]).0 != (
    #[trigger] updated[b]).0 by {
        assert(updated[a].0 == entries[a].0);
        assert(updated[b].0 == entries[b].0);
    }
    assert forall|k: Seq<char>| has_key(updated, k) <==> has_key(entries, k) by {
        if has_key(updated, k) {
            let j = key_index(updated, k);
            assert(entries[j].0 == k);
        }
        if has_key(entries, k) {
            let j = key_index(entries, k);
            assert(updated[j].0 == k);
        }
    }
    assert forall|k: Seq<char>| has_key(updated, k) implies #[trigger] as_map(updated)[k]
        == as_map(entries).insert(path, record)[k] by {
        let j = key_index(updated, k);
        lemma_as_map_entry(updated, j);
        lemma_as_map_entry(entries, j);
    }
    lemma_as_map_entry(entries, i);
    assert(as_map(updated) =~= as_map(entries).insert(path, record));
    assert(keys_of(updated) =~= keys_of(entries));
}

/// Adding an entry for a path that has none adds it to the mapping.
pub proof fn lemma_as_map_push(entries: Entries, path: Seq<char>, record: RecordView)
    requires
        distinct_keys(entries),
        !has_key(entries, path),
    ensures
        distinct_keys(entries.push((path, record))),
        as_map(entries.push((path, record))) == as_map(entries).insert(path, record),
        keys_of(entries.push((path, record))) == keys_of(entries).push(path),
{
    let longer = entries.push((path, record));
    assert forall|a: int, b: int| 0 <= a < b < longer.len() implies (#[trigger] longer[a]).0 != (
    #[trigger] longer[b]).0 by {
        assert(longer[a] == entries[a]);
        if b < entries.len() {
            assert(longer[b] == entries[b]);
        }
    }
    assert forall|k: Seq<char>| has_key(longer, k) <==> (k == path || has_key(entries, k)) by {
        if has_key(longer, k) {
            let j = key_index(longer, k);
            if j < entries.len() {
                assert(entries[j].0 == k);
            }
        }
        if has_key(entries, k) {
            let j = key_index(entries, k);
            assert(longer[j].0 == k);
        }
        if k == path {
            assert(longer[entries.len() as int].0 == k);
        }
    }
    assert forall|k: Seq<char>| has_key(longer, k) implies #[trigger] as_map(longer)[k] == as_map(
        entries,
    ).insert(path, record)[k] by {
        let j = key_index(longer, k);
        lemma_as_map_entry(longer, j);
        if j < entries.len() {
            lemma_as_map_entry(entries, j);
        }
    }
    assert(as_map(longer) =~= as_map(entries).insert(path, record));
    assert(keys_of(longer) =~= keys_of(entries).push(path));
}

/// Taking an entry out takes its path out of the mapping.
pub proof fn lemma_as_map_remove(entries: Entries, i: int)
    requires
        distinct_keys(entries),
        0 <= i < entries.len(),
    ensures
        distinct_keys(entries.remove(i)),
        !has_key(entries.remove(i), entries[i].0),
        as_map(entries.remove(i)) == as_map(entries).remove(entries[i].0),
        keys_of(entries.remove(i)) == keys_of(entries).remove(i),
{
    let path = entries[i].0;
    let shorter = entries.remove(i);
    assert forall|a: int| 0 <= a < shorter.len() implies #[trigger] shorter[a] == (if a < i {
        entries[a]
    } else {
        entries[a + 1]
    }) by {}
    assert forall|a: int, b: int| 0 <= a < b < shorter.len() implies (#[trigger] shorter[a]).0 != (
    #[trigger] shorter[b]).0 by {
        let a0 = if a < i { a } else { a + 1 };
        let b0 = if b < i { b } else { b + 1 };
        assert(shorter[a] == entries[a0]);
        assert(shorter[b] == entries[b0]);
    }
    assert forall|k: Seq<char>| has_key(shorter, k) <==> (k != path && has_key(entries, k)) by {
        if has_key(shorter, k) {
            let j = key_index(shorter, k);
            let j0 = if j < i { j } else { j + 1 };
            assert(shorter[j] == entries[j0]);
            assert(entries[j0].0 == k);
            if k == path {
                lemma_as_map_entry(entries, i);
                lemma_as_map_entry(entries, j0);
            }
        }
        if k != path && has_key(entries, k) {
            let j = key_index(entries, k);
            let j1 = if j < i { j } else { j - 1 };
            assert(shorter[j1] == entries[j]);
        }
    }
    assert forall|k: Seq<char>| has_key(shorter, k) implies #[trigger] as_map(shorter)[k]
        == as_map(entries).remove(path)[k] by {
        let j = key_index(shorter, k);
        let j0 = if j < i { j } else { j + 1 };
        assert(shorter[j] == entries[j0]);
        lemma_as_map_entry(shorter, j);
        lemma_as_map_entry(entries, j0);
    }
    assert(as_map(shorter) =~= as_map(entries).remove(path));
    assert(keys_of(shorter) =~= keys_of(entries).remove(i));
}

/// With distinct paths, the list of paths names each tracked path once.
pub proof fn lemma_keys_of(entries: Entries)
    requires
        distinct_keys(entries),
    ensures
        keys_of(entries).no_duplicates(),
        keys_of(entries).to_set() == as_map(entries).dom(),
{
    let keys = keys_of(entries);
    assert forall|i: int, j: int| 0 <= i < keys.len() && 0 <= j < keys.len() && i != j implies keys[i]
        != keys[j] by {
        if i < j {
            assert(entries[i].0 != entries[j].0);
        } else {
            assert(entries[j].0 != entries[i].0);
        }
    }
    assert forall|k: Seq<char>| keys.to_set().contains(k) <==> as_map(entries).dom().contains(
        k,
    ) by {
        if keys.to_set().contains(k) {
            let i = choose|i: int| 0 <= i < keys.len() && keys[i] == k;
            assert(entries[i].0 == k);
        }
        if has_key(entries, k) {
            let i = key_index(entries, k);
            assert(keys[i] == k);
        }
    }
    assert(keys.to_set() =~= as_map(entries).dom());
}

/// The paths other than `path`, in their order.
pub open spec fn without_path(paths: Seq<Seq<char>>, path: Seq<char>) -> Seq<Seq<char>> {
    paths.filter(|p: Seq<char>| p != path)
}

/// The catalog: every tracked path with its record.
#[derive(Debug)]
pub struct Metadata {
    backups: Vec<(String, BackupMetadata)>,
}

impl View for Metadata {
    type V = Map<Seq<char>, RecordView>;

    /// The mapping from tracked paths to their records.
    open spec fn view(&self) -> Map<Seq<char>, RecordView> {
        as_map(self.entries())
    }
}

impl Default for Metadata {
    /// A catalog that tracks nothing.
    fn default() -> (result: Self)
        ensures
            result.wf(),
            result@ == Map::<Seq<char>, RecordView>::empty(),
    {
        Metadata::new()
    }
}

impl Metadata {
    /// The entries of the catalog in the order in which it holds them: as
    /// they were handed in, and after them the paths that were added since.
    pub closed spec fn entries(&self) -> Entries {
        record_views(self.backups@)
    }

    /// No path is tracked twice, and every record is well formed.
    pub open spec fn wf(&self) -> bool {
        distinct_keys(self.entries()) && records_wf(self.entries())
    }

    /// The tracked paths, in the order of the entries.
    pub open spec fn tracked_paths(&self) -> Seq<Seq<char>> {
        keys_of(self.entries())
    }

    /// A catalog that tracks nothing.
    pub fn new() -> (result: Self)
        ensures
            result.wf(),
            result.entries() == Seq::<(Seq<char>, RecordView)>::empty(),
            result@ == Map::<Seq<char>, RecordView>::empty(),
    {
        let result = Metadata { backups: Vec::new() };
        assert(result.entries() =~= Seq::empty());
        assert(result@ =~= Map::empty());
        result
    }

    /// The place of the entry about `path`, if there is one.
    fn position(&self, path: &String) -> (result: Option<usize>)
        ensures
            match result {
                Some(i) => i < self.entries().len() && self.entries()[i as int].0 == path@,
                None => !has_key(self.entries(), path@),
            },
    {
        let mut i: usize = 0;
        while i < self.backups.len()
            invariant
                i <= self.backups.len(),
                forall|k: int| 0 <= k < i ==> (#[trigger] self.entries()[k]).0 != path@,
            decreases self.backups.len() - i,
        {
            if self.backups[i].0 == *path {
                return Some(i);
            }
            i += 1;
        }
        None
    }

    /// Builds a catalog from the records of a catalog document.
    ///
    /// The document is refused where it names a path twice or holds a record
    /// whose version numbers are not positive and strictly increasing.
    pub fn from_records(records: Vec<(String, BackupMetadata)>) -> (result: Result<Self, Error>)
        ensures
            match result {
                Ok(catalog) => {
                    &&& distinct_keys(record_views(records@))
                    &&& records_wf(record_views(records@))
                    &&& catalog.wf()
                    &&& catalog.entries() == record_views(records@)
                },
                Err(e) => {
                    &&& e == Error::InvalidCatalog
                    &&& !(distinct_keys(record_views(records@)) && records_wf(
                        record_views(records@),
                    ))
                },
            },
    {
        let ghost entries = record_views(records@);
        let mut i: usize = 0;
        while i < records.len()
            invariant
                i <= records.len(),
                entries == record_views(records@),
                forall|k: int| 0 <= k < i ==> (#[trigger] entries[k]).1.wf(),
                forall|k: int, l: int|
                    0 <= k < l < i ==> (#[trigger] entries[k]).0 != (#[trigger] entries[l]).0,
            decreases records.len() - i,
        {
            if !records[i].1.is_well_formed() {
                assert(!entries[i as int].1.wf());
                return Err(Error::InvalidCatalog);
            }
            let mut j: usize = 0;
            while j < i
                invariant
                    j <= i < records.len(),
                    entries == record_views(records@),
                    forall|k: int| 0 <= k < j ==> (#[trigger] entries[k]).0 != entries[i as int].0,
                decreases i - j,
            {
                if records[j].0 == records[i].0 {
                    assert(entries[j as int].0 == entries[i as int].0);
                    return Err(Error::InvalidCatalog);
                }
                j += 1;
            }
            i += 1;
        }
        Ok(Metadata { backups: records })
    }

    /// The records of the catalog, as a catalog document holds them.
    pub fn records(&self) -> (result: &Vec<(String, BackupMetadata)>)
        ensures
            record_views(result@) == self.entries(),
    {
        &self.backups
    }

    /// The number of tracked paths.
    pub fn len(&self) -> (result: usize)
        ensures
            result == self.entries().len(),
            self.wf() ==> result == self@.dom().len(),
    {
        proof {
            if self.wf() {
                lemma_keys_of(self.entries());
                keys_of(self.entries()).unique_seq_to_set();
            }
        }
        self.backups.len()
    }

    /// Whether `path` is tracked.
    pub fn contains(&self, path: &str) -> (result: bool)
        ensures
            result == self@.contains_key(path@),
    {
        let key = String::from_str(path);
        self.position(&key).is_some()
    }

    /// The record of `path`, if it is tracked.
    pub fn get(&self, path: &str) -> (result: Option<&BackupMetadata>)
        requires
            self.wf(),
        ensures
            match result {
                Some(record) => self@.contains_key(path@) && record@ == self@[path@] && record@.wf(),
                None => !self@.contains_key(path@),
            },
    {
        let key = String::from_str(path);
        match self.position(&key) {
            Some(i) => {
                proof {
                    lemma_as_map_entry(self.entries(), i as int);
                }
                Some(&self.backups[i].1)
            },
            None => None,
        }
    }

    /// The tracked paths, each once, in the order of the entries.
    pub fn paths(&self) -> (result: Vec<String>)
        ensures
            result@.map_values(|p: String| p@) == self.tracked_paths(),
            self.wf() ==> self.tracked_paths().no_duplicates() && self.tracked_paths().to_set()
                == self@.dom(),
    {
        let mut result: Vec<String> = Vec::new();
        let mut i: usize = 0;
        while i < self.backups.len()
            invariant
                i <= self.backups.len(),
                result@.len() == i,
                forall|k: int| 0 <= k < i ==> (#[trigger] result@[k])@ == self.entries()[k].0,
            decreases self.backups.len() - i,
        {
            result.push(self.backups[i].0.clone());
            i += 1;
        }
        proof {
            assert(result@.map_values(|p: String| p@) =~= self.tracked_paths());
            if self.wf() {
                lemma_keys_of(self.entries());
            }
        }
        result
    }

    /// Stores `record` under `path`, in place of the record that `path` had,
    /// if it had one. A path that was not tracked becomes the last one.
    pub fn insert(&mut self, path: &str, record: BackupMetadata)
        requires
            old(self).wf(),
            record@.wf(),
        ensures
            final(self).wf(),
            final(self)@ == old(self)@.insert(path@, record@),
            final(self).tracked_paths() == if old(self)@.contains_key(path@) {
                old(self).tracked_paths()
            } else {
                old(self).tracked_paths().push(path@)
            },
    {
        let key = String::from_str(path);
        let ghost before = self.entries();
        match self.position(&key) {
            Some(i) => {
                self.backups.set(i, (key, record));
                proof {
                    lemma_as_map_entry(before, i as int);
                    lemma_as_map_update(before, i as int, record@);
                    assert(self.entries() =~= before.update(i as int, (path@, record@)));
                }
            },
            None => {
                self.backups.push((key, record));
                proof {
                    lemma_as_map_push(before, path@, record@);
                    assert(self.entries() =~= before.push((path@, record@)));
                }
            },
        }
    }

    /// Stops tracking `path` and hands out the record it had, if any. The
    /// other paths keep their records and their order.
    pub fn remove(&mut self, path: &str) -> (result: Option<BackupMetadata>)
        requires
            old(self).wf(),
        ensures
            final(self).wf(),
            final(self)@ == old(self)@.remove(path@),
            match result {
                Some(record) => old(self)@.contains_key(path@) && record@ == old(self)@[path@],
                None => !old(self)@.contains_key(path@),
            },
            final(self).tracked_paths() == without_path(old(self).tracked_paths(), path@),
    {
        let key = String::from_str(path);
        let ghost before = self.entries();
        match self.position(&key) {
            Some(i) => {
                let entry = self.backups.remove(i);
                proof {
                    lemma_as_map_entry(before, i as int);
                    lemma_as_map_remove(before, i as int);
                    assert(self.entries() =~= before.remove(i as int));
                    lemma_keys_of(before);
                    lemma_filter_one_out(keys_of(before), i as int, path@);
                }
                Some(entry.1)
            },
            None => {
                proof {
                    assert(self@ =~= old(self)@.remove(path@));
                    assert forall|k: int| 0 <= k < before.len() implies keys_of(before)[k]
                        != path@ by {
                        assert(before[k].0 != path@);
                    }
                    lemma_filter_none_out(keys_of(before), path@);
                }
                None
            },
        }
    }
}

/// Filtering out a value that occurs once, at `i`, removes the element at
/// `i`.
proof fn lemma_filter_one_out(keys: Seq<Seq<char>>, i: int, path: Seq<char>)
    requires
        keys.no_duplicates(),
        0 <= i < keys.len(),
        keys[i] == path,
    ensures
        without_path(keys, path) == keys.remove(i),
    decreases keys.len(),
{
    reveal(Seq::filter);
    let shorter = keys.drop_last();
    if i == keys.len() - 1 {
        lemma_filter_none_out(shorter, path);
        assert(keys.remove(i) =~= shorter);
    } else {
        lemma_filter_one_out(shorter, i, path);
        assert(keys.remove(i) =~= shorter.remove(i).push(keys.last()));
    }
}

/// Filtering out a value that does not occur changes nothing.
proof fn lemma_filter_none_out(keys: Seq<Seq<char>>, path: Seq<char>)
    requires
        !keys.contains(path),
    ensures
        without_path(keys, path) == keys,
    decreases keys.len(),
{
    reveal(Seq::filter);
    if keys.len() > 0 {
        let shorter = keys.drop_last();
        assert forall|k: int| 0 <= k < shorter.len() implies shorter[k] != path by {
            assert(keys[k] == shorter[k]);
        }
        assert(keys.last() == keys[keys.len() - 1]);
        lemma_filter_none_out(shorter, path);
        assert(shorter.push(keys.last()) =~= keys);
    }
}

} // verus!
