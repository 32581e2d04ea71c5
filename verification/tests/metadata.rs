use backup_tool::errors::Error;
use backup_tool::filetype::Filetype;
use backup_tool::metadata::{BackupMetadata, BackupVersionMetadata, Metadata};

fn version(n: u32, timestamp: &str) -> BackupVersionMetadata {
    BackupVersionMetadata { version: n, timestamp: timestamp.to_string() }
}

fn record(storage: &str, filetype: Filetype, numbers: &[u32]) -> BackupMetadata {
    BackupMetadata {
        path: storage.to_string(),
        filetype,
        versions: numbers.iter().map(|n| version(*n, "then")).collect(),
    }
}

#[test]
fn new_record_has_no_versions() {
    let r = BackupMetadata::new("abc".to_string(), Filetype::Directory);
    assert_eq!(r.path, "abc");
    assert_eq!(r.filetype, Filetype::Directory);
    assert!(r.versions.is_empty());
    assert!(r.is_well_formed());
    assert_eq!(r.first_version(), None);
    assert_eq!(r.next_version(), Some(1));
}

#[test]
fn record_well_formedness() {
    assert!(record("s", Filetype::File, &[]).is_well_formed());
    assert!(record("s", Filetype::File, &[1]).is_well_formed());
    assert!(record("s", Filetype::File, &[1, 2, 3]).is_well_formed());
    assert!(record("s", Filetype::File, &[1, 3]).is_well_formed());
    assert!(record("s", Filetype::File, &[5, 9, u32::MAX]).is_well_formed());
    assert!(!record("s", Filetype::File, &[0]).is_well_formed());
    assert!(!record("s", Filetype::File, &[0, 1]).is_well_formed());
    assert!(!record("s", Filetype::File, &[1, 1]).is_well_formed());
    assert!(!record("s", Filetype::File, &[2, 1]).is_well_formed());
    assert!(!record("s", Filetype::File, &[1, 3, 2]).is_well_formed());
    assert!(!record("s", Filetype::File, &[1, 2, 2]).is_well_formed());
}

#[test]
fn record_next_version_follows_the_newest() {
    assert_eq!(record("s", Filetype::File, &[1]).next_version(), Some(2));
    assert_eq!(record("s", Filetype::File, &[1, 2, 3]).next_version(), Some(4));
    assert_eq!(record("s", Filetype::File, &[1, 3]).next_version(), Some(4));
    assert_eq!(record("s", Filetype::File, &[1, 2]).next_version(), Some(3));
    assert_eq!(record("s", Filetype::File, &[u32::MAX - 1]).next_version(), Some(u32::MAX));
    assert_eq!(record("s", Filetype::File, &[u32::MAX]).next_version(), None);
}

#[test]
fn record_first_version_is_the_oldest() {
    assert_eq!(record("s", Filetype::File, &[1, 2, 3]).first_version(), Some(1));
    assert_eq!(record("s", Filetype::File, &[2, 3]).first_version(), Some(2));
}

#[test]
fn record_has_version() {
    let r = record("s", Filetype::File, &[1, 3]);
    assert!(r.has_version(1));
    assert!(!r.has_version(2));
    assert!(r.has_version(3));
    assert!(!r.has_version(0));
    assert!(!r.has_version(4));
}

#[test]
fn record_push_version_appends() {
    let mut r = record("s", Filetype::File, &[1]);
    r.push_version(2, "later".to_string());
    assert_eq!(r.versions, vec![version(1, "then"), version(2, "later")]);
    assert_eq!(r.path, "s");
    assert_eq!(r.filetype, Filetype::File);
}

#[test]
fn record_remove_version_keeps_the_others() {
    let mut r = record("s", Filetype::Directory, &[1, 2, 3]);
    r.remove_version(2);
    assert_eq!(r.versions, vec![version(1, "then"), version(3, "then")]);
    r.remove_version(7);
    assert_eq!(r.versions, vec![version(1, "then"), version(3, "then")]);
    r.remove_version(1);
    assert_eq!(r.versions, vec![version(3, "then")]);
    r.remove_version(3);
    assert!(r.versions.is_empty());
    assert_eq!(r.path, "s");
    assert_eq!(r.filetype, Filetype::Directory);
}

#[test]
fn record_clone_is_equal() {
    let r = record("s", Filetype::Directory, &[1, 2, 5]);
    assert_eq!(r.clone(), r);
    let v = version(4, "now");
    assert_eq!(v.clone(), v);
}

#[test]
fn new_catalog_tracks_nothing() {
    let m = Metadata::new();
    assert_eq!(m.len(), 0);
    assert!(m.paths().is_empty());
    assert!(m.records().is_empty());
    assert!(!m.contains("/a"));
    assert!(m.get("/a").is_none());
    let d = Metadata::default();
    assert_eq!(d.len(), 0);
}

#[test]
fn catalog_insert_and_get() {
    let mut m = Metadata::new();
    m.insert("/a", record("sa", Filetype::File, &[1]));
    m.insert("/b", record("sb", Filetype::Directory, &[1, 2]));
    assert_eq!(m.len(), 2);
    assert!(m.contains("/a"));
    assert!(m.contains("/b"));
    assert!(!m.contains("/c"));
    assert!(!m.contains("/A"));
    assert_eq!(m.get("/a"), Some(&record("sa", Filetype::File, &[1])));
    assert_eq!(m.get("/b"), Some(&record("sb", Filetype::Directory, &[1, 2])));
    assert_eq!(m.get("/c"), None);
    assert_eq!(m.paths(), vec!["/a".to_string(), "/b".to_string()]);
}

#[test]
fn catalog_insert_replaces_in_place() {
    let mut m = Metadata::new();
    m.insert("/a", record("sa", Filetype::File, &[1]));
    m.insert("/b", record("sb", Filetype::Directory, &[1, 2]));
    m.insert("/a", record("other", Filetype::File, &[1, 2, 3]));
    assert_eq!(m.len(), 2);
    assert_eq!(m.get("/a"), Some(&record("other", Filetype::File, &[1, 2, 3])));
    assert_eq!(m.get("/b"), Some(&record("sb", Filetype::Directory, &[1, 2])));
    assert_eq!(m.paths(), vec!["/a".to_string(), "/b".to_string()]);
}

#[test]
fn catalog_remove() {
    let mut m = Metadata::new();
    m.insert("/a", record("sa", Filetype::File, &[1]));
    m.insert("/b", record("sb", Filetype::Directory, &[1, 2]));
    m.insert("/c", record("sc", Filetype::File, &[4]));
    assert_eq!(m.remove("/b"), Some(record("sb", Filetype::Directory, &[1, 2])));
    assert_eq!(m.remove("/b"), None);
    assert_eq!(m.remove("/x"), None);
    assert_eq!(m.len(), 2);
    assert_eq!(m.paths(), vec!["/a".to_string(), "/c".to_string()]);
    assert_eq!(m.get("/a"), Some(&record("sa", Filetype::File, &[1])));
    assert_eq!(m.get("/c"), Some(&record("sc", Filetype::File, &[4])));
}

#[test]
fn from_records_accepts_a_valid_catalog() {
    let records = vec![
        ("/a".to_string(), record("sa", Filetype::File, &[1, 2])),
        ("/b".to_string(), record("sb", Filetype::Directory, &[])),
        ("/c".to_string(), record("sc", Filetype::Directory, &[2, 7])),
    ];
    let m = Metadata::from_records(records).unwrap();
    assert_eq!(m.len(), 3);
    assert_eq!(m.paths(), vec!["/a".to_string(), "/b".to_string(), "/c".to_string()]);
    assert_eq!(m.get("/a"), Some(&record("sa", Filetype::File, &[1, 2])));
    assert_eq!(m.get("/b"), Some(&record("sb", Filetype::Directory, &[])));
    assert_eq!(m.get("/c"), Some(&record("sc", Filetype::Directory, &[2, 7])));
}

#[test]
fn from_records_accepts_an_empty_catalog() {
    let m = Metadata::from_records(Vec::new()).unwrap();
    assert_eq!(m.len(), 0);
}

#[test]
fn from_records_rejects_a_path_named_twice() {
    let records = vec![
        ("/a".to_string(), record("sa", Filetype::File, &[1])),
        ("/b".to_string(), record("sb", Filetype::File, &[1])),
        ("/a".to_string(), record("sc", Filetype::File, &[1])),
    ];
    assert_eq!(Metadata::from_records(records).err(), Some(Error::InvalidCatalog));
}

#[test]
fn from_records_rejects_versions_out_of_order() {
    let records = vec![
        ("/a".to_string(), record("sa", Filetype::File, &[1])),
        ("/b".to_string(), record("sb", Filetype::File, &[2, 1])),
    ];
    assert_eq!(Metadata::from_records(records).err(), Some(Error::InvalidCatalog));
    let records = vec![("/a".to_string(), record("sa", Filetype::File, &[1, 1]))];
    assert_eq!(Metadata::from_records(records).err(), Some(Error::InvalidCatalog));
}

#[test]
fn from_records_rejects_version_zero() {
    let records = vec![("/a".to_string(), record("sa", Filetype::File, &[0, 1]))];
    assert_eq!(Metadata::from_records(records).err(), Some(Error::InvalidCatalog));
}

#[test]
fn records_give_the_catalog_back() {
    let mut m = Metadata::new();
    m.insert("/a", record("sa", Filetype::File, &[1, 3]));
    m.insert("/b", record("sb", Filetype::Directory, &[1, 2]));
    m.insert("/c", record("sc", Filetype::Directory, &[]));
    let copy: Vec<(String, BackupMetadata)> =
        m.records().iter().map(|e| (e.0.clone(), e.1.clone())).collect();
    let again = Metadata::from_records(copy).unwrap();
    assert_eq!(again.records(), m.records());
    assert_eq!(again.paths(), m.paths());
    let twice: Vec<(String, BackupMetadata)> =
        again.records().iter().map(|e| (e.0.clone(), e.1.clone())).collect();
    let third = Metadata::from_records(twice).unwrap();
    assert_eq!(third.records(), m.records());
}
