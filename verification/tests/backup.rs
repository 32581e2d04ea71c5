use backup_tool::action::Action;
use backup_tool::backup::{do_backup, do_backup_with, BackupPlan};
use backup_tool::command::{List, The, Versions};
use backup_tool::errors::Error;
use backup_tool::filetype::Filetype;
use backup_tool::metadata::{BackupMetadata, BackupVersionMetadata, Metadata};
use backup_tool::query::{list, list_versions};

fn the(path: &str) -> The {
    The { path: path.to_string() }
}

fn versions_of(m: &Metadata, path: &str) -> Option<Vec<BackupVersionMetadata>> {
    list_versions(m, &Versions { path: path.to_string() }).cloned()
}

fn entry(n: u32, timestamp: &str) -> BackupVersionMetadata {
    BackupVersionMetadata { version: n, timestamp: timestamp.to_string() }
}

#[test]
fn first_backup_of_a_file() {
    let mut m = Metadata::new();
    let plan = do_backup_with(&mut m, &the("/home/u/a.txt"), Filetype::File, "Id0".to_string(), "t1".to_string());
    assert_eq!(
        plan,
        Ok(BackupPlan {
            version: 1,
            actions: vec![
                Action::CreateStorage { storage: "Id0".to_string() },
                Action::Store {
                    filetype: Filetype::File,
                    source: "/home/u/a.txt".to_string(),
                    storage: "Id0".to_string(),
                    name: "v1".to_string(),
                },
            ],
        })
    );
    assert_eq!(
        m.get("/home/u/a.txt"),
        Some(&BackupMetadata {
            path: "Id0".to_string(),
            filetype: Filetype::File,
            versions: vec![entry(1, "t1")],
        })
    );
    assert_eq!(m.len(), 1);
}

#[test]
fn first_backup_of_a_directory() {
    let mut m = Metadata::new();
    let plan = do_backup_with(&mut m, &the("/d"), Filetype::Directory, "Dir".to_string(), "t1".to_string());
    assert_eq!(
        plan,
        Ok(BackupPlan {
            version: 1,
            actions: vec![
                Action::CreateStorage { storage: "Dir".to_string() },
                Action::Store {
                    filetype: Filetype::Directory,
                    source: "/d".to_string(),
                    storage: "Dir".to_string(),
                    name: "v1".to_string(),
                },
            ],
        })
    );
}

#[test]
fn later_backup_keeps_storage_and_type() {
    let mut m = Metadata::new();
    do_backup_with(&mut m, &the("/a"), Filetype::File, "First".to_string(), "t1".to_string()).unwrap();
    let plan = do_backup_with(&mut m, &the("/a"), Filetype::Directory, "Second".to_string(), "t2".to_string());
    assert_eq!(
        plan,
        Ok(BackupPlan {
            version: 2,
            actions: vec![Action::Store {
                filetype: Filetype::File,
                source: "/a".to_string(),
                storage: "First".to_string(),
                name: "v2".to_string(),
            }],
        })
    );
    assert_eq!(
        m.get("/a"),
        Some(&BackupMetadata {
            path: "First".to_string(),
            filetype: Filetype::File,
            versions: vec![entry(1, "t1"), entry(2, "t2")],
        })
    );
}

#[test]
fn versions_count_up_from_one() {
    let mut m = Metadata::new();
    let n: u32 = 25;
    for i in 1..=n {
        let plan = do_backup_with(&mut m, &the("/a"), Filetype::File, "S".to_string(), format!("t{}", i)).unwrap();
        assert_eq!(plan.version, i);
    }
    let versions = versions_of(&m, "/a").unwrap();
    assert_eq!(versions.len(), 25);
    for i in 0..25usize {
        assert_eq!(versions[i], entry(i as u32 + 1, &format!("t{}", i + 1)));
    }
}

#[test]
fn backups_of_two_paths_do_not_mix() {
    let mut m = Metadata::new();
    do_backup_with(&mut m, &the("/a"), Filetype::File, "A".to_string(), "t1".to_string()).unwrap();
    do_backup_with(&mut m, &the("/b"), Filetype::Directory, "B".to_string(), "t2".to_string()).unwrap();
    do_backup_with(&mut m, &the("/a"), Filetype::File, "C".to_string(), "t3".to_string()).unwrap();
    assert_eq!(versions_of(&m, "/a"), Some(vec![entry(1, "t1"), entry(2, "t3")]));
    assert_eq!(versions_of(&m, "/b"), Some(vec![entry(1, "t2")]));
    assert_eq!(list(&m, &List {}), vec!["/a".to_string(), "/b".to_string()]);
}

#[test]
fn backup_after_a_gap_follows_the_newest() {
    let records = vec![(
        "/a".to_string(),
        BackupMetadata {
            path: "S".to_string(),
            filetype: Filetype::File,
            versions: vec![entry(1, "t1"), entry(3, "t3")],
        },
    )];
    let mut m = Metadata::from_records(records).unwrap();
    let plan = do_backup_with(&mut m, &the("/a"), Filetype::File, "X".to_string(), "t4".to_string()).unwrap();
    assert_eq!(plan.version, 4);
    assert_eq!(versions_of(&m, "/a"), Some(vec![entry(1, "t1"), entry(3, "t3"), entry(4, "t4")]));
}

#[test]
fn backup_of_an_emptied_record_starts_again_at_one() {
    let records = vec![(
        "/a".to_string(),
        BackupMetadata { path: "S".to_string(), filetype: Filetype::Directory, versions: vec![] },
    )];
    let mut m = Metadata::from_records(records).unwrap();
    let plan = do_backup_with(&mut m, &the("/a"), Filetype::File, "X".to_string(), "t".to_string()).unwrap();
    assert_eq!(
        plan,
        BackupPlan {
            version: 1,
            actions: vec![Action::Store {
                filetype: Filetype::Directory,
                source: "/a".to_string(),
                storage: "S".to_string(),
                name: "v1".to_string(),
            }],
        }
    );
}

#[test]
fn backup_without_a_number_left_changes_nothing() {
    let records = vec![
        (
            "/a".to_string(),
            BackupMetadata {
                path: "S".to_string(),
                filetype: Filetype::File,
                versions: vec![entry(u32::MAX, "t")],
            },
        ),
        (
            "/b".to_string(),
            BackupMetadata { path: "T".to_string(), filetype: Filetype::File, versions: vec![entry(1, "t")] },
        ),
    ];
    let mut m = Metadata::from_records(records).unwrap();
    let plan = do_backup_with(&mut m, &the("/a"), Filetype::File, "X".to_string(), "t2".to_string());
    assert_eq!(plan, Err(Error::VersionOverflow));
    assert_eq!(versions_of(&m, "/a"), Some(vec![entry(u32::MAX, "t")]));
    assert_eq!(versions_of(&m, "/b"), Some(vec![entry(1, "t")]));
    assert_eq!(m.len(), 2);
}

#[test]
fn backup_up_to_the_highest_number() {
    let records = vec![(
        "/a".to_string(),
        BackupMetadata {
            path: "S".to_string(),
            filetype: Filetype::File,
            versions: vec![entry(u32::MAX - 1, "t")],
        },
    )];
    let mut m = Metadata::from_records(records).unwrap();
    let plan = do_backup_with(&mut m, &the("/a"), Filetype::File, "X".to_string(), "t2".to_string()).unwrap();
    assert_eq!(plan.version, u32::MAX);
    assert_eq!(
        plan.actions,
        vec![Action::Store {
            filetype: Filetype::File,
            source: "/a".to_string(),
            storage: "S".to_string(),
            name: "v4294967295".to_string(),
        }]
    );
}

#[test]
fn backup_now_of_a_new_path() {
    let mut m = Metadata::new();
    let plan = do_backup(&mut m, &the("/a"), Filetype::Directory).unwrap();
    assert_eq!(plan.version, 1);
    assert_eq!(plan.actions.len(), 2);
    let storage = match &plan.actions[0] {
        Action::CreateStorage { storage } => storage.clone(),
        other => panic!("unexpected first step {:?}", other),
    };
    assert_eq!(storage.len(), 16);
    assert!(storage.chars().all(|c| c.is_ascii_alphanumeric()));
    assert_eq!(
        plan.actions[1],
        Action::Store {
            filetype: Filetype::Directory,
            source: "/a".to_string(),
            storage: storage.clone(),
            name: "v1".to_string(),
        }
    );
    let record = m.get("/a").unwrap();
    assert_eq!(record.path, storage);
    assert_eq!(record.filetype, Filetype::Directory);
    assert_eq!(record.versions.len(), 1);
    assert_eq!(record.versions[0].version, 1);
}

#[test]
fn backup_now_stamps_the_current_time() {
    let mut m = Metadata::new();
    let before = chrono::offset::Local::now();
    do_backup(&mut m, &the("/a"), Filetype::File).unwrap();
    let after = chrono::offset::Local::now();
    let stamp = m.get("/a").unwrap().versions[0].timestamp.clone();
    assert!(!stamp.is_empty());
    let parsed = chrono::DateTime::parse_from_rfc2822(&stamp).unwrap();
    assert!(parsed.timestamp() >= before.timestamp());
    assert!(parsed.timestamp() <= after.timestamp());
}

#[test]
fn backup_now_of_a_tracked_path() {
    let mut m = Metadata::new();
    do_backup_with(&mut m, &the("/a"), Filetype::File, "Kept".to_string(), "t1".to_string()).unwrap();
    let plan = do_backup(&mut m, &the("/a"), Filetype::File).unwrap();
    assert_eq!(
        plan,
        BackupPlan {
            version: 2,
            actions: vec![Action::Store {
                filetype: Filetype::File,
                source: "/a".to_string(),
                storage: "Kept".to_string(),
                name: "v2".to_string(),
            }],
        }
    );
    let record = m.get("/a").unwrap();
    assert_eq!(record.path, "Kept");
    assert_eq!(record.versions.len(), 2);
    assert_eq!(record.versions[0], entry(1, "t1"));
    assert_eq!(record.versions[1].version, 2);
}

#[test]
fn backup_now_gives_new_paths_their_own_storage() {
    let mut m = Metadata::new();
    do_backup(&mut m, &the("/a"), Filetype::File).unwrap();
    do_backup(&mut m, &the("/b"), Filetype::File).unwrap();
    assert_ne!(m.get("/a").unwrap().path, m.get("/b").unwrap().path);
}

#[test]
fn list_of_an_empty_catalog() {
    let m = Metadata::new();
    assert!(list(&m, &List {}).is_empty());
}

#[test]
fn list_names_each_path_once() {
    let mut m = Metadata::new();
    for path in ["/c", "/a", "/b", "/a", "/c", "/a"] {
        do_backup_with(&mut m, &the(path), Filetype::File, format!("S{}", path.len()), "t".to_string()).unwrap();
    }
    assert_eq!(list(&m, &List {}), vec!["/c".to_string(), "/a".to_string(), "/b".to_string()]);
}

#[test]
fn list_versions_of_an_untracked_path() {
    let mut m = Metadata::new();
    assert_eq!(versions_of(&m, "/a"), None);
    do_backup_with(&mut m, &the("/a"), Filetype::File, "S".to_string(), "t".to_string()).unwrap();
    assert_eq!(versions_of(&m, "/b"), None);
    assert_eq!(versions_of(&m, "/a/"), None);
    assert_eq!(versions_of(&m, ""), None);
}
