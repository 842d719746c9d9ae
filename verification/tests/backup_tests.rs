use localmind_core::backup::{apply_backup, clean_old_backups, count_snapshots, plan_backup,
    BackupError, DEFAULT_MAX_BACKUPS};
use localmind_core::commands::create_backup_model;
use localmind_core::timestamp::Timestamp;

fn ts(year: u16, month: u8, day: u8, hour: u8, minute: u8, second: u8) -> Timestamp {
    Timestamp { year, month, day, hour, minute, second }
}

fn name_at(t: &Timestamp) -> Vec<u8> {
    localmind_core::paths::snapshot_name_at(t)
}

#[test]
fn plan_derives_backup_locations() {
    let path = b"/home/user/maps/trip.mindmap".to_vec();
    let t = ts(2024, 3, 7, 9, 5, 30);
    let plan = match plan_backup(&path, &t) {
        Ok(p) => p,
        Err(e) => panic!("unexpected {:?}", e),
    };
    assert_eq!(plan.backup_dir, b"/home/user/maps/.localmind-backups/trip".to_vec());
    assert_eq!(plan.snapshot_name, b"2024-03-07T09-05-30.mindmap".to_vec());
    assert_eq!(
        plan.snapshot_path,
        b"/home/user/maps/.localmind-backups/trip/2024-03-07T09-05-30.mindmap".to_vec()
    );
}

#[test]
fn bare_filename_is_rejected_without_side_effect() {
    let path = b"trip.mindmap".to_vec();
    let t = ts(2024, 3, 7, 9, 5, 30);
    match plan_backup(&path, &t) {
        Err(BackupError::NoParent) => {},
        _ => panic!("expected a validation error for a bare filename"),
    }
    let mut listing: Vec<Vec<u8>> = vec![b"other.mindmap".to_vec()];
    let r = create_backup_model(&mut listing, &path, &t, DEFAULT_MAX_BACKUPS);
    match r {
        Err(m) => assert_eq!(m, "Invalid file path"),
        Ok(_) => panic!("expected a validation error"),
    }
    assert_eq!(listing, vec![b"other.mindmap".to_vec()]);
}

#[test]
fn parent_reference_names_no_file() {
    let path = b"/tmp/..".to_vec();
    let t = ts(2024, 3, 7, 9, 5, 30);
    match plan_backup(&path, &t) {
        Err(BackupError::NoStem) => {},
        _ => panic!("expected a validation error for a parent reference"),
    }
    let mut listing: Vec<Vec<u8>> = vec![b"other.mindmap".to_vec()];
    match create_backup_model(&mut listing, &path, &t, DEFAULT_MAX_BACKUPS) {
        Err(m) => assert_eq!(m, "Invalid filename"),
        Ok(_) => panic!("expected a validation error"),
    }
    assert_eq!(listing, vec![b"other.mindmap".to_vec()]);
}

#[test]
fn trailing_separators_back_up_the_directory_name() {
    let path = b"/home/user/".to_vec();
    let t = ts(2024, 3, 7, 9, 5, 30);
    let plan = plan_backup(&path, &t).unwrap();
    assert_eq!(plan.backup_dir, b"/home/.localmind-backups/user".to_vec());
    assert_eq!(
        plan.snapshot_path,
        b"/home/.localmind-backups/user/2024-03-07T09-05-30.mindmap".to_vec()
    );
    let dotted = b"/home/user/.".to_vec();
    let plan = plan_backup(&dotted, &t).unwrap();
    assert_eq!(plan.backup_dir, b"/home/.localmind-backups/user".to_vec());
}

#[test]
fn retention_keeps_the_newest_cap_snapshots() {
    // thirteen backups at distinct rising seconds against a cap of ten
    let path = b"/data/doc.mindmap".to_vec();
    let mut listing: Vec<Vec<u8>> = Vec::new();
    let mut names: Vec<Vec<u8>> = Vec::new();
    for k in 0..13u8 {
        let t = ts(2025, 6, 1, 12, k / 60, k % 60);
        names.push(name_at(&t));
        let (res, _deleted) =
            create_backup_model(&mut listing, &path, &t, DEFAULT_MAX_BACKUPS).unwrap();
        assert!(res.success);
    }
    assert_eq!(listing.len(), 10);
    let mut got = listing.clone();
    got.sort();
    let expected: Vec<Vec<u8>> = names[3..].to_vec();
    assert_eq!(got, expected);
}

#[test]
fn prune_deletes_oldest_first_and_spares_other_files() {
    let mut listing: Vec<Vec<u8>> = Vec::new();
    for k in 0..12u8 {
        let t = ts(2025, 6, 1, 12, 0, k);
        listing.push(name_at(&t));
    }
    listing.push(b"notes.txt".to_vec());
    listing.push(b"short".to_vec());
    let deleted = clean_old_backups(&mut listing, 10);
    assert_eq!(
        deleted,
        vec![
            b"2025-06-01T12-00-00.mindmap".to_vec(),
            b"2025-06-01T12-00-01.mindmap".to_vec(),
        ]
    );
    assert_eq!(count_snapshots(&listing), 10);
    assert!(listing.contains(&b"notes.txt".to_vec()));
    assert!(listing.contains(&b"short".to_vec()));
    assert!(!listing.contains(&b"2025-06-01T12-00-00.mindmap".to_vec()));
    assert!(listing.contains(&b"2025-06-01T12-00-11.mindmap".to_vec()));
}

#[test]
fn prune_below_cap_is_a_no_op() {
    let mut listing = vec![
        b"2025-06-01T12-00-00.mindmap".to_vec(),
        b"2025-06-01T12-00-01.mindmap".to_vec(),
    ];
    let before = listing.clone();
    let deleted = clean_old_backups(&mut listing, 10);
    assert!(deleted.is_empty());
    assert_eq!(listing, before);
}

#[test]
fn same_second_backup_overwrites_without_growth() {
    let mut listing: Vec<Vec<u8>> = Vec::new();
    let t = ts(2025, 6, 1, 12, 0, 0);
    let d1 = apply_backup(&mut listing, name_at(&t), 10);
    let d2 = apply_backup(&mut listing, name_at(&t), 10);
    assert!(d1.is_empty() && d2.is_empty());
    assert_eq!(listing, vec![b"2025-06-01T12-00-00.mindmap".to_vec()]);
}

#[test]
fn snapshot_names_list_in_creation_order() {
    // distinct seconds across second, minute, hour, day, month and year steps
    let stamps = [
        ts(2024, 12, 31, 23, 59, 58),
        ts(2024, 12, 31, 23, 59, 59),
        ts(2025, 1, 1, 0, 0, 0),
        ts(2025, 1, 1, 0, 1, 0),
        ts(2025, 1, 2, 3, 0, 0),
        ts(2025, 2, 1, 0, 0, 0),
    ];
    let names: Vec<Vec<u8>> = stamps.iter().map(name_at).collect();
    let mut sorted = names.clone();
    sorted.sort();
    assert_eq!(names, sorted);
    for w in names.windows(2) {
        assert!(w[0] < w[1]);
    }
}
