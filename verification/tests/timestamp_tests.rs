use localmind_core::paths::{check_snapshot_name, parent_of, snapshot_name_at, stem_of};
use localmind_core::timestamp::{current_timestamp, Timestamp};

#[test]
fn format_is_zero_padded_second_resolution() {
    let t = Timestamp { year: 2024, month: 3, day: 7, hour: 9, minute: 5, second: 30 };
    assert_eq!(t.format(), b"2024-03-07T09-05-30".to_vec());
    assert_eq!(snapshot_name_at(&t), b"2024-03-07T09-05-30.mindmap".to_vec());
}

#[test]
fn from_clock_checks_the_ranges() {
    assert!(Timestamp::from_clock(2024, 12, 31, 23, 59, 59).is_some());
    assert!(Timestamp::from_clock(-5, 1, 1, 0, 0, 0).is_none());
    assert!(Timestamp::from_clock(10000, 1, 1, 0, 0, 0).is_none());
    assert!(Timestamp::from_clock(2024, 0, 1, 0, 0, 0).is_none());
    assert!(Timestamp::from_clock(2024, 1, 1, 24, 0, 0).is_none());
}

#[test]
fn the_clock_yields_a_formattable_timestamp() {
    let t = current_timestamp().unwrap();
    let name = snapshot_name_at(&t);
    assert!(check_snapshot_name(&name));
    assert_eq!(name.len(), 19 + ".mindmap".len());
}

#[test]
fn snapshot_names_are_recognized() {
    assert!(check_snapshot_name(&b"2024-03-07T09-05-30.mindmap".to_vec()));
    assert!(!check_snapshot_name(&b"notes.txt".to_vec()));
    assert!(!check_snapshot_name(&b".mindmap".to_vec()));
}

#[test]
fn path_parts_split_as_documented() {
    assert_eq!(parent_of(&b"/a/b/c.mindmap".to_vec()), Some(b"/a/b".to_vec()));
    assert_eq!(parent_of(&b"c.mindmap".to_vec()), None);
    assert_eq!(parent_of(&b"/a/b/".to_vec()), Some(b"/a".to_vec()));
    assert_eq!(parent_of(&b"/tmp/..".to_vec()), Some(b"/tmp".to_vec()));
    assert_eq!(stem_of(&b"/a/b/c.mindmap".to_vec()), b"c".to_vec());
    assert_eq!(stem_of(&b"/a/b/".to_vec()), b"b".to_vec());
    assert_eq!(stem_of(&b"/a/b/archive.tar.gz".to_vec()), b"archive.tar".to_vec());
    assert_eq!(stem_of(&b"/a/.hidden".to_vec()), b".hidden".to_vec());
}
