use localmind_core::commands::dialog_selection;
use localmind_core::prefs::{PrefValue, PreferencesState};

fn key(s: &str) -> Vec<u8> {
    s.as_bytes().to_vec()
}

#[test]
fn recent_files_keep_most_recent_first_without_duplicates() {
    // opening or saving a, b, a, c leaves [c, a, b]
    let mut prefs = PreferencesState::default();
    for p in [b"a".to_vec(), b"b".to_vec(), b"a".to_vec(), b"c".to_vec()] {
        prefs.note_file_used(&p);
    }
    assert_eq!(prefs.recent_files, vec![b"c".to_vec(), b"a".to_vec(), b"b".to_vec()]);
    assert!(prefs.recent_files.len() <= 10);
}

#[test]
fn recent_files_are_capped_at_ten() {
    let mut prefs = PreferencesState::default();
    for k in 0..15u8 {
        prefs.note_file_used(&vec![b'p', b'0' + k % 10, b'x', k]);
    }
    assert_eq!(prefs.recent_files.len(), 10);
    assert_eq!(prefs.recent_files[0], vec![b'p', b'4', b'x', 14]);
}

#[test]
fn non_string_last_save_directory_is_ignored() {
    let mut prefs = PreferencesState::default();
    let ok = prefs.prefs_set(
        &key("lastSaveDirectory"),
        serde_json::Value::String(String::from("/home/user")),
    );
    assert!(ok);
    let ok = prefs.prefs_set(
        &key("lastSaveDirectory"),
        serde_json::Value::Number(serde_json::Number::from(42)),
    );
    assert!(ok);
    match prefs.prefs_get(&key("lastSaveDirectory")) {
        PrefValue::Text(t) => assert_eq!(t, b"/home/user".to_vec()),
        _ => panic!("the prior value should still be stored"),
    }
}

#[test]
fn non_string_value_on_empty_directory_stays_absent() {
    let mut prefs = PreferencesState::default();
    let ok = prefs.prefs_set(
        &key("lastSaveDirectory"),
        serde_json::Value::Number(serde_json::Number::from(42)),
    );
    assert!(ok);
    match prefs.prefs_get(&key("lastSaveDirectory")) {
        PrefValue::Absent => {},
        _ => panic!("nothing should have been stored"),
    }
}

#[test]
fn unknown_key_set_succeeds_and_get_stays_absent() {
    let mut prefs = PreferencesState::default();
    let ok = prefs.prefs_set(&key("unknownKey"), serde_json::Value::Bool(true));
    assert!(ok);
    match prefs.prefs_get(&key("unknownKey")) {
        PrefValue::Absent => {},
        _ => panic!("an unknown key never stores anything"),
    }
}

#[test]
fn recent_files_set_takes_only_string_lists() {
    let mut prefs = PreferencesState::default();
    let list = serde_json::Value::Array(vec![
        serde_json::Value::String(String::from("/a")),
        serde_json::Value::String(String::from("/b")),
    ]);
    assert!(prefs.prefs_set(&key("recentFiles"), list));
    assert_eq!(prefs.recent_files, vec![b"/a".to_vec(), b"/b".to_vec()]);
    let bad = serde_json::Value::Array(vec![serde_json::Value::Bool(false)]);
    assert!(prefs.prefs_set(&key("recentFiles"), bad));
    assert_eq!(prefs.recent_files, vec![b"/a".to_vec(), b"/b".to_vec()]);
}

#[test]
fn window_bounds_accept_any_value() {
    let mut prefs = PreferencesState::default();
    let mut obj = serde_json::Map::new();
    obj.insert(String::from("width"), serde_json::Value::Number(serde_json::Number::from(800)));
    let bounds = serde_json::Value::Object(obj);
    assert!(prefs.prefs_set(&key("windowBounds"), bounds.clone()));
    match prefs.prefs_get(&key("windowBounds")) {
        PrefValue::Json(v) => assert_eq!(v, bounds),
        _ => panic!("the bounds should be stored as given"),
    }
}

#[test]
fn dialog_selection_records_the_directory() {
    let mut prefs = PreferencesState::default();
    let r = dialog_selection(&mut prefs, Some(b"/maps/new.mindmap".to_vec()));
    assert!(!r.canceled);
    assert_eq!(r.file_path, Some(b"/maps/new.mindmap".to_vec()));
    assert_eq!(prefs.last_save_directory, Some(b"/maps".to_vec()));
    let r = dialog_selection(&mut prefs, None);
    assert!(r.canceled);
    assert_eq!(r.file_path, None);
    assert_eq!(prefs.last_save_directory, Some(b"/maps".to_vec()));
    let r = dialog_selection(&mut prefs, Some(b"bare.mindmap".to_vec()));
    assert!(!r.canceled);
    assert_eq!(prefs.last_save_directory, Some(b"".to_vec()));
}
