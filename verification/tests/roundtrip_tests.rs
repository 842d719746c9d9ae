use localmind_core::commands::{open_document, open_read_failed, save_outcome,
    serialize_document};
use localmind_core::locale::{get_app_locale, locale_or_default};
use localmind_core::prefs::PreferencesState;

fn sample_document() -> serde_json::Value {
    let mut node = serde_json::Map::new();
    node.insert(String::from("id"), serde_json::Value::Number(serde_json::Number::from(1)));
    node.insert(String::from("label"), serde_json::Value::String(String::from("racine")));
    node.insert(
        String::from("children"),
        serde_json::Value::Array(vec![
            serde_json::Value::String(String::from("idée")),
            serde_json::Value::Bool(true),
            serde_json::Value::Null,
        ]),
    );
    serde_json::Value::Object(node)
}

#[test]
fn save_then_open_yields_the_same_document() {
    // the document written to a path and read back decodes deep-equal
    let doc = sample_document();
    let bytes = serialize_document(&doc).unwrap();
    let mut prefs = PreferencesState::default();
    let r = open_document(&mut prefs, b"/maps/m.mindmap".to_vec(), &bytes);
    assert!(r.success);
    assert_eq!(r.data, Some(doc));
    assert_eq!(r.file_path, Some(b"/maps/m.mindmap".to_vec()));
    assert_eq!(r.error, None);
    assert_eq!(prefs.recent_files, vec![b"/maps/m.mindmap".to_vec()]);
}

#[test]
fn saved_documents_are_pretty_printed_text() {
    let doc = sample_document();
    let bytes = serialize_document(&doc).unwrap();
    let text = String::from_utf8(bytes).unwrap();
    assert!(text.contains('\n'));
    assert!(text.contains("\"label\": \"racine\""));
}

#[test]
fn invalid_json_reports_a_decode_error() {
    let mut prefs = PreferencesState::default();
    let r = open_document(&mut prefs, b"/maps/m.mindmap".to_vec(), &b"{not json".to_vec());
    assert!(!r.success);
    assert_eq!(r.data, None);
    assert_eq!(r.file_path, None);
    assert!(r.error.unwrap().starts_with("Invalid JSON: "));
    assert!(prefs.recent_files.is_empty());
}

#[test]
fn read_failures_report_the_cause() {
    let r = open_read_failed(String::from("No such file or directory"));
    assert!(!r.success);
    assert_eq!(r.error, Some(String::from("Failed to read file: No such file or directory")));
}

#[test]
fn save_outcome_tracks_the_write() {
    let mut prefs = PreferencesState::default();
    let r = save_outcome(&mut prefs, b"/maps/m.mindmap".to_vec(), Ok(()));
    assert!(r.success);
    assert_eq!(r.file_path, Some(b"/maps/m.mindmap".to_vec()));
    assert_eq!(prefs.recent_files, vec![b"/maps/m.mindmap".to_vec()]);
    let r = save_outcome(&mut prefs, b"/maps/other.mindmap".to_vec(), Err(String::from("disk full")));
    assert!(!r.success);
    assert_eq!(r.error, Some(String::from("Failed to write file: disk full")));
    assert_eq!(prefs.recent_files, vec![b"/maps/m.mindmap".to_vec()]);
}

#[test]
fn locale_falls_back_when_undetectable() {
    assert_eq!(locale_or_default(None), b"en-US".to_vec());
    assert_eq!(locale_or_default(Some(b"fr-FR".to_vec())), b"fr-FR".to_vec());
    let locale = get_app_locale();
    assert!(!locale.is_empty());
}
