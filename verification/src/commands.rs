//! The decisions behind the command surface: what a dialog selection, a
//! document open, a document save and a backup creation return, and how
//! each updates the preferences. The filesystem and dialog calls
//! themselves stay with the host; these functions take their outcomes and
//! pin down everything that follows from them.
use vstd::prelude::*;
use vstd::string::StringExecFns;
use crate::backup::{wf_listing, snap_set, backup_step_post, plan_backup, apply_backup,
    valid_document_path, other_set, BackupError};
use crate::bytes::{views, lex_lt};
use crate::jsonval::{json_parses, json_pretty_text, parse_json, to_pretty_json};
use crate::paths::{has_parent, backup_dir_view, snapshot_name_view, join_view};
use crate::prefs::{PreferencesState, mru_insert};
use crate::timestamp::Timestamp;

verus! {

/// What a file dialog ended in.
pub struct FileDialogResult {
    pub canceled: bool,
    pub file_path: Option<Vec<u8>>,
}

/// What loading a document ended in.
pub struct LoadFileResult {
    pub success: bool,
    pub data: Option<serde_json::Value>,
    pub file_path: Option<Vec<u8>>,
    pub error: Option<String>,
}

/// What saving a document, or writing a backup, ended in.
pub struct SaveFileResult {
    pub success: bool,
    pub file_path: Option<Vec<u8>>,
    pub error: Option<String>,
}

/// Turns what the file dialog reported into the dialog result, recording
/// the picked file's directory as the last save directory.
pub fn dialog_selection(prefs: &mut PreferencesState, picked: Option<Vec<u8>>) -> (r:
    FileDialogResult)
    ensures
        picked matches Some(p) ==> {
            &&& !r.canceled
            &&& r.file_path matches Some(q) && q@ == p@
            &&& (crate::paths::picked_parent(p@) matches Some(d) ==> (final(prefs).last_save_directory matches Some(v) && v@ == d))
            &&& (crate::paths::picked_parent(p@) is None ==> final(prefs).last_save_directory
                == old(prefs).last_save_directory)
            &&& final(prefs).recent_files == old(prefs).recent_files
            &&& final(prefs).window_bounds == old(prefs).window_bounds
        },
        picked is None ==> {
            &&& r.canceled
            &&& r.file_path is None
            &&& *final(prefs) == *old(prefs)
        },
{
    match picked {
        Some(p) => {
            prefs.note_picked_path(&p);
            FileDialogResult { canceled: false, file_path: Some(p) }
        },
        None => FileDialogResult { canceled: true, file_path: None },
    }
}

/// Turns a parsed document, or the parse failure, into the load result:
/// success hands the data back and marks the path recently used; failure
/// reports the decode error and leaves the preferences alone.
pub fn open_parsed(
    prefs: &mut PreferencesState,
    file_path: Vec<u8>,
    parsed: Result<serde_json::Value, String>,
) -> (r: LoadFileResult)
    ensures
        parsed matches Ok(v) ==> {
            &&& r.success
            &&& r.data == Some(v)
            &&& r.file_path matches Some(q) && q@ == file_path@
            &&& r.error is None
            &&& views(final(prefs).recent_files@) == mru_insert(
                views(old(prefs).recent_files@),
                file_path@,
            )
            &&& final(prefs).last_save_directory == old(prefs).last_save_directory
            &&& final(prefs).window_bounds == old(prefs).window_bounds
        },
        parsed matches Err(e) ==> {
            &&& !r.success
            &&& r.data is None
            &&& r.file_path is None
            &&& r.error matches Some(m) && m@ == "Invalid JSON: "@ + e@
            &&& *final(prefs) == *old(prefs)
        },
{
    match parsed {
        Ok(v) => {
            prefs.note_file_used(&file_path);
            LoadFileResult {
                success: true,
                data: Some(v),
                file_path: Some(file_path),
                error: None,
            }
        },
        Err(e) => LoadFileResult {
            success: false,
            data: None,
            file_path: None,
            error: Some("Invalid JSON: ".to_owned().concat(e.as_str())),
        },
    }
}

/// The load result of a file that could not be read at all.
pub fn open_read_failed(err: String) -> (r: LoadFileResult)
    ensures
        !r.success,
        r.data is None,
        r.file_path is None,
        r.error matches Some(m) && m@ == "Failed to read file: "@ + err@,
{
    LoadFileResult {
        success: false,
        data: None,
        file_path: None,
        error: Some("Failed to read file: ".to_owned().concat(err.as_str())),
    }
}

/// Opens a document from its raw bytes: parses them and settles the load
/// result. Success is decided by whether the bytes parse as JSON.
pub fn open_document(prefs: &mut PreferencesState, file_path: Vec<u8>, content: &Vec<u8>) -> (r:
    LoadFileResult)
    ensures
        r.success <==> json_parses(content@),
        r.success ==> {
            &&& r.data is Some
            &&& r.file_path matches Some(q) && q@ == file_path@
            &&& r.error is None
            &&& views(final(prefs).recent_files@) == mru_insert(
                views(old(prefs).recent_files@),
                file_path@,
            )
            &&& final(prefs).last_save_directory == old(prefs).last_save_directory
            &&& final(prefs).window_bounds == old(prefs).window_bounds
        },
        !r.success ==> {
            &&& r.data is None
            &&& r.file_path is None
            &&& (r.error matches Some(m) && m@.len() >= "Invalid JSON: "@.len() && m@.subrange(
                0,
                "Invalid JSON: "@.len() as int,
            ) == "Invalid JSON: "@)
            &&& *final(prefs) == *old(prefs)
        },
{
    let parsed = parse_json(content);
    let r = open_parsed(prefs, file_path, parsed);
    proof {
        if !r.success {
            let m = r.error->0;
            assert(m@.subrange(0, "Invalid JSON: "@.len() as int) =~= "Invalid JSON: "@);
        }
    }
    r
}

/// Serializes a document to the pretty JSON text it is stored as. The
/// serializer cannot fail on a `Value`, and the contract says so; the
/// `Result` shape is kept for the command surface.
pub fn serialize_document(data: &serde_json::Value) -> (r: Result<Vec<u8>, String>)
    ensures
        r matches Ok(b) && b@ == json_pretty_text(*data),
{
    match to_pretty_json(data) {
        Ok(b) => Ok(b),
        Err(e) => {
            proof {
                assert(false);
            }
            Err(e)
        },
    }
}

/// Settles the save result from the write's outcome: success names the
/// saved path and marks it recently used; failure reports the write error
/// and leaves the preferences alone.
pub fn save_outcome(
    prefs: &mut PreferencesState,
    file_path: Vec<u8>,
    write_result: Result<(), String>,
) -> (r: SaveFileResult)
    ensures
        write_result is Ok ==> {
            &&& r.success
            &&& r.file_path matches Some(q) && q@ == file_path@
            &&& r.error is None
            &&& views(final(prefs).recent_files@) == mru_insert(
                views(old(prefs).recent_files@),
                file_path@,
            )
            &&& final(prefs).last_save_directory == old(prefs).last_save_directory
            &&& final(prefs).window_bounds == old(prefs).window_bounds
        },
        write_result matches Err(e) ==> {
            &&& !r.success
            &&& r.file_path is None
            &&& r.error matches Some(m) && m@ == "Failed to write file: "@ + e@
            &&& *final(prefs) == *old(prefs)
        },
{
    match write_result {
        Ok(_) => {
            prefs.note_file_used(&file_path);
            SaveFileResult { success: true, file_path: Some(file_path), error: None }
        },
        Err(e) => SaveFileResult {
            success: false,
            file_path: None,
            error: Some("Failed to write file: ".to_owned().concat(e.as_str())),
        },
    }
}

/// Settles the backup result from the snapshot write's outcome: success
/// names the snapshot's path; failure reports the write error.
pub fn backup_write_outcome(snapshot_path: Vec<u8>, write_result: Result<(), String>) -> (r:
    SaveFileResult)
    ensures
        write_result is Ok ==> {
            &&& r.success
            &&& r.file_path matches Some(q) && q@ == snapshot_path@
            &&& r.error is None
        },
        write_result matches Err(e) ==> {
            &&& !r.success
            &&& r.file_path is None
            &&& r.error matches Some(m) && m@ == "Failed to write backup: "@ + e@
        },
{
    match write_result {
        Ok(_) => SaveFileResult { success: true, file_path: Some(snapshot_path), error: None },
        Err(e) => SaveFileResult {
            success: false,
            file_path: None,
            error: Some("Failed to write backup: ".to_owned().concat(e.as_str())),
        },
    }
}

/// One backup creation against the directory model: validates the path,
/// records the snapshot written at `ts`, prunes beyond the cap, and
/// returns the outcome with the names deleted, oldest first. An invalid
/// path is rejected before anything is touched.
pub fn create_backup_model(
    listing: &mut Vec<Vec<u8>>,
    doc_path: &Vec<u8>,
    ts: &Timestamp,
    max_count: usize,
) -> (r: Result<(SaveFileResult, Vec<Vec<u8>>), String>)
    requires
        wf_listing(old(listing)@),
        ts.valid(),
    ensures
        r is Ok <==> valid_document_path(doc_path@),
        r matches Ok(pair) ==> {
            &&& pair.0.success
            &&& pair.0.file_path matches Some(q) && q@ == join_view(
                backup_dir_view(doc_path@),
                snapshot_name_view(*ts),
            )
            &&& pair.0.error is None
            &&& wf_listing(final(listing)@)
            &&& backup_step_post(
                snap_set(old(listing)@),
                snapshot_name_view(*ts),
                max_count as nat,
                snap_set(final(listing)@),
                views(pair.1@).to_set(),
            )
            &&& (forall|p: int, q: int|
                0 <= p < q < pair.1@.len() ==> lex_lt(pair.1@[p]@, pair.1@[q]@))
            &&& other_set(final(listing)@) == other_set(old(listing)@)
        },
        r matches Err(m) ==> {
            &&& *final(listing) == *old(listing)
            &&& (if !has_parent(doc_path@) {
                m@ == "Invalid file path"@
            } else {
                m@ == "Invalid filename"@
            })
        },
{
    match plan_backup(doc_path, ts) {
        Err(BackupError::NoParent) => Err("Invalid file path".to_owned()),
        Err(BackupError::NoStem) => Err("Invalid filename".to_owned()),
        Ok(plan) => {
            let deleted = apply_backup(listing, plan.snapshot_name, max_count);
            Ok(
                (
                    SaveFileResult {
                        success: true,
                        file_path: Some(plan.snapshot_path),
                        error: None,
                    },
                    deleted,
                ),
            )
        },
    }
}

} // verus!
