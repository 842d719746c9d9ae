//! The fixed byte strings of the library: the backup directory token, the
//! snapshot extension, the preference keys, and the locale fallback.
use vstd::prelude::*;

verus! {

/// The bytes of `".localmind-backups"`.
pub open spec fn backups_dir_token() -> Seq<u8> {
    seq![46u8, 108u8, 111u8, 99u8, 97u8, 108u8, 109u8, 105u8, 110u8, 100u8, 45u8, 98u8, 97u8, 99u8, 107u8, 117u8, 112u8, 115u8]
}

pub fn backups_dir_token_v() -> (r: Vec<u8>)
    ensures
        r@ =~= backups_dir_token(),
{
    let mut v: Vec<u8> = Vec::new();
    v.push(46u8);
    v.push(108u8);
    v.push(111u8);
    v.push(99u8);
    v.push(97u8);
    v.push(108u8);
    v.push(109u8);
    v.push(105u8);
    v.push(110u8);
    v.push(100u8);
    v.push(45u8);
    v.push(98u8);
    v.push(97u8);
    v.push(99u8);
    v.push(107u8);
    v.push(117u8);
    v.push(112u8);
    v.push(115u8);
    assert(v@ =~= backups_dir_token());
    v
}

/// The bytes of `".mindmap"`.
pub open spec fn snapshot_ext() -> Seq<u8> {
    seq![46u8, 109u8, 105u8, 110u8, 100u8, 109u8, 97u8, 112u8]
}

pub fn snapshot_ext_v() -> (r: Vec<u8>)
    ensures
        r@ =~= snapshot_ext(),
{
    let mut v: Vec<u8> = Vec::new();
    v.push(46u8);
    v.push(109u8);
    v.push(105u8);
    v.push(110u8);
    v.push(100u8);
    v.push(109u8);
    v.push(97u8);
    v.push(112u8);
    assert(v@ =~= snapshot_ext());
    v
}

/// The bytes of `"lastSaveDirectory"`.
pub open spec fn key_last_save_directory() -> Seq<u8> {
    seq![108u8, 97u8, 115u8, 116u8, 83u8, 97u8, 118u8, 101u8, 68u8, 105u8, 114u8, 101u8, 99u8, 116u8, 111u8, 114u8, 121u8]
}

pub fn key_last_save_directory_v() -> (r: Vec<u8>)
    ensures
        r@ =~= key_last_save_directory(),
{
    let mut v: Vec<u8> = Vec::new();
    v.push(108u8);
    v.push(97u8);
    v.push(115u8);
    v.push(116u8);
    v.push(83u8);
    v.push(97u8);
    v.push(118u8);
    v.push(101u8);
    v.push(68u8);
    v.push(105u8);
    v.push(114u8);
    v.push(101u8);
    v.push(99u8);
    v.push(116u8);
    v.push(111u8);
    v.push(114u8);
    v.push(121u8);
    assert(v@ =~= key_last_save_directory());
    v
}

/// The bytes of `"recentFiles"`.
pub open spec fn key_recent_files() -> Seq<u8> {
    seq![114u8, 101u8, 99u8, 101u8, 110u8, 116u8, 70u8, 105u8, 108u8, 101u8, 115u8]
}

pub fn key_recent_files_v() -> (r: Vec<u8>)
    ensures
        r@ =~= key_recent_files(),
{
    let mut v: Vec<u8> = Vec::new();
    v.push(114u8);
    v.push(101u8);
    v.push(99u8);
    v.push(101u8);
    v.push(110u8);
    v.push(116u8);
    v.push(70u8);
    v.push(105u8);
    v.push(108u8);
    v.push(101u8);
    v.push(115u8);
    assert(v@ =~= key_recent_files());
    v
}

/// The bytes of `"windowBounds"`.
pub open spec fn key_window_bounds() -> Seq<u8> {
    seq![119u8, 105u8, 110u8, 100u8, 111u8, 119u8, 66u8, 111u8, 117u8, 110u8, 100u8, 115u8]
}

pub fn key_window_bounds_v() -> (r: Vec<u8>)
    ensures
        r@ =~= key_window_bounds(),
{
    let mut v: Vec<u8> = Vec::new();
    v.push(119u8);
    v.push(105u8);
    v.push(110u8);
    v.push(100u8);
    v.push(111u8);
    v.push(119u8);
    v.push(66u8);
    v.push(111u8);
    v.push(117u8);
    v.push(110u8);
    v.push(100u8);
    v.push(115u8);
    assert(v@ =~= key_window_bounds());
    v
}

/// The bytes of `"en-US"`.
pub open spec fn default_locale() -> Seq<u8> {
    seq![101u8, 110u8, 45u8, 85u8, 83u8]
}

pub fn default_locale_v() -> (r: Vec<u8>)
    ensures
        r@ =~= default_locale(),
{
    let mut v: Vec<u8> = Vec::new();
    v.push(101u8);
    v.push(110u8);
    v.push(45u8);
    v.push(85u8);
    v.push(83u8);
    assert(v@ =~= default_locale());
    v
}

} // verus!
