//! The in-memory preferences store: last save directory, the bounded
//! most-recently-used list of document paths, and opaque window bounds.
//! Unknown keys are accepted and ignored; ill-typed values for a known key
//! are silently ignored, never an error.
use vstd::prelude::*;
use crate::bytes::{views, bytes_eq, copy_bytes, copy_bytes_list};
use crate::jsonval::{json_as_string, json_as_string_list, value_as_string, value_as_string_list};
use crate::paths::{picked_parent, picked_parent_of};
use crate::tokens::{key_last_save_directory, key_last_save_directory_v, key_recent_files,
    key_recent_files_v, key_window_bounds, key_window_bounds_v};

verus! {

/// The most entries the recent-files list keeps.
pub const RECENT_FILES_CAP: usize = 10;

/// The preference fields, owned for the process lifetime; nothing here is
/// persisted.
pub struct PreferencesState {
    pub last_save_directory: Option<Vec<u8>>,
    pub recent_files: Vec<Vec<u8>>,
    pub window_bounds: Option<serde_json::Value>,
}

/// What a preference lookup yields.
pub enum PrefValue {
    /// The key holds nothing, or is unknown.
    Absent,
    /// A directory path.
    Text(Vec<u8>),
    /// The recent-files list.
    List(Vec<Vec<u8>>),
    /// The stored window bounds.
    Json(serde_json::Value),
}

/// `l` with every occurrence of `p` removed, order kept.
pub open spec fn remove_all(l: Seq<Seq<u8>>, p: Seq<u8>) -> Seq<Seq<u8>>
    decreases l.len(),
{
    if l.len() == 0 {
        Seq::empty()
    } else {
        let rest = remove_all(l.drop_last(), p);
        if l.last() == p {
            rest
        } else {
            rest.push(l.last())
        }
    }
}

/// The first entries of `l`, at most the cap.
pub open spec fn take_cap(l: Seq<Seq<u8>>) -> Seq<Seq<u8>> {
    if l.len() <= RECENT_FILES_CAP {
        l
    } else {
        l.subrange(0, RECENT_FILES_CAP as int)
    }
}

/// The most-recently-used update: drop `p` wherever it stands, put it in
/// front, keep at most the cap.
pub open spec fn mru_insert(l: Seq<Seq<u8>>, p: Seq<u8>) -> Seq<Seq<u8>> {
    take_cap(seq![p] + remove_all(l, p))
}

impl Default for PreferencesState {
    /// All three fields start empty.
    fn default() -> (r: Self)
        ensures
            r.last_save_directory is None,
            r.recent_files@.len() == 0,
            r.window_bounds is None,
    {
        PreferencesState {
            last_save_directory: None,
            recent_files: Vec::new(),
            window_bounds: None,
        }
    }
}

impl PreferencesState {
    /// Records that a document at `path` was just opened or saved: the
    /// recent-files list gets its most-recently-used update and the other
    /// fields stay.
    pub fn note_file_used(&mut self, path: &Vec<u8>)
        ensures
            views(final(self).recent_files@) =~= mru_insert(
                views(old(self).recent_files@),
                path@,
            ),
            final(self).recent_files@.len() <= RECENT_FILES_CAP,
            final(self).last_save_directory == old(self).last_save_directory,
            final(self).window_bounds == old(self).window_bounds,
    {
        let ghost l = views(self.recent_files@);
        let mut out: Vec<Vec<u8>> = Vec::new();
        out.push(copy_bytes(path));
        proof {
            assert(l.subrange(0, 0) =~= Seq::<Seq<u8>>::empty());
            assert(remove_all(l.subrange(0, 0), path@) =~= Seq::<Seq<u8>>::empty());
            assert(views(out@) =~= seq![path@]);
            assert(views(out@) =~= take_cap(seq![path@] + remove_all(l.subrange(0, 0), path@)));
        }
        let n = self.recent_files.len();
        let mut i: usize = 0;
        while i < n
            invariant
                n == self.recent_files@.len(),
                i <= n,
                l == views(self.recent_files@),
                views(out@) =~= take_cap(seq![path@] + remove_all(l.subrange(0, i as int), path@)),
                out@.len() <= RECENT_FILES_CAP,
            decreases n - i,
        {
            let ghost pre = l.subrange(0, i as int);
            let ghost cur = l.subrange(0, i + 1);
            proof {
                assert(cur.drop_last() =~= pre);
                assert(cur.last() == l[i as int]);
                assert(l[i as int] == self.recent_files@[i as int]@);
            }
            let keep = !bytes_eq(&self.recent_files[i], path);
            if keep && out.len() < RECENT_FILES_CAP {
                let ghost prev = out@;
                let c = copy_bytes(&self.recent_files[i]);
                proof {
                    assert(c@ == l[i as int]);
                }
                out.push(c);
                proof {
                    let full_pre = seq![path@] + remove_all(pre, path@);
                    let full_cur = seq![path@] + remove_all(cur, path@);
                    assert(full_cur =~= full_pre.push(l[i as int]));
                    assert(prev.len() < RECENT_FILES_CAP);
                    assert(views(prev) =~= take_cap(full_pre));
                    assert(full_pre.len() == views(prev).len());
                    assert(take_cap(full_pre) =~= full_pre);
                    assert(out@ =~= prev.push(c));
                    assert(views(out@) =~= views(prev).push(c@));
                    assert(views(out@) =~= full_cur);
                    assert(take_cap(full_cur) =~= full_cur);
                }
            } else {
                proof {
                    let full_pre = seq![path@] + remove_all(pre, path@);
                    let full_cur = seq![path@] + remove_all(cur, path@);
                    if keep {
                        assert(full_cur =~= full_pre.push(l[i as int]));
                        assert(full_pre.len() >= RECENT_FILES_CAP);
                        assert(take_cap(full_cur) =~= take_cap(full_pre));
                    } else {
                        assert(full_cur =~= full_pre);
                    }
                    assert(views(out@) =~= take_cap(full_cur));
                }
            }
            i = i + 1;
        }
        proof {
            assert(l.subrange(0, n as int) =~= l);
        }
        self.recent_files = out;
    }

    /// Records the directory a dialog selection landed in.
    pub fn note_picked_path(&mut self, path: &Vec<u8>)
        ensures
            picked_parent(path@) matches Some(d) ==> (final(self).last_save_directory
                matches Some(v) && v@ == d),
            picked_parent(path@) is None ==> final(self).last_save_directory == old(
                self,
            ).last_save_directory,
            final(self).recent_files == old(self).recent_files,
            final(self).window_bounds == old(self).window_bounds,
    {
        match picked_parent_of(path) {
            Some(parent) => {
                self.last_save_directory = Some(parent);
            },
            None => {},
        }
    }

    /// Looks a preference key up. Unknown keys yield nothing.
    pub fn prefs_get(&self, key: &Vec<u8>) -> (r: PrefValue)
        ensures
            key@ == key_last_save_directory() ==> match self.last_save_directory {
                Some(d) => r matches PrefValue::Text(t) && t@ == d@,
                None => r is Absent,
            },
            key@ == key_recent_files() ==> (r matches PrefValue::List(list) && views(list@)
                =~= views(self.recent_files@)),
            key@ == key_window_bounds() ==> match self.window_bounds {
                Some(b) => r matches PrefValue::Json(j) && j == b,
                None => r is Absent,
            },
            key@ != key_last_save_directory() && key@ != key_recent_files() && key@
                != key_window_bounds() ==> r is Absent,
    {
        if bytes_eq(key, &key_last_save_directory_v()) {
            match &self.last_save_directory {
                Some(d) => PrefValue::Text(copy_bytes(d)),
                None => PrefValue::Absent,
            }
        } else if bytes_eq(key, &key_recent_files_v()) {
            PrefValue::List(copy_bytes_list(&self.recent_files))
        } else if bytes_eq(key, &key_window_bounds_v()) {
            match &self.window_bounds {
                Some(b) => PrefValue::Json(b.clone()),
                None => PrefValue::Absent,
            }
        } else {
            PrefValue::Absent
        }
    }

    /// Applies a preference write and always reports success. A known key
    /// takes the value only when it has the key's shape; anything else,
    /// and any unknown key, changes nothing.
    pub fn prefs_set(&mut self, key: &Vec<u8>, value: serde_json::Value) -> (r: bool)
        ensures
            r == true,
            key@ == key_last_save_directory() ==> match json_as_string(value) {
                Some(s) => {
                    &&& final(self).last_save_directory matches Some(d) && d@ == s
                    &&& final(self).recent_files == old(self).recent_files
                    &&& final(self).window_bounds == old(self).window_bounds
                },
                None => *final(self) == *old(self),
            },
            key@ == key_recent_files() ==> match json_as_string_list(value) {
                Some(list) => {
                    &&& views(final(self).recent_files@) == list
                    &&& final(self).last_save_directory == old(self).last_save_directory
                    &&& final(self).window_bounds == old(self).window_bounds
                },
                None => *final(self) == *old(self),
            },
            key@ == key_window_bounds() ==> {
                &&& final(self).window_bounds == Some(value)
                &&& final(self).last_save_directory == old(self).last_save_directory
                &&& final(self).recent_files == old(self).recent_files
            },
            key@ != key_last_save_directory() && key@ != key_recent_files() && key@
                != key_window_bounds() ==> *final(self) == *old(self),
    {
        if bytes_eq(key, &key_last_save_directory_v()) {
            match value_as_string(&value) {
                Some(s) => {
                    self.last_save_directory = Some(s);
                },
                None => {},
            }
        } else if bytes_eq(key, &key_recent_files_v()) {
            match value_as_string_list(&value) {
                Some(list) => {
                    self.recent_files = list;
                },
                None => {},
            }
        } else if bytes_eq(key, &key_window_bounds_v()) {
            self.window_bounds = Some(value);
        }
        true
    }
}

} // verus!
