//! The backup retention engine, modelled on a directory listing: recording
//! a snapshot, pruning the oldest ones beyond the retention cap, and the
//! retention law for a whole sequence of backups.
use vstd::prelude::*;
use crate::bytes::{views, lex_lt, contains_bytes, lemma_lex_trans, lemma_lex_connected,
    lemma_lex_asym};
use crate::paths::{is_snapshot_name, check_snapshot_name, has_parent, backup_dir_view,
    snapshot_name_view, join_view, file_name_view, valid_file_name, parent_of, stem_of,
    checked_file_name, join, snapshot_name_at};
use crate::tokens::backups_dir_token_v;
use crate::timestamp::Timestamp;

verus! {

/// The retention cap the engine is run with by default.
pub const DEFAULT_MAX_BACKUPS: usize = 10;

/// A well-formed directory listing: no two entries share a name.
pub open spec fn wf_listing(l: Seq<Vec<u8>>) -> bool {
    views(l).no_duplicates()
}

/// The snapshot names among the listing's entries.
pub open spec fn snap_set(l: Seq<Vec<u8>>) -> Set<Seq<u8>> {
    views(l).to_set().filter(|x: Seq<u8>| is_snapshot_name(x))
}

/// The names of the listing's other entries.
pub open spec fn other_set(l: Seq<Vec<u8>>) -> Set<Seq<u8>> {
    views(l).to_set().filter(|x: Seq<u8>| !is_snapshot_name(x))
}

proof fn lemma_snap_set_finite(l: Seq<Vec<u8>>)
    ensures
        snap_set(l).finite(),
        other_set(l).finite(),
{
    broadcast use vstd::seq_lib::seq_to_set_is_finite;

    views(l).to_set().lemma_len_filter(|x: Seq<u8>| is_snapshot_name(x));
    views(l).to_set().lemma_len_filter(|x: Seq<u8>| !is_snapshot_name(x));
}

proof fn lemma_views_push(l: Seq<Vec<u8>>, e: Vec<u8>)
    ensures
        views(l.push(e)) =~= views(l).push(e@),
{
}

proof fn lemma_views_remove(l: Seq<Vec<u8>>, i: int)
    requires
        0 <= i < l.len(),
    ensures
        views(l.remove(i)) =~= views(l).remove(i),
{
}

proof fn lemma_to_set_push(s: Seq<Seq<u8>>, x: Seq<u8>)
    ensures
        s.push(x).to_set() =~= s.to_set().insert(x),
{
    assert forall|y: Seq<u8>| s.push(x).to_set().contains(y) implies s.to_set().insert(x).contains(
        y,
    ) by {
        let j = choose|j: int| 0 <= j < s.push(x).len() && s.push(x)[j] == y;
        if j < s.len() {
            assert(s[j] == y);
        }
    }
    assert forall|y: Seq<u8>| s.to_set().insert(x).contains(y) implies s.push(x).to_set().contains(
        y,
    ) by {
        if y == x {
            assert(s.push(x)[s.len() as int] == x);
        } else {
            let j = choose|j: int| 0 <= j < s.len() && s[j] == y;
            assert(s.push(x)[j] == y);
        }
    }
}

proof fn lemma_to_set_remove(s: Seq<Seq<u8>>, i: int)
    requires
        0 <= i < s.len(),
        s.no_duplicates(),
    ensures
        s.remove(i).to_set() =~= s.to_set().remove(s[i]),
        s.remove(i).no_duplicates(),
{
    let t = s.remove(i);
    assert forall|y: Seq<u8>| t.to_set().contains(y) implies s.to_set().remove(s[i]).contains(
        y,
    ) by {
        let j = choose|j: int| 0 <= j < t.len() && t[j] == y;
        if j < i {
            assert(s[j] == y);
        } else {
            assert(s[j + 1] == y);
        }
    }
    assert forall|y: Seq<u8>| s.to_set().remove(s[i]).contains(y) implies t.to_set().contains(
        y,
    ) by {
        let j = choose|j: int| 0 <= j < s.len() && s[j] == y;
        assert(j != i);
        if j < i {
            assert(t[j] == y);
        } else {
            assert(t[j - 1] == y);
        }
    }
    assert forall|p: int, q: int| 0 <= p < q < t.len() implies t[p] != t[q] by {
        let sp: int = if p < i {
            p
        } else {
            p + 1
        };
        let sq: int = if q < i {
            q
        } else {
            q + 1
        };
        assert(t[p] == s[sp] && t[q] == s[sq]);
    }
}

/// A finite superset of equal size is the set itself.
proof fn lemma_subset_equal_len(a: Set<Seq<u8>>, b: Set<Seq<u8>>)
    requires
        a.subset_of(b),
        b.finite(),
        a.len() == b.len(),
    ensures
        a =~= b,
{
    vstd::set_lib::lemma_len_subset(a, b);
    if exists|x: Seq<u8>| b.contains(x) && !a.contains(x) {
        let x = choose|x: Seq<u8>| b.contains(x) && !a.contains(x);
        assert(a.subset_of(b.remove(x)));
        vstd::set_lib::lemma_len_subset(a, b.remove(x));
        assert(b.remove(x).len() == b.len() - 1);
        assert(false);
    }
}

/// Counts the snapshot entries of a listing.
pub fn count_snapshots(l: &Vec<Vec<u8>>) -> (n: usize)
    requires
        wf_listing(l@),
    ensures
        n == snap_set(l@).len(),
{
    let mut n: usize = 0;
    let mut i: usize = 0;
    proof {
        assert(l@.subrange(0, 0) =~= Seq::<Vec<u8>>::empty());
        assert(snap_set(l@.subrange(0, 0)) =~= Set::<Seq<u8>>::empty());
    }
    while i < l.len()
        invariant
            i <= l@.len(),
            n <= i,
            wf_listing(l@),
            n == snap_set(l@.subrange(0, i as int)).len(),
        decreases l@.len() - i,
    {
        let ghost pre = l@.subrange(0, i as int);
        proof {
            assert(l@.subrange(0, i + 1) =~= pre.push(l@[i as int]));
            lemma_views_push(pre, l@[i as int]);
            lemma_to_set_push(views(pre), l@[i as int]@);
            lemma_snap_set_finite(pre);
            assert(snap_set(pre.push(l@[i as int])) =~= if is_snapshot_name(l@[i as int]@) {
                snap_set(pre).insert(l@[i as int]@)
            } else {
                snap_set(pre)
            });
            if is_snapshot_name(l@[i as int]@) {
                assert(!snap_set(pre).contains(l@[i as int]@)) by {
                    if snap_set(pre).contains(l@[i as int]@) {
                        let j = choose|j: int|
                            0 <= j < views(pre).len() && views(pre)[j] == l@[i as int]@;
                        assert(views(l@)[j] == views(l@)[i as int]);
                    }
                }
            }
        }
        if check_snapshot_name(&l[i]) {
            n = n + 1;
        }
        i = i + 1;
    }
    proof {
        assert(l@.subrange(0, l@.len() as int) =~= l@);
    }
    n
}

/// Finds the lexicographically smallest snapshot entry, the oldest one.
fn find_min_snapshot(l: &Vec<Vec<u8>>) -> (r: Option<usize>)
    ensures
        r matches Some(i) ==> {
            &&& i < l@.len()
            &&& is_snapshot_name(l@[i as int]@)
            &&& forall|x: Seq<u8>|
                snap_set(l@).contains(x) ==> x == l@[i as int]@ || lex_lt(l@[i as int]@, x)
        },
        r is None ==> snap_set(l@) =~= Set::<Seq<u8>>::empty(),
{
    let mut best: usize = 0;
    let mut found = false;
    let mut i: usize = 0;
    while i < l.len()
        invariant
            i <= l@.len(),
            found ==> best < i && is_snapshot_name(l@[best as int]@),
            found ==> forall|j: int|
                0 <= j < i && is_snapshot_name(#[trigger] l@[j]@) ==> (l@[j]@ == l@[best as int]@
                    || lex_lt(l@[best as int]@, l@[j]@)),
            !found ==> forall|j: int| 0 <= j < i ==> !is_snapshot_name(#[trigger] l@[j]@),
        decreases l@.len() - i,
    {
        if check_snapshot_name(&l[i]) {
            if !found {
                best = i;
                found = true;
            } else {
                let ghost ob = l@[best as int]@;
                let ghost cur = l@[i as int]@;
                if bytes_lt_entry(l, i, best) {
                    proof {
                        assert forall|j: int|
                            0 <= j < i + 1 && is_snapshot_name(#[trigger] l@[j]@) implies (l@[j]@
                            == cur || lex_lt(cur, l@[j]@)) by {
                            if j < i {
                                if l@[j]@ == ob {
                                    assert(lex_lt(cur, l@[j]@));
                                } else if lex_lt(ob, l@[j]@) {
                                    lemma_lex_trans(cur, ob, l@[j]@);
                                }
                            }
                        }
                    }
                    best = i;
                } else {
                    proof {
                        if !lex_lt(ob, cur) {
                            lemma_lex_connected(cur, ob);
                        }
                    }
                }
            }
        }
        i = i + 1;
    }
    if found {
        proof {
            assert forall|x: Seq<u8>| snap_set(l@).contains(x) implies (x == l@[best as int]@
                || lex_lt(l@[best as int]@, x)) by {
                let j = choose|j: int| 0 <= j < views(l@).len() && views(l@)[j] == x;
                assert(l@[j]@ == x);
            }
        }
        Some(best)
    } else {
        proof {
            assert forall|x: Seq<u8>| !snap_set(l@).contains(x) by {
                if snap_set(l@).contains(x) {
                    let j = choose|j: int| 0 <= j < views(l@).len() && views(l@)[j] == x;
                    assert(l@[j]@ == x);
                }
            }
        }
        None
    }
}

/// Compares two entries of the listing by name.
fn bytes_lt_entry(l: &Vec<Vec<u8>>, i: usize, j: usize) -> (r: bool)
    requires
        i < l@.len(),
        j < l@.len(),
    ensures
        r == lex_lt(l@[i as int]@, l@[j as int]@),
{
    crate::bytes::bytes_lt(&l[i], &l[j])
}

/// What one write-and-prune cycle does to the set of snapshot names:
/// the new name joins the set, some set `d` of names is deleted, what
/// remains is capped at `max` and every deleted name precedes every kept
/// one, so the oldest snapshots go first.
pub open spec fn backup_step_post(
    s0: Set<Seq<u8>>,
    n: Seq<u8>,
    max: nat,
    s1: Set<Seq<u8>>,
    d: Set<Seq<u8>>,
) -> bool {
    &&& s1 == s0.insert(n).difference(d)
    &&& d.subset_of(s0.insert(n))
    &&& s1.len() == vstd::math::min(s0.insert(n).len() as int, max as int)
    &&& forall|x: Seq<u8>, y: Seq<u8>|
        d.contains(x) && s1.contains(y) ==> lex_lt(x, y)
}

/// Deletes the oldest snapshots beyond the cap, returning what was
/// deleted, oldest first. Entries that are not snapshot names are kept.
pub fn clean_old_backups(listing: &mut Vec<Vec<u8>>, max_count: usize) -> (deleted: Vec<Vec<u8>>)
    requires
        wf_listing(old(listing)@),
    ensures
        wf_listing(final(listing)@),
        snap_set(final(listing)@) == snap_set(old(listing)@).difference(
            views(deleted@).to_set(),
        ),
        views(deleted@).to_set().subset_of(snap_set(old(listing)@)),
        snap_set(final(listing)@).len() == vstd::math::min(
            snap_set(old(listing)@).len() as int,
            max_count as int,
        ),
        forall|x: Seq<u8>, y: Seq<u8>|
            views(deleted@).to_set().contains(x) && snap_set(final(listing)@).contains(y)
                ==> lex_lt(x, y),
        forall|p: int, q: int|
            0 <= p < q < deleted@.len() ==> lex_lt(deleted@[p]@, deleted@[q]@),
        other_set(final(listing)@) == other_set(old(listing)@),
{
    let ghost l0 = old(listing)@;
    let mut deleted: Vec<Vec<u8>> = Vec::new();
    let mut n = count_snapshots(listing);
    proof {
        lemma_snap_set_finite(l0);
        assert(views(deleted@).to_set() =~= Set::<Seq<u8>>::empty());
        assert(snap_set(listing@) =~= snap_set(l0).difference(views(deleted@).to_set()));
    }
    while n > max_count
        invariant
            wf_listing(listing@),
            n == snap_set(listing@).len(),
            snap_set(listing@) =~= snap_set(l0).difference(views(deleted@).to_set()),
            views(deleted@).to_set().subset_of(snap_set(l0)),
            forall|x: Seq<u8>, y: Seq<u8>|
                views(deleted@).to_set().contains(x) && snap_set(listing@).contains(y)
                    ==> lex_lt(x, y),
            forall|p: int, q: int|
                0 <= p < q < deleted@.len() ==> lex_lt(deleted@[p]@, deleted@[q]@),
            other_set(listing@) == other_set(l0),
            deleted@.len() > 0 ==> n >= max_count,
            snap_set(l0).finite(),
        decreases n,
    {
        let i = match find_min_snapshot(listing) {
            Some(i) => i,
            None => {
                proof {
                    assert(snap_set(listing@).len() == 0);
                    assert(false);
                }
                0
            },
        };
        let ghost lpre = listing@;
        let ghost m = listing@[i as int]@;
        let name = listing.remove(i);
        proof {
            lemma_views_remove(lpre, i as int);
            lemma_to_set_remove(views(lpre), i as int);
            lemma_snap_set_finite(lpre);
            assert(views(lpre)[i as int] == m);
            assert(snap_set(listing@) =~= snap_set(lpre).remove(m));
            assert(other_set(listing@) =~= other_set(lpre));
            assert(snap_set(lpre).contains(m));
        }
        let ghost dpre = deleted@;
        deleted.push(name);
        proof {
            lemma_views_push(dpre, name);
            lemma_to_set_push(views(dpre), m);
            assert(views(deleted@).to_set() =~= views(dpre).to_set().insert(m));
            assert(snap_set(listing@) =~= snap_set(l0).difference(views(deleted@).to_set()));
            // every older deletion precedes m, which was still present
            assert(deleted@[deleted@.len() - 1]@ == m);
            assert forall|p: int, q: int| 0 <= p < q < deleted@.len() implies lex_lt(
                deleted@[p]@,
                deleted@[q]@,
            ) by {
                if q == deleted@.len() - 1 {
                    assert(dpre[p] == deleted@[p]);
                    assert(views(dpre)[p] == deleted@[p]@);
                    assert(views(dpre).to_set().contains(deleted@[p]@));
                    assert(snap_set(lpre).contains(m));
                } else {
                    assert(dpre[p] == deleted@[p] && dpre[q] == deleted@[q]);
                }
            }
            assert forall|x: Seq<u8>, y: Seq<u8>|
                views(deleted@).to_set().contains(x) && snap_set(listing@).contains(y) implies
                lex_lt(x, y) by {
                assert(snap_set(lpre).contains(y));
                if x == m {
                    assert(y != m);
                } else {
                    assert(views(dpre).to_set().contains(x));
                }
            }
        }
        n = n - 1;
    }
    proof {
        if deleted@.len() == 0 {
            assert(views(deleted@).to_set() =~= Set::<Seq<u8>>::empty());
            assert(snap_set(listing@) =~= snap_set(l0));
        } else {
            assert(snap_set(listing@).subset_of(snap_set(l0)));
            vstd::set_lib::lemma_len_subset(snap_set(listing@), snap_set(l0));
            assert(n == max_count);
        }
    }
    deleted
}

/// Records a freshly written snapshot in the listing. Writing over an
/// existing name leaves a directory listing unchanged.
pub fn record_snapshot(listing: &mut Vec<Vec<u8>>, name: Vec<u8>)
    requires
        wf_listing(old(listing)@),
    ensures
        wf_listing(final(listing)@),
        views(final(listing)@).to_set() == views(old(listing)@).to_set().insert(name@),
        snap_set(final(listing)@) == if is_snapshot_name(name@) {
            snap_set(old(listing)@).insert(name@)
        } else {
            snap_set(old(listing)@)
        },
        other_set(final(listing)@) == if is_snapshot_name(name@) {
            other_set(old(listing)@)
        } else {
            other_set(old(listing)@).insert(name@)
        },
{
    let ghost l0 = old(listing)@;
    let present = contains_bytes(listing, &name);
    if !present {
        let ghost nv = name@;
        listing.push(name);
        proof {
            lemma_views_push(l0, listing@[l0.len() as int]);
            lemma_to_set_push(views(l0), nv);
            assert(wf_listing(listing@)) by {
                assert(forall|j: int|
                    0 <= j < views(l0).len() ==> views(l0)[j] != nv);
            }
            assert(snap_set(listing@) =~= if is_snapshot_name(nv) {
                snap_set(l0).insert(nv)
            } else {
                snap_set(l0)
            });
            assert(other_set(listing@) =~= if is_snapshot_name(nv) {
                other_set(l0)
            } else {
                other_set(l0).insert(nv)
            });
        }
    } else {
        proof {
            assert(views(l0).to_set().insert(name@) =~= views(l0).to_set());
            assert(snap_set(listing@) =~= if is_snapshot_name(name@) {
                snap_set(l0).insert(name@)
            } else {
                snap_set(l0)
            }) by {
                if is_snapshot_name(name@) {
                    assert(snap_set(l0).insert(name@) =~= snap_set(l0));
                }
            }
            assert(other_set(listing@) =~= if is_snapshot_name(name@) {
                other_set(l0)
            } else {
                other_set(l0).insert(name@)
            }) by {
                if !is_snapshot_name(name@) {
                    assert(other_set(l0).insert(name@) =~= other_set(l0));
                }
            }
        }
    }
}

/// One full write-and-prune cycle on the directory model: record the new
/// snapshot name, then prune the oldest beyond the cap.
pub fn apply_backup(listing: &mut Vec<Vec<u8>>, name: Vec<u8>, max_count: usize) -> (deleted: Vec<
    Vec<u8>,
>)
    requires
        wf_listing(old(listing)@),
        is_snapshot_name(name@),
    ensures
        wf_listing(final(listing)@),
        backup_step_post(
            snap_set(old(listing)@),
            name@,
            max_count as nat,
            snap_set(final(listing)@),
            views(deleted@).to_set(),
        ),
        forall|p: int, q: int|
            0 <= p < q < deleted@.len() ==> lex_lt(deleted@[p]@, deleted@[q]@),
        other_set(final(listing)@) == other_set(old(listing)@),
{
    let ghost l0 = old(listing)@;
    let ghost nv = name@;
    record_snapshot(listing, name);
    let deleted = clean_old_backups(listing, max_count);
    proof {
        assert(snap_set(final(listing)@) =~= snap_set(l0).insert(nv).difference(
            views(deleted@).to_set(),
        ));
    }
    deleted
}

/// Why a document path cannot take a backup.
#[derive(Debug)]
pub enum BackupError {
    /// The path has no directory component.
    NoParent,
    /// The path's last component names no file.
    NoStem,
}

/// Where one backup goes: the per-document backup directory, the snapshot
/// file name, and the two joined.
pub struct BackupPlan {
    pub backup_dir: Vec<u8>,
    pub snapshot_name: Vec<u8>,
    pub snapshot_path: Vec<u8>,
}

/// A document path a backup can be derived from: it names a parent
/// directory and a non-empty file stem.
pub open spec fn valid_document_path(p: Seq<u8>) -> bool {
    has_parent(p) && valid_file_name(file_name_view(p))
}

/// Derives where a snapshot taken at `ts` goes, or reports why the path
/// admits none. Pure: no file is touched on either outcome.
pub fn plan_backup(doc_path: &Vec<u8>, ts: &Timestamp) -> (r: Result<BackupPlan, BackupError>)
    requires
        ts.valid(),
    ensures
        r is Ok <==> valid_document_path(doc_path@),
        r matches Ok(pl) ==> {
            &&& pl.backup_dir@ == backup_dir_view(doc_path@)
            &&& pl.snapshot_name@ == snapshot_name_view(*ts)
            &&& is_snapshot_name(pl.snapshot_name@)
            &&& pl.snapshot_path@ == join_view(backup_dir_view(doc_path@), snapshot_name_view(*ts))
        },
        r matches Err(e) ==> (e is NoParent <==> !has_parent(doc_path@)),
{
    match parent_of(doc_path) {
        None => Err(BackupError::NoParent),
        Some(parent) => {
            match checked_file_name(doc_path) {
                None => Err(BackupError::NoStem),
                Some(_name) => {
                    let stem = stem_of(doc_path);
                    let dir = join(&join(&parent, &backups_dir_token_v()), &stem);
                    let name = snapshot_name_at(ts);
                    let path = join(&dir, &name);
                    Ok(BackupPlan { backup_dir: dir, snapshot_name: name, snapshot_path: path })
                },
            }
        },
    }
}

proof fn lemma_strict_names_no_dup(names: Seq<Seq<u8>>, lo: int, hi: int)
    requires
        forall|i: int, j: int| 0 <= i < j < names.len() ==> lex_lt(names[i], names[j]),
        0 <= lo <= hi <= names.len(),
    ensures
        names.subrange(lo, hi).no_duplicates(),
        names.subrange(lo, hi).to_set().finite(),
        names.subrange(lo, hi).to_set().len() == hi - lo,
{
    broadcast use vstd::seq_lib::seq_to_set_is_finite;

    let w = names.subrange(lo, hi);
    assert forall|p: int, q: int| 0 <= p < q < w.len() implies w[p] != w[q] by {
        lemma_lex_asym(names[lo + p], names[lo + q]);
    }
    w.unique_seq_to_set();
}

/// The retention law along a whole run. From a directory holding no
/// snapshots, take any sequence of write-and-prune cycles whose snapshot
/// names rise strictly, as names taken at distinct rising seconds do.
/// After step `k` the directory holds exactly the `min(k, max)` youngest
/// names written so far.
pub proof fn lemma_retention_prefix(
    states: Seq<Set<Seq<u8>>>,
    names: Seq<Seq<u8>>,
    dels: Seq<Set<Seq<u8>>>,
    max: nat,
    k: int,
)
    requires
        max >= 1,
        states.len() == names.len() + 1,
        dels.len() == names.len(),
        states[0] == Set::<Seq<u8>>::empty(),
        forall|t: int|
            0 <= t < names.len() ==> backup_step_post(
                #[trigger] states[t],
                names[t],
                max,
                states[t + 1],
                dels[t],
            ),
        forall|i: int, j: int| 0 <= i < j < names.len() ==> lex_lt(names[i], names[j]),
        0 <= k <= names.len(),
    ensures
        states[k] =~= names.subrange(if k >= max { k - max } else { 0 }, k).to_set(),
        states[k].len() == vstd::math::min(k, max as int),
        states[k].finite(),
    decreases k,
{
    broadcast use vstd::seq_lib::seq_to_set_is_finite;

    if k == 0 {
        assert(names.subrange(0, 0).to_set() =~= Set::<Seq<u8>>::empty());
    } else {
        lemma_retention_prefix(states, names, dels, max, k - 1);
        let lo0: int = if k - 1 >= max {
            k - 1 - max
        } else {
            0
        };
        let lo: int = if k >= max {
            k - max
        } else {
            0
        };
        let s = states[k - 1];
        let s1 = states[k];
        let d = dels[k - 1];
        let n = names[k - 1];
        assert(backup_step_post(s, n, max, s1, d));
        // the new name is fresh: everything present is strictly older
        assert(!s.contains(n)) by {
            if s.contains(n) {
                let w = names.subrange(lo0, k - 1);
                let j = choose|j: int| 0 <= j < w.len() && w[j] == n;
                lemma_lex_asym(names[lo0 + j], n);
            }
        }
        let a = s.insert(n);
        assert(names.subrange(lo0, k) =~= names.subrange(lo0, k - 1).push(n));
        lemma_to_set_push(names.subrange(lo0, k - 1), n);
        assert(a =~= names.subrange(lo0, k).to_set());
        lemma_strict_names_no_dup(names, lo0, k);
        assert(a.len() == k - lo0);
        if k <= max {
            assert(a.len() == k && k <= max);
            assert(s1.len() == k);
            assert(s1.subset_of(a));
            lemma_subset_equal_len(s1, a);
            assert(lo == 0 && lo0 == 0);
        } else {
            assert(lo0 == k - 1 - max && lo == k - max);
            assert(a.len() == max + 1);
            assert(s1.len() == max);
            let t = names.subrange(lo, k).to_set();
            let m = names[lo0];
            lemma_strict_names_no_dup(names, lo, k);
            assert(a =~= t.insert(m)) by {
                assert forall|y: Seq<u8>| a.contains(y) implies t.insert(m).contains(y) by {
                    let w = names.subrange(lo0, k);
                    let j = choose|j: int| 0 <= j < w.len() && w[j] == y;
                    if j > 0 {
                        assert(names.subrange(lo, k)[j - 1] == y);
                    }
                }
                assert forall|y: Seq<u8>| t.insert(m).contains(y) implies a.contains(y) by {
                    if y == m {
                        assert(names.subrange(lo0, k)[0] == m);
                    } else {
                        let w = names.subrange(lo, k);
                        let j = choose|j: int| 0 <= j < w.len() && w[j] == y;
                        assert(names.subrange(lo0, k)[j + 1] == y);
                    }
                }
            }
            // the one name pruned is the oldest: the kept set cannot hold it
            assert(!s1.contains(m)) by {
                if s1.contains(m) {
                    if d.len() == 0 {
                        assert(d =~= Set::<Seq<u8>>::empty());
                        assert(s1 =~= a);
                        assert(s1.len() == a.len());
                        assert(false);
                    } else {
                        let x = d.choose();
                        assert(d.contains(x));
                        assert(lex_lt(x, m));
                        assert(a.contains(x));
                        let w = names.subrange(lo0, k);
                        let j = choose|j: int| 0 <= j < w.len() && w[j] == x;
                        if j == 0 {
                            crate::bytes::lemma_lex_irrefl(m);
                        } else {
                            lemma_lex_asym(m, names[lo0 + j]);
                        }
                        assert(false);
                    }
                }
            }
            assert(s1.subset_of(t)) by {
                assert forall|y: Seq<u8>| s1.contains(y) implies t.contains(y) by {
                    assert(a.contains(y));
                    assert(y != m);
                }
            }
            assert(t.len() == max);
            lemma_subset_equal_len(s1, t);
        }
    }
}

/// The retention law at the end of a run at least as long as the cap:
/// exactly `max` snapshots remain, and they are the `max` youngest names,
/// that is, the most recently created snapshots.
pub proof fn lemma_backup_retention(
    states: Seq<Set<Seq<u8>>>,
    names: Seq<Seq<u8>>,
    dels: Seq<Set<Seq<u8>>>,
    max: nat,
)
    requires
        max >= 1,
        states.len() == names.len() + 1,
        dels.len() == names.len(),
        states[0] == Set::<Seq<u8>>::empty(),
        forall|t: int|
            0 <= t < names.len() ==> backup_step_post(
                #[trigger] states[t],
                names[t],
                max,
                states[t + 1],
                dels[t],
            ),
        forall|i: int, j: int| 0 <= i < j < names.len() ==> lex_lt(names[i], names[j]),
        names.len() >= max,
    ensures
        states.last() =~= names.skip(names.len() - max).to_set(),
        states.last().len() == max,
{
    let k = names.len() as int;
    lemma_retention_prefix(states, names, dels, max, k);
    assert(names.skip(k - max) =~= names.subrange(k - max, k));
}

/// The retention law stated over clock times: snapshots created at
/// strictly rising timestamps, at least as many as the cap, leave exactly
/// the `max` snapshots of the latest timestamps.
pub proof fn lemma_backup_retention_times(
    states: Seq<Set<Seq<u8>>>,
    stamps: Seq<Timestamp>,
    dels: Seq<Set<Seq<u8>>>,
    max: nat,
)
    requires
        max >= 1,
        states.len() == stamps.len() + 1,
        dels.len() == stamps.len(),
        states[0] == Set::<Seq<u8>>::empty(),
        forall|i: int| 0 <= i < stamps.len() ==> (#[trigger] stamps[i]).valid(),
        forall|i: int, j: int|
            0 <= i < j < stamps.len() ==> crate::timestamp::ts_lt(stamps[i], stamps[j]),
        forall|t: int|
            0 <= t < stamps.len() ==> backup_step_post(
                #[trigger] states[t],
                snapshot_name_view(stamps[t]),
                max,
                states[t + 1],
                dels[t],
            ),
        stamps.len() >= max,
    ensures
        states.last() =~= stamps.map_values(|t: Timestamp| snapshot_name_view(t)).skip(
            stamps.len() - max,
        ).to_set(),
        states.last().len() == max,
{
    let names = stamps.map_values(|t: Timestamp| snapshot_name_view(t));
    assert forall|i: int, j: int| 0 <= i < j < names.len() implies lex_lt(
        names[i],
        names[j],
    ) by {
        crate::paths::lemma_snapshot_name_monotone(stamps[i], stamps[j]);
    }
    assert(names.skip(names.len() - max) =~= stamps.skip(stamps.len() - max).map_values(
        |t: Timestamp| snapshot_name_view(t),
    ));
    lemma_backup_retention(states, names, dels, max);
    assert(states.last() =~= names.skip(names.len() - max).to_set());
}

} // verus!
