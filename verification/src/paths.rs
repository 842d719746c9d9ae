//! Byte-string paths: parent and file-name extraction the way the standard
//! path type reads them — trailing separators and trailing `.` components
//! are skipped, and a final `..` component names no file — plus the backup
//! directory a document maps to and snapshot file names.
use vstd::prelude::*;
use crate::bytes::lex_lt;
use crate::tokens::{backups_dir_token, snapshot_ext, snapshot_ext_v};
use crate::timestamp::{Timestamp, spec_format};

verus! {

/// The path separator byte `/`.
pub open spec fn sep() -> u8 {
    47u8
}

/// The extension separator byte `.`.
pub open spec fn dot() -> u8 {
    46u8
}

/// The largest index of `c` in `s`, or `-1` when `c` does not occur.
pub open spec fn last_index_of(s: Seq<u8>, c: u8) -> int
    decreases s.len(),
{
    if s.len() == 0 {
        -1
    } else if s[s.len() - 1] == c {
        s.len() - 1
    } else {
        last_index_of(s.drop_last(), c)
    }
}

/// `p` without its trailing separators and trailing `.` components: what
/// remains once the components that name no file are dropped from the end.
pub open spec fn norm_tail(p: Seq<u8>) -> Seq<u8>
    decreases p.len(),
{
    if p.len() > 0 && p[p.len() - 1] == sep() {
        norm_tail(p.drop_last())
    } else if p.len() >= 2 && p[p.len() - 1] == dot() && p[p.len() - 2] == sep() {
        norm_tail(p.drop_last())
    } else if p.len() == 1 && p[0] == dot() {
        Seq::empty()
    } else {
        p
    }
}

/// Whether the path names a directory above its file: a separator survives
/// the normalization.
pub open spec fn has_parent(p: Seq<u8>) -> bool {
    last_index_of(norm_tail(p), sep()) >= 0
}

/// The directory part of a path: everything before the last separator of
/// the normalized path.
pub open spec fn parent_view(p: Seq<u8>) -> Seq<u8>
    recommends
        has_parent(p),
{
    norm_tail(p).subrange(0, last_index_of(norm_tail(p), sep()))
}

/// The file-name component of a path: what follows the last surviving
/// separator. It may still be the parent reference `..`, which names no
/// file; `valid_file_name` rules on that.
pub open spec fn file_name_view(p: Seq<u8>) -> Seq<u8> {
    norm_tail(p).subrange(last_index_of(norm_tail(p), sep()) + 1, norm_tail(p).len() as int)
}

/// A component that names a file: non-empty and not the parent reference.
pub open spec fn valid_file_name(n: Seq<u8>) -> bool {
    n.len() > 0 && !(n =~= seq![dot(), dot()])
}

/// The stem of a file name: what precedes the last `.`, unless that dot
/// leads the name or there is none.
pub open spec fn stem_of_name(n: Seq<u8>) -> Seq<u8> {
    if last_index_of(n, dot()) > 0 {
        n.subrange(0, last_index_of(n, dot()))
    } else {
        n
    }
}

/// The stem of the path's file name.
pub open spec fn stem_view(p: Seq<u8>) -> Seq<u8> {
    stem_of_name(file_name_view(p))
}

/// What a file picked in a dialog records as its directory: the parent
/// when one survives, the empty string for a bare or relative name, and
/// nothing for an empty or root-only path.
pub open spec fn picked_parent(p: Seq<u8>) -> Option<Seq<u8>> {
    if norm_tail(p).len() == 0 {
        if p.len() == 0 || p[0] == sep() {
            None
        } else {
            Some(Seq::empty())
        }
    } else if last_index_of(norm_tail(p), sep()) >= 0 {
        Some(parent_view(p))
    } else {
        Some(Seq::empty())
    }
}

/// The index just past what the normalization keeps.
fn norm_end(path: &Vec<u8>) -> (e: usize)
    ensures
        e <= path@.len(),
        path@.subrange(0, e as int) =~= norm_tail(path@),
{
    let mut e: usize = path.len();
    proof {
        assert(path@.subrange(0, path@.len() as int) =~= path@);
    }
    loop
        invariant
            e <= path@.len(),
            norm_tail(path@) == norm_tail(path@.subrange(0, e as int)),
        ensures
            e <= path@.len(),
            path@.subrange(0, e as int) =~= norm_tail(path@),
        decreases e,
    {
        let ghost q = path@.subrange(0, e as int);
        proof {
            if e > 0 {
                assert(q.drop_last() =~= path@.subrange(0, e - 1));
                assert(q[q.len() - 1] == path@[e - 1]);
                if e >= 2 {
                    assert(q[q.len() - 2] == path@[e - 2]);
                }
            }
        }
        if e > 0 && path[e - 1] == 47 {
            e = e - 1;
        } else if e >= 2 && path[e - 1] == 46 && path[e - 2] == 47 {
            e = e - 1;
        } else if e == 1 && path[0] == 46 {
            proof {
                assert(q =~= seq![46u8]);
                assert(norm_tail(q) =~= Seq::<u8>::empty());
                assert(path@.subrange(0, 0) =~= Seq::<u8>::empty());
                assert(norm_tail(path@.subrange(0, 0)) =~= Seq::<u8>::empty());
            }
            e = 0;
        } else {
            proof {
                assert(norm_tail(q) == q);
            }
            break ;
        }
    }
    e
}

/// Scans `v[0..e]` for the last occurrence of `c`.
fn find_last_within(v: &Vec<u8>, c: u8, e: usize) -> (r: Option<usize>)
    requires
        e <= v@.len(),
    ensures
        r matches Some(i) ==> i == last_index_of(v@.subrange(0, e as int), c) && i < e,
        r is None ==> last_index_of(v@.subrange(0, e as int), c) == -1,
{
    let mut i: usize = e;
    while i > 0
        invariant
            i <= e <= v@.len(),
            last_index_of(v@.subrange(0, e as int), c) == last_index_of(
                v@.subrange(0, i as int),
                c,
            ),
        decreases i,
    {
        proof {
            assert(v@.subrange(0, i as int).drop_last() =~= v@.subrange(0, i - 1));
        }
        if v[i - 1] == c {
            proof {
                let t = v@.subrange(0, i as int);
                assert(t[t.len() - 1] == v@[i - 1]);
            }
            return Some(i - 1);
        }
        i = i - 1;
    }
    proof {
        assert(v@.subrange(0, 0) =~= Seq::<u8>::empty());
    }
    None
}

/// Copies `v[lo..hi]` into a fresh vector.
fn sub_vec(v: &Vec<u8>, lo: usize, hi: usize) -> (r: Vec<u8>)
    requires
        lo <= hi <= v@.len(),
    ensures
        r@ =~= v@.subrange(lo as int, hi as int),
{
    let mut out: Vec<u8> = Vec::new();
    let mut i: usize = lo;
    while i < hi
        invariant
            lo <= i <= hi <= v@.len(),
            out@ =~= v@.subrange(lo as int, i as int),
        decreases hi - i,
    {
        out.push(v[i]);
        assert(out@ =~= v@.subrange(lo as int, i + 1));
        i = i + 1;
    }
    out
}

/// The directory part of a path, when it has one.
pub fn parent_of(path: &Vec<u8>) -> (r: Option<Vec<u8>>)
    ensures
        r matches Some(p) ==> has_parent(path@) && p@ =~= parent_view(path@),
        r is None ==> !has_parent(path@),
{
    let e = norm_end(path);
    match find_last_within(path, 47u8, e) {
        Some(i) => Some(sub_vec(path, 0, i)),
        None => None,
    }
}

/// The file-name component of a path; empty when none survives.
pub fn file_name_of(path: &Vec<u8>) -> (r: Vec<u8>)
    ensures
        r@ =~= file_name_view(path@),
{
    let e = norm_end(path);
    match find_last_within(path, 47u8, e) {
        Some(i) => {
            assert(i < e);
            sub_vec(path, i + 1, e)
        },
        None => sub_vec(path, 0, e),
    }
}

/// The stem of a file name.
fn stem_of_name_v(name: &Vec<u8>) -> (r: Vec<u8>)
    ensures
        r@ =~= stem_of_name(name@),
{
    let n = name.len();
    proof {
        assert(name@.subrange(0, n as int) =~= name@);
    }
    match find_last_within(name, 46u8, n) {
        Some(i) => {
            if i > 0 {
                sub_vec(name, 0, i)
            } else {
                crate::bytes::copy_bytes(name)
            }
        },
        None => crate::bytes::copy_bytes(name),
    }
}

/// The stem of the path's file name.
pub fn stem_of(path: &Vec<u8>) -> (r: Vec<u8>)
    ensures
        r@ =~= stem_view(path@),
{
    let name = file_name_of(path);
    stem_of_name_v(&name)
}

/// The file-name component, with a verdict on whether it names a file.
pub fn checked_file_name(path: &Vec<u8>) -> (r: Option<Vec<u8>>)
    ensures
        r matches Some(n) ==> n@ =~= file_name_view(path@) && valid_file_name(file_name_view(
            path@,
        )),
        r is None ==> !valid_file_name(file_name_view(path@)),
{
    let name = file_name_of(path);
    if name.len() == 0 {
        return None;
    }
    if name.len() == 2 && name[0] == 46 && name[1] == 46 {
        proof {
            assert(name@ =~= seq![dot(), dot()]);
        }
        return None;
    }
    proof {
        if name@.len() == 2 && name@ =~= seq![dot(), dot()] {
            assert(name@[0] == 46 && name@[1] == 46);
        }
    }
    Some(name)
}

/// The directory a dialog selection records.
pub fn picked_parent_of(path: &Vec<u8>) -> (r: Option<Vec<u8>>)
    ensures
        r matches Some(p) ==> picked_parent(path@) matches Some(d) && p@ =~= d,
        r is None ==> picked_parent(path@) is None,
{
    let e = norm_end(path);
    if e == 0 {
        if path.len() == 0 || path[0] == 47 {
            None
        } else {
            Some(Vec::new())
        }
    } else {
        match find_last_within(path, 47u8, e) {
            Some(i) => Some(sub_vec(path, 0, i)),
            None => Some(Vec::new()),
        }
    }
}

/// `dir` and `name` joined with one separator.
pub open spec fn join_view(dir: Seq<u8>, name: Seq<u8>) -> Seq<u8> {
    dir + seq![sep()] + name
}

/// Joins a directory and a file name with one separator.
pub fn join(dir: &Vec<u8>, name: &Vec<u8>) -> (r: Vec<u8>)
    ensures
        r@ =~= join_view(dir@, name@),
{
    let mut out: Vec<u8> = Vec::new();
    out.extend_from_slice(dir.as_slice());
    out.push(47u8);
    out.extend_from_slice(name.as_slice());
    assert(out@ =~= join_view(dir@, name@));
    out
}

/// Whether `s` ends with `suffix`.
pub open spec fn ends_with(s: Seq<u8>, suffix: Seq<u8>) -> bool {
    s.len() >= suffix.len() && s.skip(s.len() - suffix.len()) =~= suffix
}

/// A snapshot file name: a non-empty stem followed by the snapshot
/// extension, which is what the pruning step counts and deletes.
pub open spec fn is_snapshot_name(n: Seq<u8>) -> bool {
    n.len() > snapshot_ext().len() && ends_with(n, snapshot_ext())
}

/// Decides whether a directory entry is a snapshot file name.
pub fn check_snapshot_name(n: &Vec<u8>) -> (r: bool)
    ensures
        r == is_snapshot_name(n@),
{
    let ext = snapshot_ext_v();
    if n.len() <= ext.len() {
        return false;
    }
    let start = n.len() - ext.len();
    let tail = sub_vec(n, start, n.len());
    let r = crate::bytes::bytes_eq(&tail, &ext);
    proof {
        assert(n@.skip(n@.len() - snapshot_ext().len()) =~= n@.subrange(
            start as int,
            n@.len() as int,
        ));
    }
    r
}

/// The backup directory of a document: a dotted holding directory beside
/// the document, with one subdirectory per document stem.
pub open spec fn backup_dir_view(p: Seq<u8>) -> Seq<u8>
    recommends
        has_parent(p),
{
    join_view(join_view(parent_view(p), backups_dir_token()), stem_view(p))
}

/// The file name of a snapshot taken at `t`.
pub open spec fn snapshot_name_view(t: Timestamp) -> Seq<u8> {
    spec_format(t) + snapshot_ext()
}

/// Builds the file name of a snapshot taken at `t`.
pub fn snapshot_name_at(t: &Timestamp) -> (r: Vec<u8>)
    requires
        t.valid(),
    ensures
        r@ =~= snapshot_name_view(*t),
        is_snapshot_name(r@),
{
    let mut v = t.format();
    let ext = snapshot_ext_v();
    v.extend_from_slice(ext.as_slice());
    assert(v@ =~= snapshot_name_view(*t));
    assert(v@.skip(v@.len() - snapshot_ext().len()) =~= snapshot_ext());
    v
}

/// A snapshot name at a later second is lexicographically greater, so names
/// list in creation order.
#[verifier::spinoff_prover]
#[verifier::rlimit(100)]
pub proof fn lemma_snapshot_name_monotone(a: Timestamp, b: Timestamp)
    requires
        a.valid(),
        b.valid(),
        crate::timestamp::ts_lt(a, b),
    ensures
        lex_lt(snapshot_name_view(a), snapshot_name_view(b)),
{
    crate::timestamp::lemma_format_monotone(a, b);
    assert(spec_format(a).len() == spec_format(b).len()) by {
        assert(spec_format(a).len() == 19);
        assert(spec_format(b).len() == 19);
    }
    crate::bytes::lemma_lex_append_lt(
        spec_format(a),
        spec_format(b),
        snapshot_ext(),
        snapshot_ext(),
    );
}

} // verus!
