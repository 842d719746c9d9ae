//! Byte-string utilities: equality, strict lexicographic order, and the
//! order lemmas the backup-retention proofs rest on.
use vstd::prelude::*;

verus! {

/// Views of a sequence of byte vectors.
pub open spec fn views(s: Seq<Vec<u8>>) -> Seq<Seq<u8>> {
    s.map_values(|v: Vec<u8>| v@)
}

/// Strict lexicographic order on byte strings: the usual dictionary order,
/// where a proper prefix precedes every extension of itself.
pub open spec fn lex_lt(a: Seq<u8>, b: Seq<u8>) -> bool
    decreases a.len() + b.len(),
{
    if b.len() == 0 {
        false
    } else if a.len() == 0 {
        true
    } else if a[0] < b[0] {
        true
    } else if a[0] > b[0] {
        false
    } else {
        lex_lt(a.skip(1), b.skip(1))
    }
}

pub proof fn lemma_lex_irrefl(a: Seq<u8>)
    ensures
        !lex_lt(a, a),
    decreases a.len(),
{
    if a.len() > 0 {
        lemma_lex_irrefl(a.skip(1));
    }
}

pub proof fn lemma_lex_trans(a: Seq<u8>, b: Seq<u8>, c: Seq<u8>)
    requires
        lex_lt(a, b),
        lex_lt(b, c),
    ensures
        lex_lt(a, c),
    decreases a.len() + b.len() + c.len(),
{
    if c.len() == 0 || a.len() == 0 {
    } else if b.len() == 0 {
    } else {
        if a[0] == b[0] && b[0] == c[0] {
            lemma_lex_trans(a.skip(1), b.skip(1), c.skip(1));
        }
    }
}

/// Totality: two distinct byte strings are strictly ordered one way.
pub proof fn lemma_lex_connected(a: Seq<u8>, b: Seq<u8>)
    requires
        !lex_lt(a, b),
        !lex_lt(b, a),
    ensures
        a =~= b,
    decreases a.len() + b.len(),
{
    if a.len() == 0 || b.len() == 0 {
    } else if a[0] == b[0] {
        lemma_lex_connected(a.skip(1), b.skip(1));
        assert(a =~= seq![a[0]] + a.skip(1));
        assert(b =~= seq![b[0]] + b.skip(1));
    }
}

/// Two strictly ordered byte strings are distinct.
pub proof fn lemma_lex_asym(a: Seq<u8>, b: Seq<u8>)
    requires
        lex_lt(a, b),
    ensures
        !lex_lt(b, a),
        !(a =~= b),
    decreases a.len() + b.len(),
{
    lemma_lex_irrefl(a);
    if lex_lt(b, a) {
        lemma_lex_trans(a, b, a);
    }
    if a =~= b {
        assert(lex_lt(a, a));
    }
}

/// A shared first byte leaves the order to the tails.
pub proof fn lemma_lex_cons(a: Seq<u8>, b: Seq<u8>)
    requires
        a.len() > 0,
        b.len() > 0,
        a[0] == b[0],
    ensures
        lex_lt(a, b) == lex_lt(a.skip(1), b.skip(1)),
{
}

/// A shared prefix leaves the order to what follows it.
pub proof fn lemma_lex_append_prefix(x: Seq<u8>, s: Seq<u8>, t: Seq<u8>)
    ensures
        lex_lt(x + s, x + t) == lex_lt(s, t),
    decreases x.len(),
{
    if x.len() == 0 {
        assert(x + s =~= s);
        assert(x + t =~= t);
    } else {
        let a = x + s;
        let b = x + t;
        if t.len() == 0 && s.len() == 0 {
            lemma_lex_irrefl(a);
            assert(a =~= b);
        } else {
            assert(a.len() > 0 && b.len() > 0 && a[0] == b[0]);
            assert(a.skip(1) =~= x.skip(1) + s);
            assert(b.skip(1) =~= x.skip(1) + t);
            lemma_lex_cons(a, b);
            lemma_lex_append_prefix(x.skip(1), s, t);
        }
    }
}

/// When two equally long byte strings are strictly ordered, so is any pair
/// of their extensions.
pub proof fn lemma_lex_append_lt(u: Seq<u8>, v: Seq<u8>, s: Seq<u8>, t: Seq<u8>)
    requires
        lex_lt(u, v),
        u.len() == v.len(),
    ensures
        lex_lt(u + s, v + t),
    decreases u.len(),
{
    if v.len() == 0 {
    } else if u[0] < v[0] {
        assert((u + s)[0] == u[0]);
        assert((v + t)[0] == v[0]);
    } else {
        assert(u[0] == v[0]);
        assert((u + s).skip(1) =~= u.skip(1) + s);
        assert((v + t).skip(1) =~= v.skip(1) + t);
        lemma_lex_append_lt(u.skip(1), v.skip(1), s, t);
        lemma_lex_cons(u + s, v + t);
    }
}

/// Byte-string equality, decided byte by byte.
pub fn bytes_eq(a: &Vec<u8>, b: &Vec<u8>) -> (r: bool)
    ensures
        r == (a@ =~= b@),
{
    if a.len() != b.len() {
        return false;
    }
    let n = a.len();
    let mut i: usize = 0;
    while i < n
        invariant
            n == a.len() == b.len(),
            i <= n,
            a@.subrange(0, i as int) =~= b@.subrange(0, i as int),
        decreases n - i,
    {
        if a[i] != b[i] {
            assert(a@[i as int] != b@[i as int]);
            return false;
        }
        assert(a@.subrange(0, i + 1) =~= a@.subrange(0, i as int).push(a@[i as int]));
        assert(b@.subrange(0, i + 1) =~= b@.subrange(0, i as int).push(b@[i as int]));
        i = i + 1;
    }
    assert(a@ =~= a@.subrange(0, n as int));
    assert(b@ =~= b@.subrange(0, n as int));
    true
}

/// Strict lexicographic comparison, decided byte by byte.
pub fn bytes_lt(a: &Vec<u8>, b: &Vec<u8>) -> (r: bool)
    ensures
        r == lex_lt(a@, b@),
{
    let mut i: usize = 0;
    assert(a@.skip(0) =~= a@);
    assert(b@.skip(0) =~= b@);
    while i < a.len() && i < b.len()
        invariant
            i <= a.len(),
            i <= b.len(),
            lex_lt(a@, b@) == lex_lt(a@.skip(i as int), b@.skip(i as int)),
        decreases a.len() - i,
    {
        let x = a[i];
        let y = b[i];
        let ghost sa = a@.skip(i as int);
        let ghost sb = b@.skip(i as int);
        assert(sa[0] == a@[i as int] && sb[0] == b@[i as int]);
        if x < y {
            return true;
        }
        if x > y {
            return false;
        }
        proof {
            lemma_lex_cons(sa, sb);
            assert(sa.skip(1) =~= a@.skip(i + 1));
            assert(sb.skip(1) =~= b@.skip(i + 1));
        }
        i = i + 1;
    }
    let r = a.len() < b.len();
    proof {
        let sa = a@.skip(i as int);
        let sb = b@.skip(i as int);
        if i >= a.len() {
            assert(sa.len() == 0);
        }
        if i >= b.len() {
            assert(sb.len() == 0);
        }
    }
    r
}

/// Membership of a byte string in a list, decided by scan.
pub fn contains_bytes(l: &Vec<Vec<u8>>, x: &Vec<u8>) -> (r: bool)
    ensures
        r == views(l@).to_set().contains(x@),
{
    let mut i: usize = 0;
    while i < l.len()
        invariant
            i <= l.len(),
            forall|j: int| 0 <= j < i ==> !(#[trigger] l@[j]@ =~= x@),
        decreases l.len() - i,
    {
        if bytes_eq(&l[i], x) {
            assert(views(l@)[i as int] == l@[i as int]@);
            assert(views(l@).to_set().contains(x@));
            return true;
        }
        i = i + 1;
    }
    assert(forall|j: int| 0 <= j < l@.len() ==> views(l@)[j] == l@[j]@);
    assert(!views(l@).to_set().contains(x@)) by {
        if views(l@).to_set().contains(x@) {
            let j = choose|j: int| 0 <= j < views(l@).len() && views(l@)[j] == x@;
            assert(l@[j]@ =~= x@);
        }
    }
    false
}

/// Copies a byte string.
pub fn copy_bytes(v: &Vec<u8>) -> (r: Vec<u8>)
    ensures
        r@ =~= v@,
{
    let mut out: Vec<u8> = Vec::new();
    let mut i: usize = 0;
    while i < v.len()
        invariant
            i <= v@.len(),
            out@ =~= v@.subrange(0, i as int),
        decreases v@.len() - i,
    {
        out.push(v[i]);
        assert(out@ =~= v@.subrange(0, i + 1));
        i = i + 1;
    }
    assert(v@.subrange(0, v@.len() as int) =~= v@);
    out
}

/// Copies a list of byte strings.
pub fn copy_bytes_list(l: &Vec<Vec<u8>>) -> (r: Vec<Vec<u8>>)
    ensures
        views(r@) =~= views(l@),
{
    let mut out: Vec<Vec<u8>> = Vec::new();
    let mut i: usize = 0;
    while i < l.len()
        invariant
            i <= l@.len(),
            views(out@) =~= views(l@).subrange(0, i as int),
        decreases l@.len() - i,
    {
        let ghost prev = out@;
        let c = copy_bytes(&l[i]);
        proof {
            assert(c@ == l@[i as int]@);
        }
        out.push(c);
        proof {
            assert(out@ =~= prev.push(c));
            assert(views(out@) =~= views(prev).push(c@));
            assert(views(out@) =~= views(l@).subrange(0, i + 1));
        }
        i = i + 1;
    }
    assert(views(l@).subrange(0, views(l@).len() as int) =~= views(l@));
    out
}

} // verus!
