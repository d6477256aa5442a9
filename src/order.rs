//! Lexicographic order and prefix tests on byte sequences, in spec and exec form.

use std::cmp::Ordering;
use vstd::prelude::*;

verus! {

/// Lexicographic comparison: the first differing byte decides, and a proper
/// prefix orders before the longer sequence.
pub open spec fn lex_cmp(a: Seq<u8>, b: Seq<u8>) -> Ordering
    decreases a.len(),
{
    if a.len() == 0 {
        if b.len() == 0 {
            Ordering::Equal
        } else {
            Ordering::Less
        }
    } else if b.len() == 0 {
        Ordering::Greater
    } else if a[0] < b[0] {
        Ordering::Less
    } else if a[0] > b[0] {
        Ordering::Greater
    } else {
        lex_cmp(a.drop_first(), b.drop_first())
    }
}

/// `needle` is a prefix of `hay` (or equal to it).
pub open spec fn is_prefix_of(needle: Seq<u8>, hay: Seq<u8>) -> bool {
    needle.len() <= hay.len() && hay.subrange(0, needle.len() as int) == needle
}

/// The ordering seen from the other side.
pub open spec fn flip(o: Ordering) -> Ordering {
    match o {
        Ordering::Less => Ordering::Greater,
        Ordering::Equal => Ordering::Equal,
        Ordering::Greater => Ordering::Less,
    }
}

/// The first `k` bytes of `s`, or all of it when it is shorter.
pub open spec fn head(s: Seq<u8>, k: int) -> Seq<u8> {
    if s.len() <= k {
        s
    } else {
        s.subrange(0, k)
    }
}

/// Equal sequences, and only those, compare `Equal`.
pub proof fn lemma_lex_cmp_equal(a: Seq<u8>, b: Seq<u8>)
    ensures
        lex_cmp(a, b) == Ordering::Equal <==> a == b,
    decreases a.len(),
{
    if a.len() == 0 && b.len() == 0 {
        assert(a =~= b);
    }
    if a.len() != 0 && b.len() != 0 && a[0] == b[0] {
        lemma_lex_cmp_equal(a.drop_first(), b.drop_first());
        if a.drop_first() == b.drop_first() {
            assert(a =~= seq![a[0]] + a.drop_first());
            assert(b =~= seq![b[0]] + b.drop_first());
        }
    }
}

/// Swapping the arguments flips the result.
pub proof fn lemma_lex_cmp_flip(a: Seq<u8>, b: Seq<u8>)
    ensures
        lex_cmp(b, a) == flip(lex_cmp(a, b)),
    decreases a.len(),
{
    if a.len() != 0 && b.len() != 0 && a[0] == b[0] {
        lemma_lex_cmp_flip(a.drop_first(), b.drop_first());
    }
}

/// `Less` is transitive.
pub proof fn lemma_lex_cmp_transitive(a: Seq<u8>, b: Seq<u8>, c: Seq<u8>)
    requires
        lex_cmp(a, b) == Ordering::Less,
        lex_cmp(b, c) == Ordering::Less,
    ensures
        lex_cmp(a, c) == Ordering::Less,
    decreases a.len(),
{
    if a.len() != 0 && b.len() != 0 && c.len() != 0 && a[0] == b[0] && b[0] == c[0] {
        lemma_lex_cmp_transitive(a.drop_first(), b.drop_first(), c.drop_first());
    }
}

/// A common leading run of `k` bytes does not change the comparison.
pub proof fn lemma_lex_cmp_skip(a: Seq<u8>, b: Seq<u8>, k: int)
    requires
        0 <= k <= a.len(),
        k <= b.len(),
        a.subrange(0, k) == b.subrange(0, k),
    ensures
        lex_cmp(a, b) == lex_cmp(a.subrange(k, a.len() as int), b.subrange(k, b.len() as int)),
    decreases k,
{
    if k == 0 {
        assert(a.subrange(0, a.len() as int) =~= a);
        assert(b.subrange(0, b.len() as int) =~= b);
    } else {
        assert(a[0] == a.subrange(0, k)[0]);
        assert(b[0] == b.subrange(0, k)[0]);
        assert(a.drop_first().subrange(0, k - 1) =~= a.subrange(0, k).drop_first());
        assert(b.drop_first().subrange(0, k - 1) =~= b.subrange(0, k).drop_first());
        lemma_lex_cmp_skip(a.drop_first(), b.drop_first(), k - 1);
        assert(a.drop_first().subrange(k - 1, a.len() - 1) =~= a.subrange(k, a.len() as int));
        assert(b.drop_first().subrange(k - 1, b.len() - 1) =~= b.subrange(k, b.len() as int));
    }
}

/// When the first `k` bytes of each side already differ in order, they decide
/// the comparison of the whole sequences.
pub proof fn lemma_lex_cmp_head(a: Seq<u8>, b: Seq<u8>, k: int)
    requires
        0 <= k,
        lex_cmp(head(a, k), head(b, k)) != Ordering::Equal,
    ensures
        lex_cmp(a, b) == lex_cmp(head(a, k), head(b, k)),
    decreases k,
{
    let ha = head(a, k);
    let hb = head(b, k);
    if k == 0 {
        assert(ha.len() == 0 && hb.len() == 0);
    } else if a.len() == 0 || b.len() == 0 {
        assert(ha.len() == 0 <==> a.len() == 0);
        assert(hb.len() == 0 <==> b.len() == 0);
    } else {
        assert(ha[0] == a[0] && hb[0] == b[0]);
        if a[0] == b[0] {
            assert(ha.drop_first() =~= head(a.drop_first(), k - 1));
            assert(hb.drop_first() =~= head(b.drop_first(), k - 1));
            lemma_lex_cmp_head(a.drop_first(), b.drop_first(), k - 1);
        }
    }
}

/// Compares `a` and `b` lexicographically, knowing that their first `from`
/// bytes agree.
pub fn compare_from(a: &[u8], b: &[u8], from: usize) -> (r: Ordering)
    requires
        from <= a@.len(),
        from <= b@.len(),
        a@.subrange(0, from as int) == b@.subrange(0, from as int),
    ensures
        r == lex_cmp(a@, b@),
{
    let mut i: usize = from;
    while i < a.len() && i < b.len() && a[i] == b[i]
        invariant
            from <= i <= a@.len(),
            i <= b@.len(),
            a@.subrange(0, i as int) == b@.subrange(0, i as int),
        decreases a@.len() - i,
    {
        assert(a@.subrange(0, i + 1) =~= a@.subrange(0, i as int).push(a@[i as int]));
        assert(b@.subrange(0, i + 1) =~= b@.subrange(0, i as int).push(b@[i as int]));
        i = i + 1;
    }
    proof {
        lemma_lex_cmp_skip(a@, b@, i as int);
    }
    let ghost ra = a@.subrange(i as int, a@.len() as int);
    let ghost rb = b@.subrange(i as int, b@.len() as int);
    assert(ra.len() == a@.len() - i && rb.len() == b@.len() - i);
    if i == a.len() {
        if i == b.len() {
            Ordering::Equal
        } else {
            Ordering::Less
        }
    } else if i == b.len() {
        Ordering::Greater
    } else {
        assert(ra[0] == a@[i as int] && rb[0] == b@[i as int]);
        if a[i] < b[i] {
            Ordering::Less
        } else {
            Ordering::Greater
        }
    }
}

/// Whether the first `n` bytes of `a` and `b` agree.
pub fn same_bytes(a: &[u8], b: &[u8], n: usize) -> (r: bool)
    requires
        n <= a@.len(),
        n <= b@.len(),
    ensures
        r == (a@.subrange(0, n as int) == b@.subrange(0, n as int)),
{
    let mut i: usize = 0;
    while i < n
        invariant
            i <= n,
            n <= a@.len(),
            n <= b@.len(),
            a@.subrange(0, i as int) == b@.subrange(0, i as int),
        decreases n - i,
    {
        if a[i] != b[i] {
            assert(a@.subrange(0, n as int)[i as int] != b@.subrange(0, n as int)[i as int]);
            return false;
        }
        assert(a@.subrange(0, i + 1) =~= a@.subrange(0, i as int).push(a@[i as int]));
        assert(b@.subrange(0, i + 1) =~= b@.subrange(0, i as int).push(b@[i as int]));
        i = i + 1;
    }
    true
}

} // verus!
