//! Laws that tie the operations of [`ByteView`] to its bytes, stated over
//! the operations' own contracts.

use std::cmp::Ordering;
use vstd::prelude::*;

use crate::byteview::{ByteRange, ByteView, PREFIX_SIZE};
use crate::order::{
    flip, head, is_prefix_of, lemma_lex_cmp_equal, lemma_lex_cmp_flip, lemma_lex_cmp_transitive,
    lex_cmp,
};

verus! {

/// Constructing a value from bytes and reading its bytes back gives the
/// same bytes.
pub proof fn round_trip(b: &[u8], v: ByteView)
    requires
        call_ensures(ByteView::new, (b,), v),
    ensures
        v@ == b@,
        forall|r: &[u8]| #[trigger] call_ensures(ByteView::as_slice, (&v,), r) ==> r@ == b@,
{
}

/// The length of a value is the number of its bytes.
pub proof fn length_is_byte_count(v: &ByteView, n: usize, b: &[u8])
    requires
        call_ensures(ByteView::len, (v,), n),
        call_ensures(ByteView::as_slice, (v,), b),
    ensures
        n == b@.len(),
{
}

/// A clone has the bytes of its source and compares equal to it.
pub proof fn clone_is_equal(v: &ByteView, c: ByteView)
    requires
        call_ensures(ByteView::clone, (v,), c),
    ensures
        c@ == v@,
        forall|r: bool| #[trigger] call_ensures(ByteView::eq, (v, &c), r) ==> r,
        forall|r: bool| #[trigger] call_ensures(ByteView::eq, (&c, v), r) ==> r,
        forall|o: Ordering| #[trigger] call_ensures(ByteView::cmp, (v, &c), o) ==> o == Ordering::Equal,
{
    lemma_lex_cmp_equal(v@, c@);
}

/// A slice holds exactly the bytes of its range.
pub proof fn slice_is_window<R: ByteRange>(v: &ByteView, range: R, w: ByteView)
    requires
        0 <= range.spec_begin() <= range.spec_end(v@.len() as int) <= v@.len(),
        call_ensures(ByteView::slice::<R>, (v, range), w),
    ensures
        w@ == v@.subrange(range.spec_begin(), range.spec_end(v@.len() as int)),
{
}

/// Equality of values is equality of their bytes.
pub proof fn eq_agrees_with_bytes(a: &ByteView, b: &ByteView, r: bool)
    requires
        call_ensures(ByteView::eq, (a, b), r),
    ensures
        r <==> a@ == b@,
{
}

/// The order of values is the lexicographic order of their bytes: it is
/// `Equal` exactly for equal bytes and flips when the sides swap.
pub proof fn cmp_agrees_with_bytes(a: &ByteView, b: &ByteView, o: Ordering)
    requires
        call_ensures(ByteView::cmp, (a, b), o),
    ensures
        o == lex_cmp(a@, b@),
        o == Ordering::Equal <==> a@ == b@,
        forall|p: Ordering| #[trigger] call_ensures(ByteView::cmp, (b, a), p) ==> p == flip(o),
{
    lemma_lex_cmp_equal(a@, b@);
    lemma_lex_cmp_flip(a@, b@);
}

/// The order of values is transitive.
pub proof fn cmp_is_transitive(a: &ByteView, b: &ByteView, c: &ByteView)
    requires
        call_ensures(ByteView::cmp, (a, b), Ordering::Less),
        call_ensures(ByteView::cmp, (b, c), Ordering::Less),
    ensures
        forall|o: Ordering| #[trigger] call_ensures(ByteView::cmp, (a, c), o) ==> o == Ordering::Less,
{
    lemma_lex_cmp_transitive(a@, b@, c@);
}

/// `starts_with` is the prefix relation on bytes.
pub proof fn starts_with_agrees_with_bytes(a: &ByteView, needle: &[u8], r: bool)
    requires
        call_ensures(ByteView::starts_with, (a, needle), r),
    ensures
        r == is_prefix_of(needle@, a@),
{
}

/// The prefix of a value is its first `min(PREFIX_SIZE, len)` bytes.
pub proof fn prefix_is_leading_bytes(v: &ByteView, p: &[u8])
    requires
        call_ensures(ByteView::prefix, (v,), p),
    ensures
        p@ == head(v@, PREFIX_SIZE as int),
        p@.len() <= PREFIX_SIZE,
        forall|i: int| 0 <= i < p@.len() ==> p@[i] == v@[i],
{
}

} // verus!
