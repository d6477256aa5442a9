//! The byte string value: inline storage for short payloads, a shared
//! reference-counted buffer for long ones.

use std::cmp::Ordering;
use std::ops::{Range, RangeFrom, RangeFull, RangeInclusive, RangeTo, RangeToInclusive};
use std::sync::Arc;
use vstd::prelude::*;
use vstd::slice::slice_subrange;

use crate::order::{compare_from, head, is_prefix_of, lex_cmp, same_bytes};

verus! {

/// Largest payload kept inside the value itself.
pub const INLINE_SIZE: usize = 20;

/// Number of leading payload bytes cached beside the length.
pub const PREFIX_SIZE: usize = 4;

/// Largest payload length a value can hold.
pub const MAX_LEN: usize = 0xffff_ffff;

/// The two layouts of a value, told apart by its length. Both fit in three
/// machine words on 64-bit targets.
#[derive(Debug)]
enum Repr {
    /// The payload itself, zero past `len`.
    Short { len: u8, data: [u8; INLINE_SIZE] },
    /// A window of `len` bytes starting at `start` in a shared buffer, with
    /// its first bytes cached in `prefix`.
    Long { len: u32, prefix: [u8; PREFIX_SIZE], heap: Arc<Vec<u8>>, start: u32 },
}

/// An immutable byte string.
///
/// Payloads of at most `INLINE_SIZE` bytes are stored inline. Longer ones
/// live in a reference-counted buffer that clones and sub-slices share
/// without copying.
#[derive(Debug)]
pub struct ByteView {
    repr: Repr,
}

impl View for ByteView {
    type V = Seq<u8>;

    /// The bytes of the value.
    closed spec fn view(&self) -> Seq<u8> {
        repr_bytes(self.repr)
    }
}

/// The number of bytes that `r` holds.
spec fn repr_len(r: Repr) -> nat {
    match r {
        Repr::Short { len, .. } => len as nat,
        Repr::Long { len, .. } => len as nat,
    }
}

/// The bytes that `r` holds.
spec fn repr_bytes(r: Repr) -> Seq<u8> {
    match r {
        Repr::Short { len, data } => data@.subrange(0, len as int),
        Repr::Long { len, heap, start, .. } => heap@.subrange(start as int, start + len),
    }
}

/// `r` is well formed: inline exactly when short, zero past the end inline,
/// a window inside the buffer with a matching cached prefix otherwise.
spec fn repr_wf(r: Repr) -> bool {
    match r {
        Repr::Short { len, data } => {
            &&& len <= INLINE_SIZE
            &&& forall|i: int| len <= i < INLINE_SIZE ==> data@[i] == 0
        },
        Repr::Long { len, prefix, heap, start } => {
            &&& len > INLINE_SIZE
            &&& start + len <= heap@.len() <= MAX_LEN
            &&& forall|i: int| 0 <= i < PREFIX_SIZE ==> prefix@[i] == heap@[start + i]
        },
    }
}

/// Writes `value` at `index` of the bytes that `r` holds, keeping the cached
/// prefix in step.
fn repr_set(r: &mut Repr, index: usize, value: u8)
    requires
        repr_wf(*old(r)),
        index < repr_len(*old(r)),
    ensures
        repr_wf(*final(r)),
        repr_len(*final(r)) == repr_len(*old(r)),
        repr_bytes(*final(r)) == repr_bytes(*old(r)).update(index as int, value),
{
    let ghost before = repr_bytes(*r);
    match r {
        Repr::Short { data, .. } => {
            data[index] = value;
        },
        Repr::Long { prefix, heap, start, .. } => {
            let v = make_unique(heap);
            let at: usize = *start as usize + index;
            v.set(at, value);
            if index < PREFIX_SIZE {
                prefix[index] = value;
            }
        },
    }
    assert(repr_bytes(*r) =~= before.update(index as int, value));
}

impl ByteView {
    #[verifier::type_invariant]
    closed spec fn well_formed(self) -> bool {
        repr_wf(self.repr)
    }

    /// Whether the value keeps its payload inline.
    pub open spec fn spec_is_inline(&self) -> bool {
        self@.len() <= INLINE_SIZE
    }

    /// An inline value holding `bytes[from..to]`.
    fn short_from(bytes: &[u8], from: usize, to: usize) -> (r: ByteView)
        requires
            from <= to <= bytes@.len(),
            to - from <= INLINE_SIZE,
        ensures
            r@ == bytes@.subrange(from as int, to as int),
            r.spec_is_inline(),
    {
        let n: usize = to - from;
        let mut data = [0u8; INLINE_SIZE];
        let mut i: usize = 0;
        while i < n
            invariant
                i <= n,
                n == to - from,
                n <= INLINE_SIZE,
                from <= to <= bytes@.len(),
                forall|j: int| 0 <= j < i ==> data@[j] == bytes@[from + j],
                forall|j: int| n <= j < INLINE_SIZE ==> data@[j] == 0,
            decreases n - i,
        {
            data[i] = bytes[from + i];
            i = i + 1;
        }
        let r = ByteView { repr: Repr::Short { len: n as u8, data } };
        assert(r@ =~= bytes@.subrange(from as int, to as int));
        r
    }

    /// A heap-backed value over the whole of `heap`.
    fn long_from(heap: Vec<u8>) -> (r: ByteView)
        requires
            INLINE_SIZE < heap@.len() <= MAX_LEN,
        ensures
            r@ == heap@,
            !r.spec_is_inline(),
    {
        let prefix = [heap[0], heap[1], heap[2], heap[3]];
        let len = heap.len() as u32;
        let r = ByteView { repr: Repr::Long { len, prefix, heap: Arc::new(heap), start: 0 } };
        assert(r@ =~= heap@);
        r
    }

    /// Creates a value holding a copy of `slice`.
    ///
    /// Payloads longer than `INLINE_SIZE` get a buffer of their own.
    pub fn new(slice: &[u8]) -> (r: ByteView)
        requires
            slice@.len() <= MAX_LEN,
        ensures
            r@ == slice@,
            r.spec_is_inline() == (slice@.len() <= INLINE_SIZE),
    {
        if slice.len() <= INLINE_SIZE {
            let r = Self::short_from(slice, 0, slice.len());
            assert(slice@.subrange(0, slice@.len() as int) =~= slice@);
            r
        } else {
            Self::long_from(vstd::slice::slice_to_vec(slice))
        }
    }

    /// Creates a value that takes `bytes` over; a long payload becomes the
    /// shared buffer without being copied.
    pub fn from_vec(bytes: Vec<u8>) -> (r: ByteView)
        requires
            bytes@.len() <= MAX_LEN,
        ensures
            r@ == bytes@,
            r.spec_is_inline() == (bytes@.len() <= INLINE_SIZE),
    {
        if bytes.len() <= INLINE_SIZE {
            let r = Self::short_from(bytes.as_slice(), 0, bytes.len());
            assert(bytes@.subrange(0, bytes@.len() as int) =~= bytes@);
            r
        } else {
            Self::long_from(bytes)
        }
    }

    /// Creates a value of `len` bytes read from `reader`. A read failure is
    /// returned as is, and the partly filled buffer is dropped.
    pub fn from_reader<R: std::io::Read>(reader: &mut R, len: usize) -> (r: std::io::Result<ByteView>)
        requires
            len <= MAX_LEN,
        ensures
            r matches Ok(v) ==> v@.len() == len,
    {
        let mut buf: Vec<u8> = vec![0u8; len];
        match read_exact(reader, &mut buf) {
            Ok(()) => Ok(Self::from_vec(buf)),
            Err(e) => Err(e),
        }
    }

    /// Creates a value of `slice_len` zero bytes, to be filled through
    /// [`ByteView::get_mut`].
    pub fn with_size(slice_len: usize) -> (r: ByteView)
        requires
            slice_len <= MAX_LEN,
        ensures
            r@ == Seq::new(slice_len as nat, |i: int| 0u8),
            r.spec_is_inline() == (slice_len <= INLINE_SIZE),
    {
        Self::with_size_zeroed(slice_len)
    }

    fn with_size_zeroed(slice_len: usize) -> (r: ByteView)
        requires
            slice_len <= MAX_LEN,
        ensures
            r@ == Seq::new(slice_len as nat, |i: int| 0u8),
            r.spec_is_inline() == (slice_len <= INLINE_SIZE),
    {
        if slice_len <= INLINE_SIZE {
            let r = ByteView { repr: Repr::Short { len: slice_len as u8, data: [0u8; INLINE_SIZE] } };
            assert(r@ =~= Seq::new(slice_len as nat, |i: int| 0u8));
            r
        } else {
            let heap: Vec<u8> = vec![0u8; slice_len];
            let r = Self::long_from(heap);
            assert(r@ =~= Seq::new(slice_len as nat, |i: int| 0u8));
            r
        }
    }

    /// The number of bytes.
    pub fn len(&self) -> (r: usize)
        ensures
            r == self@.len(),
            r <= MAX_LEN,
    {
        proof { use_type_invariant(self); }
        match &self.repr {
            Repr::Short { len, .. } => *len as usize,
            Repr::Long { len, .. } => *len as usize,
        }
    }

    /// Whether the value holds no bytes.
    pub fn is_empty(&self) -> (r: bool)
        ensures
            r == (self@.len() == 0),
    {
        self.len() == 0
    }

    /// Whether the payload is stored inline, which is the case exactly when
    /// it has at most `INLINE_SIZE` bytes.
    pub fn is_inline(&self) -> (r: bool)
        ensures
            r == self.spec_is_inline(),
    {
        self.len() <= INLINE_SIZE
    }

    /// The bytes of an inline value.
    fn get_short_slice(&self) -> (r: &[u8])
        requires
            self.spec_is_inline(),
        ensures
            r@ == self@,
    {
        proof { use_type_invariant(self); }
        match &self.repr {
            Repr::Short { len, data } => slice_subrange(data.as_slice(), 0, *len as usize),
            Repr::Long { .. } => {
                proof { assert(false); }
                slice_subrange(&[], 0, 0)
            }
        }
    }

    /// The bytes of a heap-backed value.
    fn get_long_slice(&self) -> (r: &[u8])
        requires
            !self.spec_is_inline(),
        ensures
            r@ == self@,
    {
        proof { use_type_invariant(self); }
        match &self.repr {
            Repr::Long { len, heap, start, .. } => {
                let from = *start as usize;
                slice_subrange(heap.as_slice(), from, from + *len as usize)
            },
            Repr::Short { .. } => {
                proof { assert(false); }
                slice_subrange(&[], 0, 0)
            }
        }
    }

    /// The bytes of the value.
    pub fn as_slice(&self) -> (r: &[u8])
        ensures
            r@ == self@,
    {
        if self.is_inline() {
            self.get_short_slice()
        } else {
            self.get_long_slice()
        }
    }

    /// The first `min(PREFIX_SIZE, len)` bytes, read from the cached prefix
    /// (or the inline payload) without touching the shared buffer.
    pub fn prefix(&self) -> (r: &[u8])
        ensures
            r@ == head(self@, PREFIX_SIZE as int),
    {
        proof { use_type_invariant(self); }
        let len = self.len();
        let n: usize = if len < PREFIX_SIZE { len } else { PREFIX_SIZE };
        match &self.repr {
            Repr::Short { data, .. } => {
                let r = slice_subrange(data.as_slice(), 0, n);
                assert(r@ =~= head(self@, PREFIX_SIZE as int));
                r
            },
            Repr::Long { prefix, .. } => {
                let r = slice_subrange(prefix.as_slice(), 0, n);
                assert(r@ =~= head(self@, PREFIX_SIZE as int));
                r
            },
        }
    }

    /// Copies `self[begin..end]` into a new value. A result of at most
    /// `INLINE_SIZE` bytes is inline and leaves the buffer alone; a longer one
    /// shares the buffer of `self` and adds one to its count.
    fn slice_bounds(&self, begin: usize, end: usize) -> (r: ByteView)
        requires
            begin <= end <= self@.len(),
        ensures
            r@ == self@.subrange(begin as int, end as int),
    {
        proof { use_type_invariant(self); }
        let new_len: usize = end - begin;
        if new_len <= INLINE_SIZE {
            let src = self.as_slice();
            Self::short_from(src, begin, end)
        } else {
            match &self.repr {
                Repr::Long { heap, start, .. } => {
                    let heap = heap.clone();
                    let s: usize = *start as usize + begin;
                    let prefix = [heap[s], heap[s + 1], heap[s + 2], heap[s + 3]];
                    let r = ByteView {
                        repr: Repr::Long { len: new_len as u32, prefix, heap, start: s as u32 },
                    };
                    assert(r@ =~= self@.subrange(begin as int, end as int));
                    r
                },
                Repr::Short { .. } => {
                    proof { assert(false); }
                    ByteView::default()
                },
            }
        }
    }

    /// A new value holding the bytes in `range`, sharing the buffer of `self`
    /// when the result is too long to be inline.
    pub fn slice<R: ByteRange>(&self, range: R) -> (r: ByteView)
        requires
            0 <= range.spec_begin() <= range.spec_end(self@.len() as int) <= self@.len(),
        ensures
            r@ == self@.subrange(range.spec_begin(), range.spec_end(self@.len() as int)),
    {
        let (begin, end) = range.bounds(self.len());
        self.slice_bounds(begin, end)
    }

    /// A copy of the bytes with a buffer of its own.
    pub fn to_detached(&self) -> (r: ByteView)
        ensures
            r@ == self@,
    {
        proof { use_type_invariant(self); }
        Self::new(self.as_slice())
    }

    /// The number of values sharing the buffer; 1 for an inline value.
    pub fn ref_count(&self) -> (r: u64)
        ensures
            self.spec_is_inline() ==> r == 1,
            r >= 1,
    {
        proof { use_type_invariant(self); }
        match &self.repr {
            Repr::Short { .. } => 1,
            Repr::Long { heap, .. } => strong_count(heap) as u64,
        }
    }

    /// The length and the first `PREFIX_SIZE` payload bytes (zero past the
    /// length) as one word: equal values have equal words.
    fn head_word(&self) -> (r: u64)
        ensures
            self@.len() <= MAX_LEN,
            r == word_of(
                self@.len() as u32,
                head_byte(self@, 0),
                head_byte(self@, 1),
                head_byte(self@, 2),
                head_byte(self@, 3),
            ),
    {
        proof { use_type_invariant(self); }
        let len = self.len() as u32;
        let h: [u8; PREFIX_SIZE] = match &self.repr {
            Repr::Short { data, .. } => [data[0], data[1], data[2], data[3]],
            Repr::Long { prefix, .. } => *prefix,
        };
        let r = word_of_exec(len, h[0], h[1], h[2], h[3]);
        assert(head_byte(self@, 0) == h[0]);
        assert(head_byte(self@, 1) == h[1]);
        assert(head_byte(self@, 2) == h[2]);
        assert(head_byte(self@, 3) == h[3]);
        r
    }

    /// Lexicographic comparison of the bytes, deciding on the cached prefixes
    /// where they differ.
    pub fn cmp(&self, other: &ByteView) -> (r: Ordering)
        ensures
            r == lex_cmp(self@, other@),
    {
        let pa = self.prefix();
        let pb = other.prefix();
        proof {
            assert(pa@.subrange(0, 0) =~= pb@.subrange(0, 0));
        }
        let o = compare_from(pa, pb, 0);
        match o {
            Ordering::Equal => {},
            _ => {
                proof { crate::order::lemma_lex_cmp_head(self@, other@, PREFIX_SIZE as int); }
                return o;
            },
        }
        proof {
            crate::order::lemma_lex_cmp_equal(pa@, pb@);
        }
        let this_len = self.len();
        let other_len = other.len();
        if this_len <= PREFIX_SIZE && other_len <= PREFIX_SIZE {
            proof {
                assert(pa@ == self@ && pb@ == other@);
                crate::order::lemma_lex_cmp_equal(self@, other@);
            }
            if this_len < other_len {
                Ordering::Less
            } else if this_len > other_len {
                Ordering::Greater
            } else {
                Ordering::Equal
            }
        } else {
            proof {
                assert(this_len >= PREFIX_SIZE && other_len >= PREFIX_SIZE);
                assert(self@.subrange(0, PREFIX_SIZE as int) == pa@);
                assert(other@.subrange(0, PREFIX_SIZE as int) == pb@);
            }
            if self.is_inline() && other.is_inline() {
                compare_from(self.get_short_slice(), other.get_short_slice(), PREFIX_SIZE)
            } else {
                compare_from(self.as_slice(), other.as_slice(), PREFIX_SIZE)
            }
        }
    }

    /// Whether `needle` is a prefix of the bytes (or equal to them); the cached
    /// prefix rejects most mismatches before the buffer is read.
    pub fn starts_with(&self, needle: &[u8]) -> (r: bool)
        ensures
            r == is_prefix_of(needle@, self@),
    {
        let k: usize = if needle.len() < PREFIX_SIZE { needle.len() } else { PREFIX_SIZE };
        let p = self.prefix();
        if k > p.len() || !same_bytes(p, needle, k) {
            proof {
                if is_prefix_of(needle@, self@) {
                    assert(p@.subrange(0, k as int) =~= needle@.subrange(0, k as int));
                }
            }
            return false;
        }
        if needle.len() > self.len() {
            return false;
        }
        let r = same_bytes(self.as_slice(), needle, needle.len());
        proof {
            assert(needle@.subrange(0, needle@.len() as int) =~= needle@);
        }
        r
    }

    /// Writes `value` at `index`.
    fn set_byte(&mut self, index: usize, value: u8)
        requires
            index < old(self)@.len(),
        ensures
            final(self)@ == old(self)@.update(index as int, value),
    {
        proof { use_type_invariant(&*self); }
        let mut taken = ByteView::default();
        std::mem::swap(self, &mut taken);
        proof { use_type_invariant(&taken); }
        let ByteView { mut repr } = taken;
        repr_set(&mut repr, index, value);
        *self = ByteView { repr };
    }

    /// A handle for writing the bytes in place, given only when no other value
    /// shares the buffer; an inline value always gets one.
    pub fn get_mut(&mut self) -> (r: Option<Mutator<'_>>)
        ensures
            old(self).spec_is_inline() ==> r is Some,
            r matches Some(m) ==> *m.0 == *old(self) && *final(self) == *final(m.0),
            r is None ==> *final(self) == *old(self),
    {
        if self.ref_count() == 1 {
            Some(Mutator(self))
        } else {
            None
        }
    }
}

/// `head_byte(s, i)` is byte `i` of `s`, or zero past its end.
spec fn head_byte(s: Seq<u8>, i: int) -> u8 {
    if i < s.len() {
        s[i]
    } else {
        0
    }
}

/// The length in the low half and four bytes in the high half of a word.
spec fn word_of(len: u32, b0: u8, b1: u8, b2: u8, b3: u8) -> u64 {
    (len as u64) | ((b0 as u64) << 32u64) | ((b1 as u64) << 40u64) | ((b2 as u64) << 48u64) | ((b3 as u64) << 56u64)
}

fn word_of_exec(len: u32, b0: u8, b1: u8, b2: u8, b3: u8) -> (r: u64)
    ensures
        r == word_of(len, b0, b1, b2, b3),
{
    (len as u64) | ((b0 as u64) << 32u64) | ((b1 as u64) << 40u64) | ((b2 as u64) << 48u64) | ((b3 as u64) << 56u64)
}

/// Equal words come from equal lengths and bytes.
proof fn lemma_word_of_injective(
    l: u32, a0: u8, a1: u8, a2: u8, a3: u8,
    m: u32, c0: u8, c1: u8, c2: u8, c3: u8,
)
    requires
        word_of(l, a0, a1, a2, a3) == word_of(m, c0, c1, c2, c3),
    ensures
        l == m && a0 == c0 && a1 == c1 && a2 == c2 && a3 == c3,
{
    assert(((l as u64) | ((a0 as u64) << 32u64) | ((a1 as u64) << 40u64) | ((a2 as u64) << 48u64) | ((a3 as u64) << 56u64))
        == ((m as u64) | ((c0 as u64) << 32u64) | ((c1 as u64) << 40u64) | ((c2 as u64) << 48u64) | ((c3 as u64) << 56u64))
        ==> l == m && a0 == c0 && a1 == c1 && a2 == c2 && a3 == c3) by (bit_vector);
}

/// Relies on `Read::read_exact`: it writes into the buffer in place, so the
/// length stays as it was.
#[verifier::external_body]
fn read_exact<R: std::io::Read>(reader: &mut R, buf: &mut Vec<u8>) -> (r: std::io::Result<()>)
    ensures
        final(buf)@.len() == old(buf)@.len(),
{
    reader.read_exact(buf.as_mut_slice())
}

/// `std::io::Error`, carried through from the reader unchanged.
#[verifier::external_type_specification]
#[verifier::external_body]
pub struct ExIoError(std::io::Error);

/// Relies on `Arc::strong_count`: the number of `Arc`s that share the
/// buffer, the given one included.
#[verifier::external_body]
fn strong_count(a: &Arc<Vec<u8>>) -> (r: usize)
    ensures
        r >= 1,
{
    Arc::strong_count(a)
}

/// Relies on `Arc::make_mut`: a mutable borrow of the contents, which are
/// first cloned into a buffer of their own when other `Arc`s share them.
#[verifier::external_body]
fn make_unique(a: &mut Arc<Vec<u8>>) -> (r: &mut Vec<u8>)
    ensures
        *r == **old(a),
        **final(a) == *final(r),
{
    Arc::make_mut(a)
}

impl PartialEq for ByteView {
    /// Compares the length and cached prefix as one word first, then the
    /// bytes.
    fn eq(&self, other: &ByteView) -> (r: bool)
        ensures
            r == (self@ == other@),
    {
        let a = self.head_word();
        let b = other.head_word();
        if a != b {
            return false;
        }
        proof {
            lemma_word_of_injective(
                self@.len() as u32,
                head_byte(self@, 0),
                head_byte(self@, 1),
                head_byte(self@, 2),
                head_byte(self@, 3),
                other@.len() as u32,
                head_byte(other@, 0),
                head_byte(other@, 1),
                head_byte(other@, 2),
                head_byte(other@, 3),
            );
        }
        let n = self.len();
        let r = if self.is_inline() {
            same_bytes(self.get_short_slice(), other.get_short_slice(), n)
        } else {
            same_bytes(self.get_long_slice(), other.get_long_slice(), n)
        };
        proof {
            assert(self@.subrange(0, n as int) =~= self@);
            assert(other@.subrange(0, n as int) =~= other@);
        }
        r
    }
}

impl vstd::std_specs::cmp::PartialEqSpecImpl for ByteView {
    open spec fn obeys_eq_spec() -> bool {
        true
    }

    open spec fn eq_spec(&self, other: &ByteView) -> bool {
        self@ == other@
    }
}

impl Eq for ByteView {}

impl PartialOrd for ByteView {
    fn partial_cmp(&self, other: &ByteView) -> (r: Option<Ordering>)
        ensures
            r == Some(lex_cmp(self@, other@)),
    {
        Some(self.cmp(other))
    }
}

impl vstd::std_specs::cmp::PartialOrdSpecImpl for ByteView {
    open spec fn obeys_partial_cmp_spec() -> bool {
        true
    }

    open spec fn partial_cmp_spec(&self, other: &ByteView) -> Option<Ordering> {
        Some(lex_cmp(self@, other@))
    }
}

impl Clone for ByteView {
    /// Shares the buffer of a long value, copies an inline one.
    fn clone(&self) -> (r: ByteView)
        ensures
            r@ == self@,
    {
        self.slice(..)
    }
}

impl std::hash::Hash for ByteView {
    fn hash<H: std::hash::Hasher>(&self, state: &mut H) {
        hash_bytes(self.as_slice(), state);
    }
}

/// Relies on `Hash` for `[u8]`: feeds the bytes (and their length) to the
/// hasher, so equal values hash alike. Nothing about the hasher's state is
/// claimed.
#[verifier::external_body]
fn hash_bytes<H: std::hash::Hasher>(b: &[u8], state: &mut H) {
    std::hash::Hash::hash(b, state)
}

impl std::ops::Deref for ByteView {
    type Target = [u8];

    fn deref(&self) -> &[u8] {
        self.as_slice()
    }
}

/// Scoped write access to the bytes of a [`ByteView`], handed out by
/// [`ByteView::get_mut`]. Every write keeps the cached prefix in step, so the
/// value is coherent again as soon as the handle is dropped.
///
/// The field is public so that contracts can follow the borrowed value; the
/// bytes themselves change only through [`Mutator::set`].
pub struct Mutator<'a>(pub &'a mut ByteView);

impl<'a> Mutator<'a> {
    /// Writes `value` at `index`.
    pub fn set(&mut self, index: usize, value: u8)
        requires
            index < old(self).0@.len(),
        ensures
            final(self).0@ == old(self).0@.update(index as int, value),
            *final(final(self).0) == *final(old(self).0),
    {
        self.0.set_byte(index, value);
    }
}

/// A range of byte positions, as taken by [`ByteView::slice`].
pub trait ByteRange {
    /// The first position in the range.
    spec fn spec_begin(&self) -> int;

    /// One past the last position in the range, for a value of `len` bytes.
    spec fn spec_end(&self, len: int) -> int;

    /// The two positions, for a range that lies within `len` bytes.
    fn bounds(&self, len: usize) -> (r: (usize, usize))
        requires
            0 <= self.spec_begin() <= self.spec_end(len as int) <= len,
        ensures
            r.0 == self.spec_begin(),
            r.1 == self.spec_end(len as int),
    ;
}

impl ByteRange for Range<usize> {
    open spec fn spec_begin(&self) -> int {
        self.start as int
    }

    open spec fn spec_end(&self, len: int) -> int {
        self.end as int
    }

    fn bounds(&self, len: usize) -> (r: (usize, usize)) {
        (self.start, self.end)
    }
}

impl ByteRange for RangeFrom<usize> {
    open spec fn spec_begin(&self) -> int {
        self.start as int
    }

    open spec fn spec_end(&self, len: int) -> int {
        len
    }

    fn bounds(&self, len: usize) -> (r: (usize, usize)) {
        (self.start, len)
    }
}

impl ByteRange for RangeTo<usize> {
    open spec fn spec_begin(&self) -> int {
        0
    }

    open spec fn spec_end(&self, len: int) -> int {
        self.end as int
    }

    fn bounds(&self, len: usize) -> (r: (usize, usize)) {
        (0, self.end)
    }
}

impl ByteRange for RangeFull {
    open spec fn spec_begin(&self) -> int {
        0
    }

    open spec fn spec_end(&self, len: int) -> int {
        len
    }

    fn bounds(&self, len: usize) -> (r: (usize, usize)) {
        (0, len)
    }
}

impl ByteRange for RangeToInclusive<usize> {
    open spec fn spec_begin(&self) -> int {
        0
    }

    open spec fn spec_end(&self, len: int) -> int {
        self.end + 1
    }

    fn bounds(&self, len: usize) -> (r: (usize, usize)) {
        (0, self.end + 1)
    }
}

impl ByteRange for RangeInclusive<usize> {
    open spec fn spec_begin(&self) -> int {
        self@.start as int
    }

    open spec fn spec_end(&self, len: int) -> int {
        if self@.exhausted {
            self@.end as int
        } else {
            self@.end + 1
        }
    }

    fn bounds(&self, len: usize) -> (r: (usize, usize)) {
        let begin = inclusive_start(self);
        let (end, included) = inclusive_end(self);
        if included {
            (begin, end + 1)
        } else {
            (begin, end)
        }
    }
}

/// Relies on `RangeInclusive::start`: the lower bound of the range.
#[verifier::external_body]
fn inclusive_start(r: &RangeInclusive<usize>) -> (s: usize)
    ensures
        s == r@.start,
{
    *r.start()
}

/// Relies on `RangeBounds::end_bound` of `RangeInclusive`: the upper bound,
/// included unless iteration has exhausted the range.
#[verifier::external_body]
fn inclusive_end(r: &RangeInclusive<usize>) -> (e: (usize, bool))
    ensures
        e.0 == r@.end,
        e.1 == !r@.exhausted,
{
    match std::ops::RangeBounds::end_bound(r) {
        std::ops::Bound::Included(n) => (*n, true),
        std::ops::Bound::Excluded(n) => (*n, false),
        std::ops::Bound::Unbounded => (*r.end(), false),
    }
}

/// `std::ops::RangeFrom`, read through its public `start` field.
#[verifier::external_type_specification]
#[verifier::reject_recursive_types(Idx)]
pub struct ExRangeFrom<Idx>(RangeFrom<Idx>);

/// `std::ops::RangeTo`, read through its public `end` field.
#[verifier::external_type_specification]
#[verifier::reject_recursive_types(Idx)]
pub struct ExRangeTo<Idx>(RangeTo<Idx>);

/// `std::ops::RangeToInclusive`, read through its public `end` field.
#[verifier::external_type_specification]
#[verifier::reject_recursive_types(Idx)]
pub struct ExRangeToInclusive<Idx>(RangeToInclusive<Idx>);

/// `std::ops::RangeFull`, which has no fields.
#[verifier::external_type_specification]
pub struct ExRangeFull(RangeFull);


impl Default for ByteView {
    fn default() -> (r: ByteView)
        ensures
            r@ == Seq::<u8>::empty(),
    {
        let r = ByteView { repr: Repr::Short { len: 0, data: [0u8; INLINE_SIZE] } };
        assert(r@ =~= Seq::<u8>::empty());
        r
    }
}

} // verus!
