//! The text flavour of [`ByteView`]: the same value, holding valid UTF-8.

use std::cmp::Ordering;
use vstd::prelude::*;
use vstd::string::StringSliceAdditionalSpecFns;
use vstd::utf8::{
    decode_utf8, encode_utf8_decode_utf8, encode_utf8_valid_utf8, is_char_boundary,
    is_char_boundary_iff_not_is_continuation_byte, is_char_boundary_start_end_of_seq, valid_utf8,
    valid_utf8_split,
};

use crate::byteview::{ByteRange, ByteView, MAX_LEN};
use crate::order::{is_prefix_of, lex_cmp};

verus! {

/// An immutable UTF-8 string with the storage of [`ByteView`]: inline when
/// short, a shared buffer otherwise.
#[derive(Debug)]
pub struct StrView(ByteView);

impl View for StrView {
    type V = Seq<char>;

    /// The characters of the string.
    closed spec fn view(&self) -> Seq<char> {
        decode_utf8(self.0@)
    }
}

/// `bytes[begin..end]` of valid UTF-8 cut at character boundaries is valid
/// UTF-8.
proof fn lemma_valid_window(bytes: Seq<u8>, begin: int, end: int)
    requires
        valid_utf8(bytes),
        0 <= begin <= end <= bytes.len(),
        is_char_boundary(bytes, begin),
        is_char_boundary(bytes, end),
    ensures
        valid_utf8(bytes.subrange(begin, end)),
{
    valid_utf8_split(bytes, begin);
    let tail = bytes.subrange(begin, bytes.len() as int);
    let k = end - begin;
    if end == bytes.len() {
        is_char_boundary_start_end_of_seq(tail);
        assert(tail.len() == k);
    } else {
        is_char_boundary_iff_not_is_continuation_byte(bytes, end);
        is_char_boundary_iff_not_is_continuation_byte(tail, k);
        assert(tail[k] == bytes[end]);
    }
    valid_utf8_split(tail, k);
    assert(tail.subrange(0, k) =~= bytes.subrange(begin, end));
}

impl StrView {
    #[verifier::type_invariant]
    closed spec fn well_formed(self) -> bool {
        valid_utf8(self.0@)
    }

    /// The UTF-8 bytes of the string.
    pub closed spec fn bytes(&self) -> Seq<u8> {
        self.0@
    }

    /// Creates a string holding a copy of `s`.
    pub fn new(s: &str) -> (r: StrView)
        requires
            s.spec_bytes().len() <= MAX_LEN,
        ensures
            r.bytes() == s.spec_bytes(),
            r@ == s@,
    {
        let b = s.as_bytes();
        proof {
            encode_utf8_valid_utf8(s@);
            encode_utf8_decode_utf8(s@);
        }
        StrView(ByteView::new(b))
    }

    /// The string as text.
    pub fn as_str(&self) -> (r: &str)
        ensures
            r.spec_bytes() == self.bytes(),
            r@ == self@,
    {
        proof { use_type_invariant(self); }
        match str_from_utf8(self.0.as_slice()) {
            Ok(s) => {
                proof { encode_utf8_decode_utf8(s@); }
                s
            },
            Err(_) => {
                proof { assert(false); }
                ""
            },
        }
    }

    /// A copy of the text as a `String`.
    pub fn to_owned(&self) -> (r: String)
        ensures
            r@ == self@,
    {
        self.as_str().to_owned()
    }

    /// A copy of the string with a buffer of its own.
    pub fn to_detached(&self) -> (r: StrView)
        ensures
            r.bytes() == self.bytes(),
            r@ == self@,
    {
        proof { use_type_invariant(self); }
        StrView(self.0.to_detached())
    }

    /// A new string holding the bytes in `range`, which must start and end on
    /// character boundaries.
    pub fn slice<R: ByteRange>(&self, range: R) -> (r: StrView)
        requires
            0 <= range.spec_begin() <= range.spec_end(self.bytes().len() as int) <= self.bytes().len(),
            is_char_boundary(self.bytes(), range.spec_begin()),
            is_char_boundary(self.bytes(), range.spec_end(self.bytes().len() as int)),
        ensures
            r.bytes() == self.bytes().subrange(
                range.spec_begin(),
                range.spec_end(self.bytes().len() as int),
            ),
    {
        proof {
            use_type_invariant(self);
            lemma_valid_window(
                self.0@,
                range.spec_begin(),
                range.spec_end(self.bytes().len() as int),
            );
        }
        StrView(self.0.slice(range))
    }

    /// Whether the string is empty.
    pub fn is_empty(&self) -> (r: bool)
        ensures
            r == (self.bytes().len() == 0),
    {
        self.0.is_empty()
    }

    /// The number of bytes.
    pub fn len(&self) -> (r: usize)
        ensures
            r == self.bytes().len(),
    {
        self.0.len()
    }

    /// Whether `needle` is a prefix of the string (or equal to it).
    pub fn starts_with(&self, needle: &str) -> (r: bool)
        ensures
            r == is_prefix_of(needle.spec_bytes(), self.bytes()),
    {
        self.0.starts_with(needle.as_bytes())
    }

    /// Lexicographic comparison of the bytes.
    pub fn cmp(&self, other: &StrView) -> (r: Ordering)
        ensures
            r == lex_cmp(self.bytes(), other.bytes()),
    {
        self.0.cmp(&other.0)
    }

    /// The underlying byte string.
    pub fn into_bytes(self) -> (r: ByteView)
        ensures
            r@ == self.bytes(),
    {
        self.0
    }
}

/// Relies on `std::str::from_utf8`: valid UTF-8 is accepted, and the text it
/// returns has exactly the given bytes.
#[verifier::external_body]
fn str_from_utf8(b: &[u8]) -> (r: Result<&str, std::str::Utf8Error>)
    ensures
        valid_utf8(b@) ==> r is Ok,
        r matches Ok(s) ==> s.spec_bytes() == b@,
{
    std::str::from_utf8(b)
}

/// `std::str::Utf8Error`, handed back by `try_from` unchanged.
#[verifier::external_type_specification]
#[verifier::external_body]
pub struct ExUtf8Error(std::str::Utf8Error);

impl Clone for StrView {
    fn clone(&self) -> (r: StrView)
        ensures
            r.bytes() == self.bytes(),
    {
        proof { use_type_invariant(self); }
        StrView(self.0.clone())
    }
}

impl Default for StrView {
    fn default() -> (r: StrView)
        ensures
            r.bytes() == Seq::<u8>::empty(),
    {
        let b = ByteView::default();
        proof {
            encode_utf8_valid_utf8(Seq::<char>::empty());
            assert(vstd::utf8::encode_utf8(Seq::<char>::empty()) =~= Seq::<u8>::empty());
        }
        StrView(b)
    }
}

impl PartialEq for StrView {
    fn eq(&self, other: &StrView) -> (r: bool)
        ensures
            r == (self.bytes() == other.bytes()),
    {
        self.0 == other.0
    }
}

impl vstd::std_specs::cmp::PartialEqSpecImpl for StrView {
    open spec fn obeys_eq_spec() -> bool {
        true
    }

    open spec fn eq_spec(&self, other: &StrView) -> bool {
        self.bytes() == other.bytes()
    }
}

impl Eq for StrView {}

impl PartialOrd for StrView {
    fn partial_cmp(&self, other: &StrView) -> (r: Option<Ordering>)
        ensures
            r == Some(lex_cmp(self.bytes(), other.bytes())),
    {
        Some(self.cmp(other))
    }
}

impl vstd::std_specs::cmp::PartialOrdSpecImpl for StrView {
    open spec fn obeys_partial_cmp_spec() -> bool {
        true
    }

    open spec fn partial_cmp_spec(&self, other: &StrView) -> Option<Ordering> {
        Some(lex_cmp(self.bytes(), other.bytes()))
    }
}

impl TryFrom<ByteView> for StrView {
    type Error = std::str::Utf8Error;

    /// Accepts the bytes when they are valid UTF-8.
    fn try_from(value: ByteView) -> (r: Result<StrView, std::str::Utf8Error>)
        ensures
            valid_utf8(value@) ==> r is Ok,
            r matches Ok(t) ==> t.bytes() == value@,
    {
        let checked: Result<(), std::str::Utf8Error> = match str_from_utf8(value.as_slice()) {
            Ok(s) => {
                proof { encode_utf8_valid_utf8(s@); }
                Ok(())
            },
            Err(e) => Err(e),
        };
        match checked {
            Ok(()) => Ok(StrView(value)),
            Err(e) => Err(e),
        }
    }
}

impl vstd::std_specs::convert::TryFromSpecImpl<ByteView> for StrView {
    /// The error value that `from_utf8` reports is not modelled, so the
    /// result is described by the `ensures` of `try_from` alone.
    open spec fn obeys_try_from_spec() -> bool {
        false
    }

    open spec fn try_from_spec(v: ByteView) -> Result<StrView, std::str::Utf8Error> {
        arbitrary()
    }
}

impl std::ops::Deref for StrView {
    type Target = str;

    fn deref(&self) -> &str {
        self.as_str()
    }
}

} // verus!
