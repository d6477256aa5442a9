//! An immutable byte string that keeps short payloads inline and shares long
//! ones between clones and sub-slices through a reference-counted buffer.

mod byteview;
pub mod laws;
mod order;
mod strview;

pub use byteview::{ByteRange, ByteView, Mutator, INLINE_SIZE, MAX_LEN, PREFIX_SIZE};
pub use order::{flip, head, is_prefix_of, lex_cmp};
pub use strview::StrView;
