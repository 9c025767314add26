//! Counting the characters of UTF-8 text without decoding it.
//!
//! A UTF-8 string holds one character for every byte that is not a
//! continuation byte, so it is enough to classify bytes. The crate does this
//! one byte at a time, several bytes at a time inside a machine word, and
//! thirty-two bytes at a time inside a 256-bit vector, and proves that all
//! three agree with decoding the text.

pub mod count;
pub mod laws;
pub mod lead;
pub mod pack;
pub mod reduce;
pub mod split;
pub mod text;
pub mod vector;
pub mod vector_plane;
pub mod word;

pub use count::{chars_count_byte, chars_count_str, chars_count_with, use_avx2, CharsCount, Plane};
pub use lead::count_u8;
pub use reduce::{avx2_horizontal_sum_epi8, _MM_SHUFFLE};
pub use vector::Vector256;
pub use vector_plane::count_256;
pub use word::{count_u128, count_u32, count_u64, count_usize};
