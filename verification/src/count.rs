//! The dispatcher: choosing a plane, splitting the buffer and adding up.

use vstd::prelude::*;
use vstd::string::StringSliceAdditionalSpecFns;
use vstd::utf8::{decode_utf8, valid_utf8};
use crate::lead::{count_leads, count_u8, lemma_count_leads_bound, lemma_count_leads_concat};
use crate::pack::{pack_u32, pack_u64};
use crate::split::{split_regions, start_address};
use crate::text::{lemma_count_leads_is_char_count, lemma_count_leads_of_encoding};
use crate::vector::pack_256;
use crate::vector_plane::count_256;
use crate::word::{count_u32, count_u64};

verus! {

/// A way of counting the middle of a buffer, by the width of its unit.
#[derive(Clone, Copy, Debug, PartialEq, Eq, Structural)]
pub enum Plane {
    /// One byte at a time.
    Byte,
    /// Four bytes at a time in a 32-bit word.
    Word32,
    /// Eight bytes at a time in a 64-bit word.
    Word64,
    /// Thirty-two bytes at a time in a 256-bit vector.
    Vector,
}

/// The shortest buffer that is handed to the vector plane.
pub const VECTOR_MIN: usize = 320;

/// The shortest buffer that is handed to the 64-bit word plane.
pub const WORD64_MIN: usize = 15;

/// The shortest buffer that is handed to the 32-bit word plane.
pub const WORD32_MIN: usize = 11;

impl Plane {
    /// The number of bytes in one unit of the plane.
    pub open spec fn spec_unit(self) -> nat {
        match self {
            Plane::Byte => 1,
            Plane::Word32 => 4,
            Plane::Word64 => 8,
            Plane::Vector => 32,
        }
    }

    /// The number of bytes in one unit of the plane.
    pub fn unit(self) -> (unit: usize)
        ensures
            unit == self.spec_unit(),
    {
        match self {
            Plane::Byte => 1,
            Plane::Word32 => 4,
            Plane::Word64 => 8,
            Plane::Vector => 32,
        }
    }
}

/// The plane for a buffer of `len` bytes: the widest whose threshold `len`
/// reaches, the vector plane only where `vector_ok` allows it.
pub open spec fn spec_select_plane(len: nat, vector_ok: bool) -> Plane {
    if vector_ok && len >= VECTOR_MIN {
        Plane::Vector
    } else if len >= WORD64_MIN {
        Plane::Word64
    } else if len >= WORD32_MIN {
        Plane::Word32
    } else {
        Plane::Byte
    }
}

/// Chooses the plane for a buffer of `len` bytes. A plane wider than a
/// byte is chosen only for a buffer that holds a whole unit of it wherever
/// it starts.
pub fn select_plane(len: usize, vector_ok: bool) -> (plane: Plane)
    ensures
        plane == spec_select_plane(len as nat, vector_ok),
        plane != Plane::Byte ==> len >= 2 * plane.spec_unit() - 1,
        plane == Plane::Vector ==> vector_ok,
{
    if vector_ok && len >= VECTOR_MIN {
        Plane::Vector
    } else if len >= WORD64_MIN {
        Plane::Word64
    } else if len >= WORD32_MIN {
        Plane::Word32
    } else {
        Plane::Byte
    }
}

/// Whether the vector plane is to be used, given whether the program runs
/// on x86-64 and whether the processor has AVX2.
pub fn use_avx2(x86_64: bool, avx2: bool) -> (vector_ok: bool)
    ensures
        vector_ok == (x86_64 && avx2),
{
    x86_64 && avx2
}

/// Counts the leading bytes of the whole units in `middle` on `plane`.
pub fn count_middle(middle: &[u8], plane: Plane) -> (count: usize)
    requires
        middle@.len() % plane.spec_unit() == 0,
    ensures
        count == count_leads(middle@),
{
    match plane {
        Plane::Byte => count_u8(middle),
        Plane::Word32 => {
            let words = pack_u32(middle);
            count_u32(words.as_slice())
        },
        Plane::Word64 => {
            let words = pack_u64(middle);
            count_u64(words.as_slice())
        },
        Plane::Vector => {
            let vectors = pack_256(middle);
            count_256(vectors.as_slice())
        },
    }
}

/// Counts the leading bytes of `slice`, which starts at `address`: the
/// whole units of `plane` on that plane, the bytes before and after them
/// one by one.
pub fn count_on_plane(slice: &[u8], plane: Plane, address: usize) -> (count: usize)
    ensures
        count == count_leads(slice@),
{
    let len: usize = slice.len();
    let parts = split_regions(slice, address, plane.unit());
    let mid_count: usize = count_middle(parts.middle, plane);
    let pre_count: usize = count_u8(parts.prefix);
    let suf_count: usize = count_u8(parts.suffix);
    proof {
        lemma_count_leads_concat(parts.prefix@, parts.middle@);
        lemma_count_leads_concat(parts.prefix@ + parts.middle@, parts.suffix@);
        lemma_count_leads_bound(parts.prefix@);
        lemma_count_leads_bound(parts.middle@);
        lemma_count_leads_bound(parts.suffix@);
        assert((parts.prefix@ + parts.middle@ + parts.suffix@).len() == len);
    }
    pre_count + suf_count + mid_count
}

/// What the counting entry points return for the bytes `s`: one for a
/// single byte, whatever it is, and else the number of bytes that are not
/// continuation bytes.
pub open spec fn spec_chars_count(s: Seq<u8>) -> nat {
    if s.len() == 1 {
        1
    } else {
        count_leads(s)
    }
}

/// In well-formed UTF-8 the count is the number of characters.
pub proof fn lemma_chars_count_utf8(s: Seq<u8>)
    requires
        valid_utf8(s),
    ensures
        spec_chars_count(s) == decode_utf8(s).len(),
{
    lemma_count_leads_is_char_count(s);
    if s.len() == 1 {
        crate::text::lemma_single_byte(s);
    }
}

/// Counts the characters of the UTF-8 text in `slice`, with the vector
/// plane where `vector_ok` allows it and the buffer is long enough.
pub fn chars_count_with(slice: &[u8], vector_ok: bool) -> (count: usize)
    ensures
        count == spec_chars_count(slice@),
        valid_utf8(slice@) ==> count == decode_utf8(slice@).len(),
{
    proof {
        if valid_utf8(slice@) {
            lemma_chars_count_utf8(slice@);
        }
    }
    let len: usize = slice.len();
    if len == 0 {
        return 0;
    }
    if len == 1 {
        return 1;
    }
    let plane = select_plane(len, vector_ok);
    match plane {
        Plane::Byte => count_u8(slice),
        _ => count_on_plane(slice, plane, start_address(slice)),
    }
}

/// Counts the characters of the UTF-8 text in `slice`.
pub fn chars_count_byte(slice: &[u8]) -> (count: usize)
    ensures
        count == spec_chars_count(slice@),
        valid_utf8(slice@) ==> count == decode_utf8(slice@).len(),
{
    chars_count_with(slice, false)
}

/// Counts the characters of `s`.
pub fn chars_count_str(s: &str) -> (count: usize)
    ensures
        count == s@.len(),
{
    proof {
        lemma_count_leads_of_encoding(s@);
        vstd::utf8::encode_utf8_valid_utf8(s@);
        vstd::utf8::encode_utf8_decode_utf8(s@);
    }
    chars_count_byte(s.as_bytes())
}

/// Counting the characters of a text as a method.
pub trait CharsCount {
    /// The number of characters.
    spec fn spec_chars(&self) -> nat;

    /// Counts the characters.
    fn chars_count(&self) -> (count: usize)
        ensures
            count == self.spec_chars(),
    ;
}

impl CharsCount for str {
    /// The length of the text in characters.
    open spec fn spec_chars(&self) -> nat {
        self@.len()
    }

    /// Counts the characters of the text.
    fn chars_count(&self) -> (count: usize) {
        chars_count_str(self)
    }
}

} // verus!
