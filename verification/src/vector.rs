//! A 256-bit vector and the operations on it that counting needs.
//!
//! The vector is held as its thirty-two bytes, and each operation is defined
//! lane by lane, as the AVX2 instruction of the same name is.

use vstd::prelude::*;
use crate::lead::{is_lead, lemma_lead_range};
use crate::pack::{bytes_word, load_u64};

verus! {

/// A 256-bit vector, as its bytes from the least significant up.
#[derive(Clone, Copy)]
pub struct Vector256 {
    pub bytes: [u8; 32],
}

impl View for Vector256 {
    type V = Seq<u8>;

    open spec fn view(&self) -> Seq<u8> {
        self.bytes@
    }
}

/// The value of a byte lane read as a signed integer.
pub open spec fn signed(b: u8) -> int {
    if b < 0x80 {
        b as int
    } else {
        b - 0x100
    }
}

/// The byte that all lanes of the comparison threshold hold: -0x41 as a
/// signed lane.
pub const THRESHOLD: u8 = 0xBF;

/// The signed comparison against -0x41 is the mask test on the two high bits.
pub proof fn lemma_signed_test(b: u8)
    ensures
        signed(b) > -0x41 <==> is_lead(b),
        signed(b) == (b as i8),
        signed(THRESHOLD) == -0x41,
{
    lemma_lead_range(b);
    assert(b < 0x80 ==> (b as i8) == b) by (bit_vector);
    assert(b >= 0x80 ==> (b as i8) == b - 0x100) by (bit_vector);
}

/// The lanes of a vector that holds `b` in each.
pub open spec fn splat(b: u8) -> Seq<u8> {
    Seq::new(32, |i: int| b)
}

/// Lane-wise signed greater-than: 0xFF where `a` exceeds `b`, else 0.
pub open spec fn spec_gt_epi8(a: Seq<u8>, b: Seq<u8>) -> Seq<u8> {
    Seq::new(
        32,
        |i: int|
            if signed(a[i]) > signed(b[i]) {
                0xFFu8
            } else {
                0u8
            },
    )
}

/// Lane-wise wrapping subtraction of bytes.
pub open spec fn spec_sub_epi8(a: Seq<u8>, b: Seq<u8>) -> Seq<u8> {
    Seq::new(32, |i: int| ((a[i] - b[i]) % 0x100) as u8)
}

impl Vector256 {
    /// The vector of thirty-two zero bytes.
    pub fn zero() -> (v: Vector256)
        ensures
            v@ == splat(0),
    {
        let v = Vector256 { bytes: [0u8; 32] };
        proof {
            assert(v@ =~= splat(0));
        }
        v
    }

    /// The vector whose lanes all hold `b`.
    pub fn splat(b: u8) -> (v: Vector256)
        ensures
            v@ == splat(b),
    {
        let v = Vector256 { bytes: [b; 32] };
        proof {
            assert(v@ =~= splat(b));
        }
        v
    }
}

/// Whether a signed lane `a` is greater than a signed lane `b`.
pub fn signed_gt(a: u8, b: u8) -> (r: bool)
    ensures
        r == (signed(a) > signed(b)),
{
    if a < 0x80 {
        b >= 0x80 || a > b
    } else {
        b >= 0x80 && a > b
    }
}

/// Compares the signed byte lanes of `a` and `b` for greater-than.
pub fn gt_epi8(a: &Vector256, b: &Vector256) -> (r: Vector256)
    ensures
        r@ == spec_gt_epi8(a@, b@),
{
    let mut out = [0u8; 32];
    let mut i: usize = 0;
    while i < 32
        invariant
            i <= 32,
            forall|j: int| 0 <= j < i ==> out@[j] == spec_gt_epi8(a@, b@)[j],
            forall|j: int| i <= j < 32 ==> out@[j] == 0,
        decreases 32 - i,
    {
        if signed_gt(a.bytes[i], b.bytes[i]) {
            out[i] = 0xFF;
        }
        i += 1;
    }
    let r = Vector256 { bytes: out };
    proof {
        assert(r@ =~= spec_gt_epi8(a@, b@));
    }
    r
}

/// Subtracts the byte lanes of `b` from those of `a`, wrapping around.
pub fn sub_epi8(a: &Vector256, b: &Vector256) -> (r: Vector256)
    ensures
        r@ == spec_sub_epi8(a@, b@),
{
    let mut out = [0u8; 32];
    let mut i: usize = 0;
    while i < 32
        invariant
            i <= 32,
            forall|j: int| 0 <= j < i ==> out@[j] == spec_sub_epi8(a@, b@)[j],
        decreases 32 - i,
    {
        out[i] = a.bytes[i].wrapping_sub(b.bytes[i]);
        i += 1;
    }
    let r = Vector256 { bytes: out };
    proof {
        assert(r@ =~= spec_sub_epi8(a@, b@));
    }
    r
}

/// The source lane that feeds lane `i` of a byte interleave: the lanes of
/// each 128-bit half are taken in pairs, from its low eight bytes or, with
/// `high`, from its high eight.
pub open spec fn unpack_source(i: int, high: bool) -> int {
    (i / 16) * 16 + (i % 16) / 2 + if high {
        8int
    } else {
        0int
    }
}

/// Interleaves the low eight bytes of each 128-bit half of `a` and `b`.
pub open spec fn spec_unpacklo_epi8(a: Seq<u8>, b: Seq<u8>) -> Seq<u8> {
    Seq::new(
        32,
        |i: int|
            if i % 2 == 0 {
                a[unpack_source(i, false)]
            } else {
                b[unpack_source(i, false)]
            },
    )
}

/// Interleaves the high eight bytes of each 128-bit half of `a` and `b`.
pub open spec fn spec_unpackhi_epi8(a: Seq<u8>, b: Seq<u8>) -> Seq<u8> {
    Seq::new(
        32,
        |i: int|
            if i % 2 == 0 {
                a[unpack_source(i, true)]
            } else {
                b[unpack_source(i, true)]
            },
    )
}

/// The value of the 16-bit lane `j` of `v`.
pub open spec fn lane16(v: Seq<u8>, j: int) -> int {
    v[2 * j] + 0x100 * v[2 * j + 1]
}

/// Lane-wise wrapping addition of 16-bit lanes.
pub open spec fn spec_add_epi16(a: Seq<u8>, b: Seq<u8>) -> Seq<u8> {
    Seq::new(
        32,
        |i: int|
            {
                let sum = (lane16(a, i / 2) + lane16(b, i / 2)) % 0x10000;
                if i % 2 == 0 {
                    (sum % 0x100) as u8
                } else {
                    (sum / 0x100) as u8
                }
            },
    )
}

/// The 128-bit half that the four control bits `control` select from `a` and
/// `b`: bit 3 clears it, the two low bits pick low or high half of `a`, then
/// of `b`.
pub open spec fn select_half(a: Seq<u8>, b: Seq<u8>, control: int) -> Seq<u8> {
    if (control / 8) % 2 == 1 {
        Seq::new(16, |i: int| 0u8)
    } else if control % 4 == 0 {
        a.subrange(0, 16)
    } else if control % 4 == 1 {
        a.subrange(16, 32)
    } else if control % 4 == 2 {
        b.subrange(0, 16)
    } else {
        b.subrange(16, 32)
    }
}

/// Builds a vector from two selected 128-bit halves of `a` and `b`.
pub open spec fn spec_permute2x128(a: Seq<u8>, b: Seq<u8>, imm8: int) -> Seq<u8> {
    select_half(a, b, imm8 % 16) + select_half(a, b, imm8 / 16)
}

/// The two bits of `imm8` that choose the source of 32-bit lane `d`.
pub open spec fn shuffle_choice(imm8: int, d: int) -> int {
    if d == 0 {
        imm8 % 4
    } else if d == 1 {
        (imm8 / 4) % 4
    } else if d == 2 {
        (imm8 / 16) % 4
    } else {
        (imm8 / 64) % 4
    }
}

/// Rearranges the 32-bit lanes inside each 128-bit half of `a`.
pub open spec fn spec_shuffle_epi32(a: Seq<u8>, imm8: int) -> Seq<u8> {
    Seq::new(
        32,
        |i: int| a[(i / 16) * 16 + 4 * shuffle_choice(imm8, (i % 16) / 4) + i % 4],
    )
}

/// Interleaves the low eight bytes of each 128-bit half of `a` and `b`.
pub fn unpacklo_epi8(a: &Vector256, b: &Vector256) -> (r: Vector256)
    ensures
        r@ == spec_unpacklo_epi8(a@, b@),
{
    let mut out = [0u8; 32];
    let mut i: usize = 0;
    while i < 32
        invariant
            i <= 32,
            forall|j: int| 0 <= j < i ==> out@[j] == spec_unpacklo_epi8(a@, b@)[j],
        decreases 32 - i,
    {
        let from: usize = (i / 16) * 16 + (i % 16) / 2;
        out[i] = if i % 2 == 0 {
            a.bytes[from]
        } else {
            b.bytes[from]
        };
        i += 1;
    }
    let r = Vector256 { bytes: out };
    proof {
        assert(r@ =~= spec_unpacklo_epi8(a@, b@));
    }
    r
}

/// Interleaves the high eight bytes of each 128-bit half of `a` and `b`.
pub fn unpackhi_epi8(a: &Vector256, b: &Vector256) -> (r: Vector256)
    ensures
        r@ == spec_unpackhi_epi8(a@, b@),
{
    let mut out = [0u8; 32];
    let mut i: usize = 0;
    while i < 32
        invariant
            i <= 32,
            forall|j: int| 0 <= j < i ==> out@[j] == spec_unpackhi_epi8(a@, b@)[j],
        decreases 32 - i,
    {
        let from: usize = (i / 16) * 16 + (i % 16) / 2 + 8;
        out[i] = if i % 2 == 0 {
            a.bytes[from]
        } else {
            b.bytes[from]
        };
        i += 1;
    }
    let r = Vector256 { bytes: out };
    proof {
        assert(r@ =~= spec_unpackhi_epi8(a@, b@));
    }
    r
}

/// Adds the 16-bit lanes of `a` and `b`, wrapping around.
pub fn add_epi16(a: &Vector256, b: &Vector256) -> (r: Vector256)
    ensures
        r@ == spec_add_epi16(a@, b@),
{
    let mut out = [0u8; 32];
    let mut j: usize = 0;
    while j < 16
        invariant
            j <= 16,
            forall|i: int| 0 <= i < 2 * j ==> out@[i] == spec_add_epi16(a@, b@)[i],
        decreases 16 - j,
    {
        let x: u32 = a.bytes[2 * j] as u32 + 0x100 * (a.bytes[2 * j + 1] as u32);
        let y: u32 = b.bytes[2 * j] as u32 + 0x100 * (b.bytes[2 * j + 1] as u32);
        let sum: u32 = (x + y) % 0x10000;
        out[2 * j] = (sum % 0x100) as u8;
        out[2 * j + 1] = (sum / 0x100) as u8;
        j += 1;
    }
    let r = Vector256 { bytes: out };
    proof {
        assert(r@ =~= spec_add_epi16(a@, b@));
    }
    r
}

/// Builds a vector from two 128-bit halves of `a` and `b` that the low and
/// the high four bits of `imm8` select.
pub fn permute2x128(a: &Vector256, b: &Vector256, imm8: u8) -> (r: Vector256)
    ensures
        r@ == spec_permute2x128(a@, b@, imm8 as int),
{
    let mut out = [0u8; 32];
    let mut i: usize = 0;
    while i < 32
        invariant
            i <= 32,
            forall|j: int| 0 <= j < i ==> out@[j] == spec_permute2x128(a@, b@, imm8 as int)[j],
        decreases 32 - i,
    {
        let control: u8 = if i < 16 {
            imm8 % 16
        } else {
            imm8 / 16
        };
        let from: usize = i % 16 + if control % 2 == 1 {
            16usize
        } else {
            0usize
        };
        out[i] = if (control / 8) % 2 == 1 {
            0
        } else if control % 4 < 2 {
            a.bytes[from]
        } else {
            b.bytes[from]
        };
        i += 1;
    }
    let r = Vector256 { bytes: out };
    proof {
        assert(r@ =~= spec_permute2x128(a@, b@, imm8 as int));
    }
    r
}

/// Rearranges the 32-bit lanes inside each 128-bit half of `a`: two bits of
/// `imm8` for each lane of the result name the lane it is copied from.
pub fn shuffle_epi32(a: &Vector256, imm8: u8) -> (r: Vector256)
    ensures
        r@ == spec_shuffle_epi32(a@, imm8 as int),
{
    let mut out = [0u8; 32];
    let mut i: usize = 0;
    while i < 32
        invariant
            i <= 32,
            forall|j: int| 0 <= j < i ==> out@[j] == spec_shuffle_epi32(a@, imm8 as int)[j],
        decreases 32 - i,
    {
        let d: usize = (i % 16) / 4;
        let choice: u8 = if d == 0 {
            imm8 % 4
        } else if d == 1 {
            (imm8 / 4) % 4
        } else if d == 2 {
            (imm8 / 16) % 4
        } else {
            (imm8 / 64) % 4
        };
        out[i] = a.bytes[(i / 16) * 16 + 4 * (choice as usize) + i % 4];
        i += 1;
    }
    let r = Vector256 { bytes: out };
    proof {
        assert(r@ =~= spec_shuffle_epi32(a@, imm8 as int));
    }
    r
}

/// The 64-bit lane `index` of `a`.
pub fn extract_epi64(a: &Vector256, index: usize) -> (w: u64)
    requires
        index < 4,
    ensures
        w == bytes_word(a@.subrange(8 * index, 8 * index + 8)),
{
    load_u64(a.bytes.as_slice(), 8 * index)
}

/// The bytes of a sequence of vectors, in order.
pub open spec fn vectors_bytes(vs: Seq<Vector256>) -> Seq<u8>
    decreases vs.len(),
{
    if vs.len() == 0 {
        Seq::empty()
    } else {
        vectors_bytes(vs.drop_last()) + vs.last()@
    }
}

/// A sequence of vectors has thirty-two bytes for each vector.
pub proof fn lemma_vectors_bytes_len(vs: Seq<Vector256>)
    ensures
        vectors_bytes(vs).len() == 32 * vs.len(),
    decreases vs.len(),
{
    if vs.len() > 0 {
        lemma_vectors_bytes_len(vs.drop_last());
    }
}

/// Reads the thirty-two bytes of `slice` from `at` on as one vector.
pub fn load_256(slice: &[u8], at: usize) -> (v: Vector256)
    requires
        at + 32 <= slice.len(),
    ensures
        v@ == slice@.subrange(at as int, at + 32),
{
    let mut out = [0u8; 32];
    let mut i: usize = 0;
    while i < 32
        invariant
            i <= 32,
            at + 32 <= slice.len(),
            forall|j: int| 0 <= j < i ==> out@[j] == slice@[at + j],
        decreases 32 - i,
    {
        out[i] = slice[at + i];
        i += 1;
    }
    let v = Vector256 { bytes: out };
    proof {
        assert(v@ =~= slice@.subrange(at as int, at + 32));
    }
    v
}

/// Reads a run of whole vectors out of `bytes`.
pub fn pack_256(bytes: &[u8]) -> (vectors: Vec<Vector256>)
    requires
        bytes.len() % 32 == 0,
    ensures
        vectors_bytes(vectors@) == bytes@,
        vectors.len() * 32 == bytes.len(),
{
    let n: usize = bytes.len() / 32;
    let mut vectors: Vec<Vector256> = Vec::with_capacity(n);
    let mut i: usize = 0;
    while i < n
        invariant
            i <= n,
            n * 32 == bytes.len(),
            vectors.len() == i,
            vectors_bytes(vectors@) == bytes@.take(i * 32),
        decreases n - i,
    {
        let v = load_256(bytes, i * 32);
        proof {
            assert(vectors@.push(v).drop_last() =~= vectors@);
            assert(bytes@.take(i * 32) + v@ =~= bytes@.take((i + 1) * 32));
        }
        vectors.push(v);
        i += 1;
    }
    proof {
        assert(bytes@.take(i * 32) =~= bytes@);
    }
    vectors
}

} // verus!
