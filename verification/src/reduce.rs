//! The horizontal reduction: adding up the byte lanes of one vector.

use vstd::prelude::*;
use crate::pack::bytes_word;
use crate::vector::{
    add_epi16, extract_epi64, lane16, permute2x128, select_half, shuffle_choice, shuffle_epi32,
    spec_add_epi16, spec_permute2x128, spec_shuffle_epi32, spec_unpackhi_epi8,
    spec_unpacklo_epi8, splat, unpack_source, unpackhi_epi8, unpacklo_epi8, Vector256,
};

verus! {

/// The sum of the bytes of `s` below index `n`.
pub open spec fn sum_to(s: Seq<u8>, n: nat) -> nat
    decreases n,
{
    if n == 0 {
        0
    } else {
        sum_to(s, (n - 1) as nat) + s[n - 1] as nat
    }
}

/// The sum of all byte lanes of `s`, each read as unsigned.
pub open spec fn lane_sum(s: Seq<u8>) -> nat {
    sum_to(s, s.len())
}

/// Packs four two-bit lane choices into the control byte of a shuffle, the
/// choice for the highest lane first.
#[allow(non_snake_case)]
pub fn _MM_SHUFFLE(z: u32, y: u32, x: u32, w: u32) -> (imm8: i32)
    ensures
        imm8 == (((z << 6) | (y << 4) | (x << 2) | w) as i32),
        z < 4 && y < 4 && x < 4 && w < 4 ==> imm8 == 64 * z + 16 * y + 4 * x + w,
{
    proof {
        assert(z < 4 && y < 4 && x < 4 && w < 4 ==> (((z << 6) | (y << 4) | (x << 2) | w) as i32)
            == 64 * z + 16 * y + 4 * x + w) by (bit_vector);
    }
    #[verifier::truncate]
    (((z << 6) | (y << 4) | (x << 2) | w) as i32)
}

/// A 16-bit lane of a sum is the sum of the lanes, modulo 2^16.
proof fn lemma_add_epi16_lane(a: Seq<u8>, b: Seq<u8>, j: int)
    requires
        0 <= j < 16,
    ensures
        lane16(spec_add_epi16(a, b), j) == (lane16(a, j) + lane16(b, j)) % 0x10000,
{
    let sum = (lane16(a, j) + lane16(b, j)) % 0x10000;
    assert((2 * j) / 2 == j && (2 * j + 1) / 2 == j);
    assert(spec_add_epi16(a, b)[2 * j] == (sum % 0x100) as u8);
    assert(spec_add_epi16(a, b)[2 * j + 1] == (sum / 0x100) as u8);
}

/// The sum of the four bytes of `v` that lie at `j` in its four quarters.
pub open spec fn column(v: Seq<u8>, j: int) -> int {
    v[j] + v[j + 8] + v[j + 16] + v[j + 24]
}

/// Widening the bytes of `v` to 16 bits and adding the high to the low
/// eight of each half leaves, in each 16-bit lane, the sum of two bytes.
proof fn lemma_widen_add(v: Seq<u8>, zero: Seq<u8>, j: int)
    requires
        v.len() == 32,
        zero == splat(0),
        0 <= j < 16,
    ensures
        j < 8 ==> lane16(
            spec_add_epi16(spec_unpackhi_epi8(v, zero), spec_unpacklo_epi8(v, zero)),
            j,
        ) == v[j] + v[j + 8],
        j >= 8 ==> lane16(
            spec_add_epi16(spec_unpackhi_epi8(v, zero), spec_unpacklo_epi8(v, zero)),
            j,
        ) == v[j + 8] + v[j + 16],
{
    let hi = spec_unpackhi_epi8(v, zero);
    let lo = spec_unpacklo_epi8(v, zero);
    lemma_add_epi16_lane(hi, lo, j);
    assert(hi[2 * j + 1] == 0 && lo[2 * j + 1] == 0);
    assert(unpack_source(2 * j, false) == if j < 8 {
        j
    } else {
        j + 8
    });
    assert(unpack_source(2 * j, true) == if j < 8 {
        j + 8
    } else {
        j + 16
    });
}

/// Adding a vector to itself with its halves exchanged adds lane `j` to
/// lane `j + 8`.
proof fn lemma_fold_halves(s: Seq<u8>, j: int)
    requires
        s.len() == 32,
        0 <= j < 8,
    ensures
        lane16(spec_add_epi16(s, spec_permute2x128(s, s, 1)), j) == (lane16(s, j) + lane16(
            s,
            j + 8,
        )) % 0x10000,
{
    let swapped = spec_permute2x128(s, s, 1);
    lemma_add_epi16_lane(s, swapped, j);
    assert(select_half(s, s, 1) == s.subrange(16, 32));
    assert(swapped[2 * j] == s[2 * j + 16]);
    assert(swapped[2 * j + 1] == s[2 * j + 17]);
}

/// Adding a vector to its shuffle by the control byte 11 adds, in the four
/// lowest 16-bit lanes, the lanes 6, 7, 4 and 5 to the lanes 0, 1, 2 and 3.
proof fn lemma_fold_quarters(s: Seq<u8>, j: int)
    requires
        s.len() == 32,
        0 <= j < 4,
    ensures
        lane16(spec_add_epi16(s, spec_shuffle_epi32(s, 11)), j) == (lane16(s, j) + lane16(
            s,
            if j < 2 {
                j + 6
            } else {
                j + 2
            },
        )) % 0x10000,
{
    let shuffled = spec_shuffle_epi32(s, 11);
    lemma_add_epi16_lane(s, shuffled, j);
    assert(shuffle_choice(11, 0) == 3 && shuffle_choice(11, 1) == 2);
    let d = j / 2;
    assert(((2 * j) % 16) / 4 == d && ((2 * j + 1) % 16) / 4 == d);
    assert(shuffled[2 * j] == s[4 * shuffle_choice(11, d) + (2 * j) % 4]);
    assert(shuffled[2 * j + 1] == s[4 * shuffle_choice(11, d) + (2 * j + 1) % 4]);
}

/// The low 64 bits of a vector hold its four lowest 16-bit lanes.
proof fn lemma_low_word(s: Seq<u8>)
    requires
        s.len() == 32,
    ensures
        bytes_word(s.subrange(0, 8)) == lane16(s, 0) + 0x1_0000 * lane16(s, 1) + 0x1_0000_0000
            * lane16(s, 2) + 0x1_0000_0000_0000 * lane16(s, 3),
{
    let b0 = s.subrange(0, 8);
    let b1 = b0.drop_first();
    let b2 = b1.drop_first();
    let b3 = b2.drop_first();
    let b4 = b3.drop_first();
    let b5 = b4.drop_first();
    let b6 = b5.drop_first();
    let b7 = b6.drop_first();
    let b8 = b7.drop_first();
    assert(bytes_word(b8) == 0);
    assert(bytes_word(b7) == s[7]);
    assert(bytes_word(b6) == s[6] + 256 * bytes_word(b7));
    assert(bytes_word(b5) == s[5] + 256 * bytes_word(b6));
    assert(bytes_word(b4) == s[4] + 256 * bytes_word(b5));
    assert(bytes_word(b3) == s[3] + 256 * bytes_word(b4));
    assert(bytes_word(b2) == s[2] + 256 * bytes_word(b3));
    assert(bytes_word(b1) == s[1] + 256 * bytes_word(b2));
    assert(bytes_word(b0) == s[0] + 256 * bytes_word(b1));
}

/// The sum of all lanes is the sum of the eight columns.
proof fn lemma_lane_sum_columns(v: Seq<u8>)
    requires
        v.len() == 32,
    ensures
        lane_sum(v) == column(v, 0) + column(v, 1) + column(v, 2) + column(v, 3) + column(v, 4)
            + column(v, 5) + column(v, 6) + column(v, 7),
{
    reveal_with_fuel(sum_to, 33);
}

/// The four 16-bit fields of a word.
proof fn lemma_fields(t: u64, a: int, b: int, c: int, d: int)
    requires
        0 <= a < 0x10000,
        0 <= b < 0x10000,
        0 <= c < 0x10000,
        0 <= d < 0x10000,
        t == a + 0x1_0000 * b + 0x1_0000_0000 * c + 0x1_0000_0000_0000 * d,
    ensures
        (t >> 0) & 0xffff == a,
        (t >> 16) & 0xffff == b,
        (t >> 32) & 0xffff == c,
        (t >> 48) & 0xffff == d,
{
    let t1 = t / 0x10000;
    let t2 = t1 / 0x10000;
    let t3 = t2 / 0x10000;
    assert((t >> 0) & 0xffff == t % 0x10000) by (bit_vector);
    assert((t >> 16) & 0xffff == (t / 0x10000) % 0x10000) by (bit_vector);
    assert((t >> 32) & 0xffff == ((t / 0x10000) / 0x10000) % 0x10000) by (bit_vector);
    assert((t >> 48) & 0xffff == (((t / 0x10000) / 0x10000) / 0x10000) % 0x10000) by (bit_vector);
    assert(t == a + 0x10000 * (b + 0x10000 * (c + 0x10000 * d)));
    assert(t1 == b + 0x10000 * (c + 0x10000 * d) && t % 0x10000 == a);
    assert(t2 == c + 0x10000 * d && t1 % 0x10000 == b);
    assert(t3 == d && t2 % 0x10000 == c);
}

/// The vector that the reduction leaves before its low word is taken out:
/// bytes widened to 16 bits, then halves and quarters folded onto each other.
pub open spec fn spec_folded(v: Seq<u8>) -> Seq<u8> {
    let zero = splat(0);
    let sum16x16 = spec_add_epi16(spec_unpackhi_epi8(v, zero), spec_unpacklo_epi8(v, zero));
    let sum16x8 = spec_add_epi16(sum16x16, spec_permute2x128(sum16x16, sum16x16, 1));
    spec_add_epi16(sum16x8, spec_shuffle_epi32(sum16x8, 11))
}

/// What the 16-bit lanes of a vector hold once the bytes of `v` have been
/// widened and the high eight of each half added to the low eight.
pub open spec fn holds_pairs(s: Seq<u8>, v: Seq<u8>) -> bool {
    forall|j: int|
        0 <= j < 16 ==> #[trigger] lane16(s, j) == if j < 8 {
            v[j] + v[j + 8]
        } else {
            v[j + 8] + v[j + 16]
        }
}

/// What the eight low 16-bit lanes of a vector hold once the halves have
/// been folded: the columns of `v`.
pub open spec fn holds_columns(s: Seq<u8>, v: Seq<u8>) -> bool {
    forall|j: int| 0 <= j < 8 ==> #[trigger] lane16(s, j) == column(v, j)
}

/// The first stage: widening and adding leaves sums of two bytes.
proof fn lemma_stage_pairs(v: Seq<u8>)
    requires
        v.len() == 32,
    ensures
        holds_pairs(
            spec_add_epi16(
                spec_unpackhi_epi8(v, splat(0)),
                spec_unpacklo_epi8(v, splat(0)),
            ),
            v,
        ),
{
    let zero = splat(0);
    let s = spec_add_epi16(spec_unpackhi_epi8(v, zero), spec_unpacklo_epi8(v, zero));
    assert forall|j: int| 0 <= j < 16 implies #[trigger] lane16(s, j) == if j < 8 {
        v[j] + v[j + 8]
    } else {
        v[j + 8] + v[j + 16]
    } by {
        lemma_widen_add(v, zero, j);
    }
}

/// The second stage: folding the halves leaves the columns.
proof fn lemma_stage_columns(s: Seq<u8>, v: Seq<u8>)
    requires
        v.len() == 32,
        s.len() == 32,
        holds_pairs(s, v),
    ensures
        holds_columns(spec_add_epi16(s, spec_permute2x128(s, s, 1)), v),
{
    let t = spec_add_epi16(s, spec_permute2x128(s, s, 1));
    assert forall|j: int| 0 <= j < 8 implies #[trigger] lane16(t, j) == column(v, j) by {
        lemma_fold_halves(s, j);
        assert(lane16(s, j) == v[j] + v[j + 8]);
        assert(lane16(s, j + 8) == v[j + 16] + v[j + 24]);
    }
}

/// The third stage: folding the quarters leaves four sums of two columns.
proof fn lemma_stage_quarters(s: Seq<u8>, v: Seq<u8>)
    requires
        v.len() == 32,
        s.len() == 32,
        holds_columns(s, v),
    ensures
        lane16(spec_add_epi16(s, spec_shuffle_epi32(s, 11)), 0) == column(v, 0) + column(v, 6),
        lane16(spec_add_epi16(s, spec_shuffle_epi32(s, 11)), 1) == column(v, 1) + column(v, 7),
        lane16(spec_add_epi16(s, spec_shuffle_epi32(s, 11)), 2) == column(v, 2) + column(v, 4),
        lane16(spec_add_epi16(s, spec_shuffle_epi32(s, 11)), 3) == column(v, 3) + column(v, 5),
{
    lemma_fold_quarters(s, 0);
    lemma_fold_quarters(s, 1);
    lemma_fold_quarters(s, 2);
    lemma_fold_quarters(s, 3);
    assert(lane16(s, 0) == column(v, 0) && lane16(s, 1) == column(v, 1));
    assert(lane16(s, 2) == column(v, 2) && lane16(s, 3) == column(v, 3));
    assert(lane16(s, 4) == column(v, 4) && lane16(s, 5) == column(v, 5));
    assert(lane16(s, 6) == column(v, 6) && lane16(s, 7) == column(v, 7));
}

/// The four lowest 16-bit lanes of the folded vector add up to the sum of
/// all byte lanes, and none of them has wrapped around.
proof fn lemma_folded(v: Seq<u8>)
    requires
        v.len() == 32,
    ensures
        lane16(spec_folded(v), 0) == column(v, 0) + column(v, 6),
        lane16(spec_folded(v), 1) == column(v, 1) + column(v, 7),
        lane16(spec_folded(v), 2) == column(v, 2) + column(v, 4),
        lane16(spec_folded(v), 3) == column(v, 3) + column(v, 5),
{
    let zero = splat(0);
    let sum16x16 = spec_add_epi16(spec_unpackhi_epi8(v, zero), spec_unpacklo_epi8(v, zero));
    let sum16x8 = spec_add_epi16(sum16x16, spec_permute2x128(sum16x16, sum16x16, 1));
    lemma_stage_pairs(v);
    lemma_stage_columns(sum16x16, v);
    lemma_stage_quarters(sum16x8, v);
}

/// The sum of the four 16-bit fields of the low word of the folded vector
/// is the sum of all byte lanes.
proof fn lemma_reduce(v: Seq<u8>, t: u64)
    requires
        v.len() == 32,
        t == bytes_word(spec_folded(v).subrange(0, 8)),
    ensures
        ((t >> 0) & 0xffff) + ((t >> 16) & 0xffff) + ((t >> 32) & 0xffff) + ((t >> 48) & 0xffff)
            == lane_sum(v),
        (t >> 0) & 0xffff <= 2040,
        (t >> 16) & 0xffff <= 2040,
        (t >> 32) & 0xffff <= 2040,
        (t >> 48) & 0xffff <= 2040,
{
    let s = spec_folded(v);
    lemma_folded(v);
    lemma_low_word(s);
    lemma_lane_sum_columns(v);
    lemma_fields(t, lane16(s, 0), lane16(s, 1), lane16(s, 2), lane16(s, 3));
}

/// Adds up the thirty-two byte lanes of `x`, each read as unsigned.
#[verifier::rlimit(40)]
pub fn avx2_horizontal_sum_epi8(x: &Vector256) -> (sum: usize)
    ensures
        sum == lane_sum(x@),
        sum <= 32 * 255,
{
    let zero = Vector256::zero();
    let sumhi = unpackhi_epi8(x, &zero);
    let sumlo = unpacklo_epi8(x, &zero);
    let sum16x16 = add_epi16(&sumhi, &sumlo);
    let swapped = permute2x128(&sum16x16, &sum16x16, 1);
    let sum16x8 = add_epi16(&sum16x16, &swapped);
    let imm8: i32 = _MM_SHUFFLE(0, 0, 2, 3);
    let shuffled = shuffle_epi32(&sum16x8, imm8 as u8);
    let sum16x4 = add_epi16(&sum16x8, &shuffled);
    let tmp: u64 = extract_epi64(&sum16x4, 0);
    proof {
        assert(sum16x16@ == spec_add_epi16(
            spec_unpackhi_epi8(x@, splat(0)),
            spec_unpacklo_epi8(x@, splat(0)),
        ));
        assert(sum16x8@ == spec_add_epi16(sum16x16@, spec_permute2x128(sum16x16@, sum16x16@, 1)));
        assert(sum16x4@ == spec_add_epi16(sum16x8@, spec_shuffle_epi32(sum16x8@, 11)));
        assert(sum16x4@ == spec_folded(x@));
        lemma_reduce(x@, tmp);
    }
    let mut result: u64 = (tmp >> 0) & 0xffff;
    result += (tmp >> 16) & 0xffff;
    result += (tmp >> 32) & 0xffff;
    result += (tmp >> 48) & 0xffff;
    result as usize
}

} // verus!
