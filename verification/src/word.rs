//! The word plane: counting leading bytes inside whole machine words.

use vstd::prelude::*;
use crate::lead::{count_leads, is_lead, lemma_count_leads_concat};

verus! {

/// The number of one bits in the binary representation of `x`.
pub open spec fn ones(x: nat) -> nat
    decreases x,
{
    if x == 0 {
        0
    } else {
        x % 2 + ones(x / 2)
    }
}

/// The `k` low bytes of `w`, least significant first.
pub open spec fn word_bytes(w: nat, k: nat) -> Seq<u8>
    decreases k,
{
    if k == 0 {
        Seq::empty()
    } else {
        seq![(w % 256) as u8] + word_bytes(w / 256, (k - 1) as nat)
    }
}

/// The bytes of a sequence of `k`-byte words, in order.
pub open spec fn words_bytes(ws: Seq<nat>, k: nat) -> Seq<u8>
    decreases ws.len(),
{
    if ws.len() == 0 {
        Seq::empty()
    } else {
        words_bytes(ws.drop_last(), k) + word_bytes(ws.last(), k)
    }
}

/// The word that has bit 6 set in each of its `k` low bytes and no other bit.
pub open spec fn lane_mask(k: nat) -> nat
    decreases k,
{
    if k == 0 {
        0
    } else {
        0x40 + 256 * lane_mask((k - 1) as nat)
    }
}

/// One bit in position 6 below a word shifted up by one byte adds itself to
/// the population count.
proof fn lemma_ones_lane(b: nat, hi: nat)
    requires
        b <= 1,
    ensures
        ones(64 * b + 256 * hi) == b + ones(hi),
{
    assert(ones(2 * hi) == ones(hi));
    assert(ones(b + 4 * hi) == b + ones(2 * hi));
    assert(ones(2 * b + 8 * hi) == ones(b + 4 * hi));
    assert(ones(4 * b + 16 * hi) == ones(2 * b + 8 * hi));
    assert(ones(8 * b + 32 * hi) == ones(4 * b + 16 * hi));
    assert(ones(16 * b + 64 * hi) == ones(8 * b + 32 * hi));
    assert(ones(32 * b + 128 * hi) == ones(16 * b + 64 * hi));
    assert(ones(64 * b + 256 * hi) == ones(32 * b + 128 * hi));
}

/// A mask of at most sixteen lanes fits in 128 bits, and one of fewer
/// leaves the highest byte clear.
proof fn lemma_lane_mask_bound(k: nat)
    requires
        k <= 16,
    ensures
        k < 16 ==> lane_mask(k) <= 0x0040_4040_4040_4040_4040_4040_4040_4040,
        lane_mask(k) <= 0x4040_4040_4040_4040_4040_4040_4040_4040,
    decreases k,
{
    reveal_with_fuel(lane_mask, 17);
}

/// How the marked word of `c` under a mask of whole lanes splits into its
/// lowest lane and the marked word of the remaining bytes.
proof fn lemma_mark_step(c: u128, m: u128, rest: u128)
    by (bit_vector)
    requires
        rest <= 0x0040_4040_4040_4040_4040_4040_4040_4040,
        m == rest * 256 + 0x40,
    ensures
        ((c | (!c >> 1)) & m) >> 8 == ((c >> 8) | (!(c >> 8) >> 1)) & rest,
        ((c | (!c >> 1)) & m) & 0xff == if (c & 0xff) as u8 & 0xC0 != 0x80 {
            0x40u128
        } else {
            0u128
        },
        (c | (!c >> 1)) & m == ((((c | (!c >> 1)) & m) >> 8) * 256 + (((c | (!c >> 1)) & m)
            & 0xff)),
        c >> 8 == c / 256,
        c & 0xff == c % 256,
{
}

/// The population count of the marked word is the number of leading bytes
/// among the `k` low bytes of `c`.
pub proof fn lemma_marked_ones(c: u128, k: nat)
    requires
        k <= 16,
    ensures
        lane_mask(k) <= u128::MAX,
        ones(((c | (!c >> 1)) & (lane_mask(k) as u128)) as nat) == count_leads(
            word_bytes(c as nat, k),
        ),
    decreases k,
{
    lemma_lane_mask_bound(k);
    let m = lane_mask(k) as u128;
    let n = (c | (!c >> 1)) & m;
    if k == 0 {
        assert((c | (!c >> 1)) & 0u128 == 0) by (bit_vector);
    } else {
        let j = (k - 1) as nat;
        lemma_lane_mask_bound(j);
        let rest = lane_mask(j) as u128;
        lemma_mark_step(c, m, rest);
        let hi = c >> 8;
        lemma_marked_ones(hi, j);
        let low = (c % 256) as u8;
        let b: nat = if is_lead(low) {
            1
        } else {
            0
        };
        lemma_ones_lane(b, (n >> 8) as nat);
        let head = seq![low];
        assert(head.drop_last() =~= Seq::<u8>::empty());
        assert(count_leads(head.drop_last()) == 0);
        assert(count_leads(head) == b);
        lemma_count_leads_concat(head, word_bytes(hi as nat, j));
    }
}

/// A word of `k` bytes has `k` bytes.
pub proof fn lemma_word_bytes_len(w: nat, k: nat)
    ensures
        word_bytes(w, k).len() == k,
    decreases k,
{
    if k > 0 {
        lemma_word_bytes_len(w / 256, (k - 1) as nat);
    }
}

/// Appending a word appends its bytes.
pub proof fn lemma_words_bytes_push(ws: Seq<nat>, w: nat, k: nat)
    ensures
        words_bytes(ws.push(w), k) == words_bytes(ws, k) + word_bytes(w, k),
{
    assert(ws.push(w).drop_last() =~= ws);
}

/// What `u32::count_ones` returns: the number of bits of `i` that are one.
/// This is what its documentation says; it is believed, not proved.
pub assume_specification[ u32::count_ones ](i: u32) -> (r: u32)
    ensures
        r == ones(i as nat),
;

/// The bytes of a sequence of 32-bit words.
pub open spec fn u32_bytes(ws: Seq<u32>) -> Seq<u8> {
    words_bytes(ws.map_values(|w: u32| w as nat), 4)
}

/// Bit 6 of each byte of a 32-bit word.
pub const MASK_U32: u32 = 0x4040_4040;

/// Counts the leading bytes among the four bytes of `c`.
pub fn leads_in_u32(c: u32) -> (n: u32)
    ensures
        n == count_leads(word_bytes(c as nat, 4)),
        n <= 4,
{
    let f: u32 = c | (!c >> 1);
    let marked: u32 = f & MASK_U32;
    proof {
        reveal_with_fuel(lane_mask, 5);
        lemma_marked_ones(c as u128, 4);
        assert(((c | (!c >> 1)) & 0x4040_4040u32) as u128 == ((c as u128) | (!(c as u128)
            >> 1)) & 0x4040_4040u128) by (bit_vector);
        lemma_word_bytes_len(c as nat, 4);
        crate::lead::lemma_count_leads_bound(word_bytes(c as nat, 4));
    }
    marked.count_ones()
}

/// Counts the bytes that are not continuation bytes in a slice of 32-bit
/// words.
pub fn count_u32(slice: &[u32]) -> (count: usize)
    ensures
        count == count_leads(u32_bytes(slice@)),
{
    // The slice lies in memory, so its size in bytes is a `usize`.
    let size: usize = core::mem::size_of_val(slice);
    proof {
        broadcast use vstd::layout::layout_of_slices, vstd::layout::layout_of_primitives;

        assert(size == slice.len() * 4);
    }
    let mut count: usize = 0;
    let mut i: usize = 0;
    while i < slice.len()
        invariant
            i <= slice.len(),
            slice.len() * 4 <= usize::MAX,
            count == count_leads(u32_bytes(slice@.take(i as int))),
            count <= i * 4,
        decreases slice.len() - i,
    {
        let c: u32 = slice[i];
        let n: u32 = leads_in_u32(c);
        proof {
            let done = slice@.take(i as int).map_values(|w: u32| w as nat);
            assert(slice@.take(i + 1).map_values(|w: u32| w as nat) =~= done.push(c as nat));
            lemma_words_bytes_push(done, c as nat, 4);
            lemma_count_leads_concat(words_bytes(done, 4), word_bytes(c as nat, 4));
        }
        count += n as usize;
        i += 1;
    }
    proof {
        assert(slice@.take(i as int) =~= slice@);
    }
    count
}

/// What `u64::count_ones` returns: the number of bits of `i` that are one.
/// This is what its documentation says; it is believed, not proved.
pub assume_specification[ u64::count_ones ](i: u64) -> (r: u32)
    ensures
        r == ones(i as nat),
;

/// The bytes of a sequence of 64-bit words.
pub open spec fn u64_bytes(ws: Seq<u64>) -> Seq<u8> {
    words_bytes(ws.map_values(|w: u64| w as nat), 8)
}

/// Bit 6 of each byte of a 64-bit word.
pub const MASK_U64: u64 = 0x4040_4040_4040_4040;

/// Counts the leading bytes among the eight bytes of `c`.
pub fn leads_in_u64(c: u64) -> (n: u32)
    ensures
        n == count_leads(word_bytes(c as nat, 8)),
        n <= 8,
{
    let f: u64 = c | (!c >> 1);
    let marked: u64 = f & MASK_U64;
    proof {
        reveal_with_fuel(lane_mask, 9);
        lemma_marked_ones(c as u128, 8);
        assert(((c | (!c >> 1)) & 0x4040_4040_4040_4040u64) as u128 == ((c as u128) | (!(c as u128)
            >> 1)) & 0x4040_4040_4040_4040u128) by (bit_vector);
        lemma_word_bytes_len(c as nat, 8);
        crate::lead::lemma_count_leads_bound(word_bytes(c as nat, 8));
    }
    marked.count_ones()
}

/// Counts the bytes that are not continuation bytes in a slice of 64-bit
/// words.
pub fn count_u64(slice: &[u64]) -> (count: usize)
    ensures
        count == count_leads(u64_bytes(slice@)),
{
    // The slice lies in memory, so its size in bytes is a `usize`.
    let size: usize = core::mem::size_of_val(slice);
    proof {
        broadcast use vstd::layout::layout_of_slices, vstd::layout::layout_of_primitives;

        assert(size == slice.len() * 8);
    }
    let mut count: usize = 0;
    let mut i: usize = 0;
    while i < slice.len()
        invariant
            i <= slice.len(),
            slice.len() * 8 <= usize::MAX,
            count == count_leads(u64_bytes(slice@.take(i as int))),
            count <= i * 8,
        decreases slice.len() - i,
    {
        let c: u64 = slice[i];
        let n: u32 = leads_in_u64(c);
        proof {
            let done = slice@.take(i as int).map_values(|w: u64| w as nat);
            assert(slice@.take(i + 1).map_values(|w: u64| w as nat) =~= done.push(c as nat));
            lemma_words_bytes_push(done, c as nat, 8);
            lemma_count_leads_concat(words_bytes(done, 8), word_bytes(c as nat, 8));
        }
        count += n as usize;
        i += 1;
    }
    proof {
        assert(slice@.take(i as int) =~= slice@);
    }
    count
}

/// What `u128::count_ones` returns: the number of bits of `i` that are one.
/// This is what its documentation says; it is believed, not proved.
pub assume_specification[ u128::count_ones ](i: u128) -> (r: u32)
    ensures
        r == ones(i as nat),
;

/// The bytes of a sequence of 128-bit words.
pub open spec fn u128_bytes(ws: Seq<u128>) -> Seq<u8> {
    words_bytes(ws.map_values(|w: u128| w as nat), 16)
}

/// Bit 6 of each byte of a 128-bit word.
pub const MASK_U128: u128 = 0x4040_4040_4040_4040_4040_4040_4040_4040;

/// Counts the leading bytes among the sixteen bytes of `c`.
pub fn leads_in_u128(c: u128) -> (n: u32)
    ensures
        n == count_leads(word_bytes(c as nat, 16)),
        n <= 16,
{
    let f: u128 = c | (!c >> 1);
    let marked: u128 = f & MASK_U128;
    proof {
        reveal_with_fuel(lane_mask, 17);
        lemma_marked_ones(c, 16);
        lemma_word_bytes_len(c as nat, 16);
        crate::lead::lemma_count_leads_bound(word_bytes(c as nat, 16));
    }
    marked.count_ones()
}

/// Counts the bytes that are not continuation bytes in a slice of 128-bit
/// words.
pub fn count_u128(slice: &[u128]) -> (count: usize)
    ensures
        count == count_leads(u128_bytes(slice@)),
{
    // The slice lies in memory, so its size in bytes is a `usize`.
    let size: usize = core::mem::size_of_val(slice);
    proof {
        broadcast use vstd::layout::layout_of_slices, vstd::layout::layout_of_primitives;

        assert(size == slice.len() * 16);
    }
    let mut count: usize = 0;
    let mut i: usize = 0;
    while i < slice.len()
        invariant
            i <= slice.len(),
            slice.len() * 16 <= usize::MAX,
            count == count_leads(u128_bytes(slice@.take(i as int))),
            count <= i * 16,
        decreases slice.len() - i,
    {
        let c: u128 = slice[i];
        let n: u32 = leads_in_u128(c);
        proof {
            let done = slice@.take(i as int).map_values(|w: u128| w as nat);
            assert(slice@.take(i + 1).map_values(|w: u128| w as nat) =~= done.push(c as nat));
            lemma_words_bytes_push(done, c as nat, 16);
            lemma_count_leads_concat(words_bytes(done, 16), word_bytes(c as nat, 16));
        }
        count += n as usize;
        i += 1;
    }
    proof {
        assert(slice@.take(i as int) =~= slice@);
    }
    count
}

/// What `usize::count_ones` returns: the number of bits of `i` that are one.
/// This is what its documentation says; it is believed, not proved.
pub assume_specification[ usize::count_ones ](i: usize) -> (r: u32)
    ensures
        r == ones(i as nat),
;

/// The number of bytes in a native word.
pub open spec fn usize_width() -> nat {
    (usize::BITS / 8) as nat
}

/// The bytes of a sequence of native words.
pub open spec fn usize_bytes(ws: Seq<usize>) -> Seq<u8> {
    words_bytes(ws.map_values(|w: usize| w as nat), usize_width())
}

/// Bit 6 of each byte of a native word.
pub const MASK_USIZE: usize = usize::MAX / 0xff * 0x40;

/// Counts the leading bytes among the bytes of `c`.
pub fn leads_in_usize(c: usize) -> (n: u32)
    ensures
        n == count_leads(word_bytes(c as nat, usize_width())),
        n <= usize_width() <= 8,
{
    let f: usize = c | (!c >> 1);
    let marked: usize = f & MASK_USIZE;
    proof {
        reveal_with_fuel(lane_mask, 9);
        lemma_marked_ones(c as u128, usize_width());
        let m = MASK_USIZE;
        assert(usize::BITS == 32 || usize::BITS == 64);
        assert(m == lane_mask(usize_width()));
        assert(m == 0x4040_4040u64 || m == 0x4040_4040_4040_4040u64);
        assert(((c | (!c >> 1)) & m) as u128 == ((c as u128) | (!(c as u128) >> 1)) & (m as u128))
            by (bit_vector)
            requires
                m == 0x4040_4040u64 || m == 0x4040_4040_4040_4040u64,
        ;
        lemma_word_bytes_len(c as nat, usize_width());
        crate::lead::lemma_count_leads_bound(word_bytes(c as nat, usize_width()));
    }
    marked.count_ones()
}

/// Counts the bytes that are not continuation bytes in a slice of native
/// words.
pub fn count_usize(slice: &[usize]) -> (count: usize)
    ensures
        count == count_leads(usize_bytes(slice@)),
{
    // The slice lies in memory, so its size in bytes is a `usize`.
    let size: usize = core::mem::size_of_val(slice);
    proof {
        broadcast use vstd::layout::layout_of_slices, vstd::layout::layout_of_primitives;

        assert(size == slice.len() * usize_width());
    }
    let mut count: usize = 0;
    let mut i: usize = 0;
    while i < slice.len()
        invariant
            i <= slice.len(),
            slice.len() * usize_width() <= usize::MAX,
            count == count_leads(usize_bytes(slice@.take(i as int))),
            count <= i * usize_width(),
        decreases slice.len() - i,
    {
        let c: usize = slice[i];
        let n: u32 = leads_in_usize(c);
        proof {
            let k = usize_width();
            let done = slice@.take(i as int).map_values(|w: usize| w as nat);
            assert(slice@.take(i + 1).map_values(|w: usize| w as nat) =~= done.push(c as nat));
            lemma_words_bytes_push(done, c as nat, k);
            lemma_count_leads_concat(words_bytes(done, k), word_bytes(c as nat, k));
            assert((i + 1) * k == i * k + k) by (nonlinear_arith);
            assert((i + 1) * k <= slice.len() * k) by (nonlinear_arith)
                requires
                    i + 1 <= slice.len(),
            ;
        }
        count += n as usize;
        i += 1;
    }
    proof {
        assert(slice@.take(i as int) =~= slice@);
    }
    count
}

} // verus!
