//! What holds of the counters taken together.

use vstd::prelude::*;
use vstd::utf8::{decode_utf8, encode_utf8, valid_utf8};
use crate::count::{spec_chars_count, spec_select_plane, Plane};
use crate::lead::{count_leads, is_lead, lemma_count_leads_concat};
use crate::split::{lemma_align_split, spec_align_split};
use crate::text::{
    lemma_count_leads_is_char_count, lemma_count_leads_of_encoding, lemma_single_byte,
};
use crate::vector::{lemma_signed_test, vectors_bytes, Vector256};
use crate::word::{u128_bytes, u32_bytes, u64_bytes, usize_bytes};

verus! {

/// The count of a text's encoding is the number of its characters, which
/// is what decoding the encoding yields.
pub proof fn law_count_is_number_of_characters(chars: Seq<char>)
    ensures
        spec_chars_count(encode_utf8(chars)) == chars.len(),
        spec_chars_count(encode_utf8(chars)) == decode_utf8(encode_utf8(chars)).len(),
{
    let bytes = encode_utf8(chars);
    vstd::utf8::encode_utf8_valid_utf8(chars);
    vstd::utf8::encode_utf8_decode_utf8(chars);
    lemma_count_leads_of_encoding(chars);
    if bytes.len() == 1 {
        lemma_single_byte(bytes);
    }
}

/// On well-formed UTF-8 every plane whose units the buffer fills exactly
/// counts what decoding yields, so that the planes are interchangeable.
pub proof fn law_planes_agree(
    bytes: Seq<u8>,
    w32: Seq<u32>,
    w64: Seq<u64>,
    w128: Seq<u128>,
    native: Seq<usize>,
    vectors: Seq<Vector256>,
)
    requires
        valid_utf8(bytes),
    ensures
        count_leads(bytes) == decode_utf8(bytes).len(),
        u32_bytes(w32) == bytes ==> count_leads(u32_bytes(w32)) == decode_utf8(bytes).len(),
        u64_bytes(w64) == bytes ==> count_leads(u64_bytes(w64)) == decode_utf8(bytes).len(),
        u128_bytes(w128) == bytes ==> count_leads(u128_bytes(w128)) == decode_utf8(bytes).len(),
        usize_bytes(native) == bytes ==> count_leads(usize_bytes(native)) == decode_utf8(
            bytes,
        ).len(),
        vectors_bytes(vectors) == bytes ==> count_leads(vectors_bytes(vectors)) == decode_utf8(
            bytes,
        ).len(),
{
    lemma_count_leads_is_char_count(bytes);
}

/// The three partial counts of a buffer of `s` that starts at `address`,
/// split for units of `unit` bytes.
pub open spec fn spec_partial_counts(s: Seq<u8>, address: nat, unit: nat) -> (nat, nat, nat) {
    let (prefix, units, suffix) = spec_align_split(s.len(), address, unit);
    let cut = prefix + units * unit;
    (
        count_leads(s.subrange(0, prefix as int)),
        count_leads(s.subrange(prefix as int, cut as int)),
        count_leads(s.subrange(cut as int, s.len() as int)),
    )
}

/// The partial counts of prefix, middle and suffix add up to the count of
/// the whole buffer.
pub proof fn law_partial_counts_add_up(s: Seq<u8>, address: nat, unit: nat)
    requires
        unit > 0,
    ensures
        ({
            let (before, middle, after) = spec_partial_counts(s, address, unit);
            before + middle + after == count_leads(s)
        }),
{
    lemma_align_split(s.len(), address, unit);
    let (prefix, units, suffix) = spec_align_split(s.len(), address, unit);
    let cut = prefix + units * unit;
    let a = s.subrange(0, prefix as int);
    let b = s.subrange(prefix as int, cut as int);
    let c = s.subrange(cut as int, s.len() as int);
    assert(a + b + c =~= s);
    lemma_count_leads_concat(a, b);
    lemma_count_leads_concat(a + b, c);
}

/// Where a buffer starts in memory does not change its count: the partial
/// counts for any two addresses have the same sum.
pub proof fn law_alignment_invariance(s: Seq<u8>, first: nat, second: nat, unit: nat)
    requires
        unit > 0,
    ensures
        ({
            let (a, b, c) = spec_partial_counts(s, first, unit);
            let (d, e, f) = spec_partial_counts(s, second, unit);
            a + b + c == d + e + f
        }),
{
    law_partial_counts_add_up(s, first, unit);
    law_partial_counts_add_up(s, second, unit);
}

/// A plane wider than a byte is selected only for a buffer whose middle
/// holds at least one whole unit, wherever the buffer starts.
pub proof fn law_selected_plane_has_middle(len: nat, vector_ok: bool, address: nat)
    ensures
        ({
            let plane = spec_select_plane(len, vector_ok);
            plane != Plane::Byte ==> spec_align_split(len, address, plane.spec_unit()).1 >= 1
        }),
        spec_select_plane(len, vector_ok) == Plane::Vector ==> vector_ok,
{
    let plane = spec_select_plane(len, vector_ok);
    lemma_align_split(len, address, plane.spec_unit());
}

/// The count depends on the contents of the buffer alone: two buffers that
/// hold the same bytes have the same count, and so have two calls on one.
pub proof fn law_count_is_pure(first: &[u8], second: &[u8])
    requires
        first@ == second@,
    ensures
        spec_chars_count(first@) == spec_chars_count(second@),
{
}

/// The test on the two high bits and the signed comparison with -0x41
/// classify every byte alike.
pub proof fn law_two_tests_agree(b: u8)
    ensures
        is_lead(b) <==> (b as i8) > -0x41,
{
    lemma_signed_test(b);
}

} // verus!
