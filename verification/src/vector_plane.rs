//! The vector plane: counting leading bytes thirty-two at a time.

use vstd::prelude::*;
use crate::lead::{count_leads, is_lead, lemma_count_leads_bound, lemma_count_leads_concat};
use crate::reduce::{avx2_horizontal_sum_epi8, lane_sum, sum_to};
use crate::vector::{
    gt_epi8, lemma_signed_test, lemma_vectors_bytes_len, spec_gt_epi8, spec_sub_epi8, splat,
    sub_epi8, vectors_bytes, Vector256, THRESHOLD,
};

verus! {

/// The most vectors that may be accumulated before a byte lane could wrap.
pub const CHUNK: usize = 255;

/// The lanes of an accumulator after one more vector: each lane of `acc`
/// that faces a leading byte of `x` is one higher.
pub open spec fn spec_accumulate(acc: Seq<u8>, x: Seq<u8>) -> Seq<u8> {
    spec_sub_epi8(acc, spec_gt_epi8(x, splat(THRESHOLD)))
}

/// While no lane is full, accumulating adds one to each lane that faces a
/// leading byte.
proof fn lemma_accumulate_lane(acc: Seq<u8>, x: Seq<u8>, l: int)
    requires
        acc.len() == 32,
        x.len() == 32,
        0 <= l < 32,
        acc[l] < 255,
    ensures
        spec_accumulate(acc, x)[l] == acc[l] + if is_lead(x[l]) {
            1int
        } else {
            0int
        },
{
    lemma_signed_test(x[l]);
    let mask = spec_gt_epi8(x, splat(THRESHOLD));
    assert(mask[l] == if is_lead(x[l]) {
        0xFFu8
    } else {
        0u8
    });
}

/// Accumulating a vector raises the sum of the first `n` lanes by the
/// number of leading bytes among its first `n` bytes.
proof fn lemma_accumulate_sum(acc: Seq<u8>, x: Seq<u8>, n: nat)
    requires
        acc.len() == 32,
        x.len() == 32,
        n <= 32,
        forall|l: int| 0 <= l < 32 ==> acc[l] < 255,
    ensures
        sum_to(spec_accumulate(acc, x), n) == sum_to(acc, n) + count_leads(x.take(n as int)),
    decreases n,
{
    if n > 0 {
        let m = (n - 1) as nat;
        lemma_accumulate_sum(acc, x, m);
        lemma_accumulate_lane(acc, x, m as int);
        assert(x.take(n as int).drop_last() =~= x.take(m as int));
    }
}

/// The size in bytes of a slice of vectors, by `core::mem::size_of_val`. A
/// vector holds thirty-two bytes, so the slice takes up at least thirty-two
/// bytes for each of its vectors. This is believed, not proved.
#[verifier::external_body]
fn size_of_vectors(slice: &[Vector256]) -> (size: usize)
    ensures
        size >= slice@.len() * 32,
{
    core::mem::size_of_val(slice)
}

/// Counts the bytes that are not continuation bytes in a slice of vectors.
pub fn count_256(slice: &[Vector256]) -> (count: usize)
    ensures
        count == count_leads(vectors_bytes(slice@)),
{
    // The slice lies in memory, so its size in bytes is a `usize`.
    let size: usize = size_of_vectors(slice);
    let gt = Vector256::splat(THRESHOLD);
    let mut count: usize = 0;
    let mut start: usize = 0;
    while start < slice.len()
        invariant
            start <= slice.len(),
            slice.len() * 32 <= usize::MAX,
            gt@ == splat(THRESHOLD),
            count == count_leads(vectors_bytes(slice@.take(start as int))),
        decreases slice.len() - start,
    {
        let end: usize = if slice.len() - start > CHUNK {
            start + CHUNK
        } else {
            slice.len()
        };
        let mut sum = Vector256::zero();
        let mut i: usize = start;
        assert(lane_sum(sum@) == 0) by {
            reveal_with_fuel(sum_to, 33);
        }
        while i < end
            invariant
                start <= i <= end <= slice.len(),
                end - start <= 255,
                gt@ == splat(THRESHOLD),
                forall|l: int| 0 <= l < 32 ==> sum@[l] <= i - start,
                count + lane_sum(sum@) == count_leads(vectors_bytes(slice@.take(i as int))),
            decreases end - i,
        {
            let x: &Vector256 = &slice[i];
            let mask = gt_epi8(x, &gt);
            let next = sub_epi8(&sum, &mask);
            proof {
                assert(next@ == spec_accumulate(sum@, x@));
                assert forall|l: int| 0 <= l < 32 implies next@[l] <= i + 1 - start by {
                    lemma_accumulate_lane(sum@, x@, l);
                }
                lemma_accumulate_sum(sum@, x@, 32);
                assert(x@.take(32) =~= x@);
                assert(slice@.take(i + 1).drop_last() =~= slice@.take(i as int));
                lemma_count_leads_concat(vectors_bytes(slice@.take(i as int)), x@);
            }
            sum = next;
            i += 1;
        }
        proof {
            lemma_vectors_bytes_len(slice@.take(end as int));
            lemma_count_leads_bound(vectors_bytes(slice@.take(end as int)));
        }
        count += avx2_horizontal_sum_epi8(&sum);
        start = end;
    }
    proof {
        assert(slice@.take(start as int) =~= slice@);
    }
    count
}

} // verus!
