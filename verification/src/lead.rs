//! The byte plane: classifying and counting single bytes.

use vstd::prelude::*;

verus! {

/// A byte starts a character unless its two high bits are `10`.
pub open spec fn is_lead(b: u8) -> bool {
    b & 0xC0 != 0x80
}

/// The number of bytes of `s` that start a character.
pub open spec fn count_leads(s: Seq<u8>) -> nat
    decreases s.len(),
{
    if s.len() == 0 {
        0
    } else {
        count_leads(s.drop_last()) + if is_lead(s.last()) {
            1nat
        } else {
            0nat
        }
    }
}

/// No sequence holds more leading bytes than bytes.
pub proof fn lemma_count_leads_bound(s: Seq<u8>)
    ensures
        count_leads(s) <= s.len(),
    decreases s.len(),
{
    if s.len() > 0 {
        lemma_count_leads_bound(s.drop_last());
    }
}

/// Counting is additive over concatenation.
pub proof fn lemma_count_leads_concat(a: Seq<u8>, b: Seq<u8>)
    ensures
        count_leads(a + b) == count_leads(a) + count_leads(b),
    decreases b.len(),
{
    if b.len() == 0 {
        assert(a + b =~= a);
    } else {
        assert((a + b).drop_last() =~= a + b.drop_last());
        assert((a + b).last() == b.last());
        lemma_count_leads_concat(a, b.drop_last());
    }
}

/// A byte starts a character exactly if it is below 0x80 or from 0xC0 up.
pub proof fn lemma_lead_range(b: u8)
    ensures
        is_lead(b) <==> (b < 0x80 || b >= 0xC0),
{
    assert((b & 0xC0 != 0x80) <==> (b < 0x80 || b >= 0xC0)) by (bit_vector);
}

/// Counts the bytes of `slice` that are not continuation bytes.
pub fn count_u8(slice: &[u8]) -> (count: usize)
    ensures
        count == count_leads(slice@),
{
    let mut count: usize = 0;
    let mut i: usize = 0;
    while i < slice.len()
        invariant
            i <= slice.len(),
            count == count_leads(slice@.take(i as int)),
            count <= i,
        decreases slice.len() - i,
    {
        let c: u8 = slice[i];
        proof {
            assert(slice@.take(i + 1).drop_last() =~= slice@.take(i as int));
            assert(slice@.take(i + 1).last() == c);
        }
        if c & 0xC0 != 0x80 {
            count += 1;
        }
        i += 1;
    }
    proof {
        assert(slice@.take(i as int) =~= slice@);
    }
    count
}

} // verus!
