//! Why counting leading bytes counts characters.

use vstd::prelude::*;
use vstd::utf8::*;
use crate::lead::{count_leads, is_lead, lemma_count_leads_concat};

verus! {

/// A block of continuation bytes holds no leading byte.
proof fn lemma_continuations(s: Seq<u8>)
    requires
        forall|i: int| 0 <= i < s.len() ==> is_continuation_byte(#[trigger] s[i]),
    ensures
        count_leads(s) == 0,
    decreases s.len(),
{
    if s.len() > 0 {
        lemma_continuations(s.drop_last());
        let b = s.last();
        assert(is_continuation_byte(b));
        assert(0x80 <= b <= 0xbf ==> b & 0xC0 == 0x80) by (bit_vector);
    }
}

/// The encoding of one scalar holds exactly one leading byte.
proof fn lemma_first_scalar(bytes: Seq<u8>)
    requires
        valid_first_scalar(bytes),
    ensures
        count_leads(take_first_scalar(bytes)) == 1,
{
    let first = take_first_scalar(bytes);
    let b = bytes[0];
    let head = seq![b];
    let tail = first.subrange(1, first.len() as int);
    assert(first =~= head + tail);
    assert(!(0x80 <= b <= 0xbf) ==> b & 0xC0 != 0x80) by (bit_vector);
    assert(head.drop_last() =~= Seq::<u8>::empty());
    assert(count_leads(head.drop_last()) == 0);
    assert(count_leads(head) == 1);
    lemma_continuations(tail);
    lemma_count_leads_concat(head, tail);
}

/// In well-formed UTF-8 the bytes that are not continuation bytes are as
/// many as the characters that decoding yields.
pub proof fn lemma_count_leads_is_char_count(bytes: Seq<u8>)
    requires
        valid_utf8(bytes),
    ensures
        count_leads(bytes) == decode_utf8(bytes).len(),
    decreases bytes.len(),
{
    if bytes.len() > 0 {
        let first = take_first_scalar(bytes);
        let rest = pop_first_scalar(bytes);
        lemma_first_scalar(bytes);
        lemma_count_leads_is_char_count(rest);
        assert(bytes =~= first + rest);
        lemma_count_leads_concat(first, rest);
    }
}

/// The encoding of a text holds as many leading bytes as the text has
/// characters.
pub proof fn lemma_count_leads_of_encoding(chars: Seq<char>)
    ensures
        count_leads(encode_utf8(chars)) == chars.len(),
{
    encode_utf8_valid_utf8(chars);
    encode_utf8_decode_utf8(chars);
    lemma_count_leads_is_char_count(encode_utf8(chars));
}

/// A single byte that is well-formed UTF-8 is a leading byte.
pub proof fn lemma_single_byte(bytes: Seq<u8>)
    requires
        valid_utf8(bytes),
        bytes.len() == 1,
    ensures
        is_lead(bytes[0]),
        count_leads(bytes) == 1,
{
    let b = bytes[0];
    assert(!(0x80 <= b <= 0xbf) ==> b & 0xC0 != 0x80) by (bit_vector);
    assert(bytes.drop_last() =~= Seq::<u8>::empty());
    assert(count_leads(bytes.drop_last()) == 0);
}

} // verus!
