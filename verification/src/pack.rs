//! Reading a run of bytes as wider units.

use vstd::prelude::*;
use crate::word::{lemma_words_bytes_push, u32_bytes, u64_bytes, word_bytes};

verus! {

/// The number that the bytes of `s` spell, least significant first.
pub open spec fn bytes_word(s: Seq<u8>) -> nat
    decreases s.len(),
{
    if s.len() == 0 {
        0
    } else {
        s[0] as nat + 256 * bytes_word(s.drop_first())
    }
}

/// 256 to the power `k`.
pub open spec fn pow256(k: nat) -> nat
    decreases k,
{
    if k == 0 {
        1
    } else {
        256 * pow256((k - 1) as nat)
    }
}

/// The bytes of a word spell that word again.
pub proof fn lemma_word_bytes_of_bytes_word(s: Seq<u8>)
    ensures
        word_bytes(bytes_word(s), s.len()) == s,
    decreases s.len(),
{
    if s.len() > 0 {
        let rest = s.drop_first();
        lemma_word_bytes_of_bytes_word(rest);
        assert(seq![s[0]] + rest =~= s);
    }
}

/// A word of `k` bytes is below 256 to the power `k`.
pub proof fn lemma_bytes_word_bound(s: Seq<u8>)
    ensures
        bytes_word(s) < pow256(s.len()),
    decreases s.len(),
{
    if s.len() > 0 {
        lemma_bytes_word_bound(s.drop_first());
    }
}

/// Reads the four bytes of `slice` from `at` on as one word, the first byte
/// the least significant.
pub fn load_u32(slice: &[u8], at: usize) -> (w: u32)
    requires
        at + 4 <= slice.len(),
    ensures
        w == bytes_word(slice@.subrange(at as int, at + 4)),
{
    let mut w: u32 = 0;
    let mut i: usize = 4;
    while i > 0
        invariant
            i <= 4,
            at + 4 <= slice.len(),
            w == bytes_word(slice@.subrange(at + i, at + 4)),
        decreases i,
    {
        i -= 1;
        let b: u8 = slice[at + i];
        proof {
            let tail = slice@.subrange(at + i + 1, at + 4);
            let whole = slice@.subrange(at + i, at + 4);
            assert(whole.drop_first() =~= tail);
            lemma_bytes_word_bound(whole);
            reveal_with_fuel(pow256, 9);
        }
        w = w * 256 + b as u32;
    }
    w
}

/// Reads the eight bytes of `slice` from `at` on as one word, the first byte
/// the least significant.
pub fn load_u64(slice: &[u8], at: usize) -> (w: u64)
    requires
        at + 8 <= slice.len(),
    ensures
        w == bytes_word(slice@.subrange(at as int, at + 8)),
{
    let mut w: u64 = 0;
    let mut i: usize = 8;
    while i > 0
        invariant
            i <= 8,
            at + 8 <= slice.len(),
            w == bytes_word(slice@.subrange(at + i, at + 8)),
        decreases i,
    {
        i -= 1;
        let b: u8 = slice[at + i];
        proof {
            let tail = slice@.subrange(at + i + 1, at + 8);
            let whole = slice@.subrange(at + i, at + 8);
            assert(whole.drop_first() =~= tail);
            lemma_bytes_word_bound(whole);
            reveal_with_fuel(pow256, 9);
        }
        w = w * 256 + b as u64;
    }
    w
}

/// Reads a run of whole 32-bit words out of `bytes`.
pub fn pack_u32(bytes: &[u8]) -> (words: Vec<u32>)
    requires
        bytes.len() % 4 == 0,
    ensures
        u32_bytes(words@) == bytes@,
        words.len() * 4 == bytes.len(),
{
    let n: usize = bytes.len() / 4;
    let mut words: Vec<u32> = Vec::with_capacity(n);
    let mut i: usize = 0;
    while i < n
        invariant
            i <= n,
            n * 4 == bytes.len(),
            words.len() == i,
            u32_bytes(words@) == bytes@.take(i * 4),
        decreases n - i,
    {
        let w: u32 = load_u32(bytes, i * 4);
        proof {
            let chunk = bytes@.subrange(i * 4, i * 4 + 4);
            let done = words@.map_values(|w: u32| w as nat);
            lemma_word_bytes_of_bytes_word(chunk);
            lemma_words_bytes_push(done, w as nat, 4);
            assert(words@.push(w).map_values(|w: u32| w as nat) =~= done.push(w as nat));
            assert(bytes@.take(i * 4) + chunk =~= bytes@.take((i + 1) * 4));
        }
        words.push(w);
        i += 1;
    }
    proof {
        assert(bytes@.take(i * 4) =~= bytes@);
    }
    words
}

/// Reads a run of whole 64-bit words out of `bytes`.
pub fn pack_u64(bytes: &[u8]) -> (words: Vec<u64>)
    requires
        bytes.len() % 8 == 0,
    ensures
        u64_bytes(words@) == bytes@,
        words.len() * 8 == bytes.len(),
{
    let n: usize = bytes.len() / 8;
    let mut words: Vec<u64> = Vec::with_capacity(n);
    let mut i: usize = 0;
    while i < n
        invariant
            i <= n,
            n * 8 == bytes.len(),
            words.len() == i,
            u64_bytes(words@) == bytes@.take(i * 8),
        decreases n - i,
    {
        let w: u64 = load_u64(bytes, i * 8);
        proof {
            let chunk = bytes@.subrange(i * 8, i * 8 + 8);
            let done = words@.map_values(|w: u64| w as nat);
            lemma_word_bytes_of_bytes_word(chunk);
            lemma_words_bytes_push(done, w as nat, 8);
            assert(words@.push(w).map_values(|w: u64| w as nat) =~= done.push(w as nat));
            assert(bytes@.take(i * 8) + chunk =~= bytes@.take((i + 1) * 8));
        }
        words.push(w);
        i += 1;
    }
    proof {
        assert(bytes@.take(i * 8) =~= bytes@);
    }
    words
}

} // verus!
