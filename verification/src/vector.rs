//! The integer side of the text embedding: which of the 32 dimensions a
//! word feeds. The weights themselves are floating point and are computed
//! by the caller.

use vstd::prelude::*;

verus! {

/// The number of dimensions of an embedding.
pub const DIMENSIONS: u64 = 32;

/// The polynomial hash of a word's bytes: start at 0, and for each byte
/// multiply by 31 and add the byte, wrapping on 64 bits.
pub open spec fn word_hash(bytes: Seq<u8>) -> u64
    decreases bytes.len(),
{
    if bytes.len() == 0 {
        0
    } else {
        ((word_hash(bytes.drop_last()) as nat * 31 + bytes.last() as nat) % 0x1_0000_0000_0000_0000nat) as u64
    }
}

/// The dimension that a word feeds: its hash modulo 32.
pub fn word_bucket(word: &str) -> (idx: usize)
    ensures
        idx as nat == word_hash(vstd::utf8::encode_utf8(word@)) as nat % 32,
        idx < 32,
{
    let bytes = word.as_bytes();
    let mut hash: u64 = 0;
    let mut i: usize = 0;
    while i < bytes.len()
        invariant
            i <= bytes@.len(),
            bytes@ == vstd::utf8::encode_utf8(word@),
            hash == word_hash(bytes@.take(i as int)),
        decreases bytes.len() - i,
    {
        assert(bytes@.take(i + 1).drop_last() =~= bytes@.take(i as int));
        let b = bytes[i];
        let ghost h0 = hash;
        hash = hash.wrapping_mul(31).wrapping_add(b as u64);
        proof {
            let m = 0x1_0000_0000_0000_0000int;
            assert(((h0 as int * 31) % m + b as int) % m == (h0 as int * 31 + b as int) % m) by {
                vstd::arithmetic::div_mod::lemma_add_mod_noop(h0 as int * 31, b as int, m);
                vstd::arithmetic::div_mod::lemma_small_mod(b as nat, m as nat);
            }
        }
        i = i + 1;
    }
    assert(bytes@.take(bytes@.len() as int) =~= bytes@);
    (hash % DIMENSIONS) as usize
}

} // verus!
