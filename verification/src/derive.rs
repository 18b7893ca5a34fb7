//! Challenge derivation: identity -> ordered sequence of distinct challenge
//! indices. The digest of the identity is rendered as hexadecimal symbols,
//! each symbol is mapped to its code point modulo the dictionary size, and
//! duplicates are dropped, keeping the order of first appearance.
use vstd::prelude::*;
use crate::DICTIONARY_VALUES;
use crate::digest::sha256_hex_of;

verus! {

/// The challenge index a single digest symbol contributes.
pub open spec fn challenge_index_of(c: char) -> u32 {
    (c as u32) % DICTIONARY_VALUES
}

/// Left-to-right fold over the digest symbols, appending each symbol's index
/// only on its first appearance.
pub open spec fn challenge_seq_of_hex(hexs: Seq<char>) -> Seq<u32>
    decreases hexs.len(),
{
    if hexs.len() == 0 {
        Seq::empty()
    } else {
        let prefix = challenge_seq_of_hex(hexs.drop_last());
        let v = challenge_index_of(hexs.last());
        if prefix.contains(v) {
            prefix
        } else {
            prefix.push(v)
        }
    }
}

/// The challenge sequence of an identity: derived from the identity's digest
/// alone, so it is the same on every call.
pub open spec fn challenge_seq_of(identity: Seq<char>) -> Seq<u32> {
    challenge_seq_of_hex(sha256_hex_of(identity))
}

/// The derived sequence never repeats an index and every index is below the
/// dictionary bound.
pub proof fn lemma_challenge_seq_distinct_bounded(hexs: Seq<char>)
    ensures
        challenge_seq_of_hex(hexs).no_duplicates(),
        forall|i: int|
            0 <= i < challenge_seq_of_hex(hexs).len() ==> challenge_seq_of_hex(hexs)[i]
                < DICTIONARY_VALUES,
    decreases hexs.len(),
{
    if hexs.len() == 0 {
    } else {
        lemma_challenge_seq_distinct_bounded(hexs.drop_last());
        let prefix = challenge_seq_of_hex(hexs.drop_last());
        let v = challenge_index_of(hexs.last());
        if !prefix.contains(v) {
            assert forall|i: int, j: int|
                0 <= i < prefix.push(v).len() && 0 <= j < prefix.push(v).len() && i != j implies
                prefix.push(v)[i] != prefix.push(v)[j] by {
                if i < prefix.len() && j < prefix.len() {
                } else if i == prefix.len() {
                    assert(prefix.contains(prefix[j]));
                } else if j == prefix.len() {
                    assert(prefix.contains(prefix[i]));
                }
            }
        }
    }
}

pub(crate) fn vec_contains_u32(v: &Vec<u32>, x: u32) -> (r: bool)
    ensures
        r == v@.contains(x),
{
    let mut i: usize = 0;
    while i < v.len()
        invariant
            i <= v@.len(),
            forall|j: int| 0 <= j < i ==> v@[j] != x,
        decreases v@.len() - i,
    {
        if v[i] == x {
            assert(v@[i as int] == x);
            return true;
        }
        i += 1;
    }
    false
}

} // verus!
