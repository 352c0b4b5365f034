//! A digest of a path: a number that paths of the same keys share, by which
//! a map can find a path without comparing it with every other.

use vstd::prelude::*;
use vstd::string::StringSliceAdditionalSpecFns;

verus! {

/// The digest of the path without keys.
pub const DIGEST_SEED: u64 = 0xcbf2_9ce4_8422_2325;

/// The multiplier of each step.
pub const DIGEST_PRIME: u64 = 0x0000_0100_0000_01b3;

/// The byte that closes a key. No key holds it: it occurs in no UTF-8 text.
pub const KEY_END: u8 = 0xff;

/// The digest after one more byte.
pub open spec fn absorb_byte(state: u64, byte: u8) -> u64 {
    (state ^ (byte as u64)).wrapping_mul(DIGEST_PRIME)
}

/// The digest after the bytes, taken in their order.
pub open spec fn absorb(state: u64, bytes: Seq<u8>) -> u64
    decreases bytes.len(),
{
    if bytes.len() == 0 {
        state
    } else {
        absorb_byte(absorb(state, bytes.drop_last()), bytes.last())
    }
}

/// The digest after one more key: the key's bytes, then the closing byte.
pub open spec fn absorb_key(state: u64, key: Seq<char>) -> u64 {
    absorb_byte(absorb(state, vstd::utf8::encode_utf8(key)), KEY_END)
}

/// The digest of a path, given as its keys from the root down.
pub open spec fn path_digest(path: Seq<Seq<char>>) -> u64
    decreases path.len(),
{
    if path.len() == 0 {
        DIGEST_SEED
    } else {
        absorb_key(path_digest(path.drop_last()), path.last())
    }
}

/// The digest of a path with one more key is the digest of the path after
/// that key.
pub proof fn lemma_digest_push(path: Seq<Seq<char>>, key: Seq<char>)
    ensures
        path_digest(path.push(key)) == absorb_key(path_digest(path), key),
{
    assert(path.push(key).drop_last() =~= path);
}

/// The digest of a path of one key.
pub proof fn lemma_digest_root(key: Seq<char>)
    ensures
        path_digest(seq![key]) == absorb_key(DIGEST_SEED, key),
{
    assert(seq![key].drop_last() =~= Seq::<Seq<char>>::empty());
    assert(path_digest(Seq::<Seq<char>>::empty()) == DIGEST_SEED);
}

/// Takes `state` on by one key.
pub fn digest_key(state: u64, key: &str) -> (digest: u64)
    ensures
        digest == absorb_key(state, key@),
{
    let bytes = key.as_bytes();
    let mut digest: u64 = state;
    let mut i: usize = 0;
    while i < bytes.len()
        invariant
            i <= bytes@.len(),
            digest == absorb(state, bytes@.take(i as int)),
        decreases bytes@.len() - i,
    {
        proof {
            assert(bytes@.take(i + 1).drop_last() =~= bytes@.take(i as int));
        }
        digest = (digest ^ (bytes[i] as u64)).wrapping_mul(DIGEST_PRIME);
        i += 1;
    }
    proof {
        assert(bytes@.take(i as int) =~= bytes@);
        assert(bytes@ == key.spec_bytes());
    }
    (digest ^ (KEY_END as u64)).wrapping_mul(DIGEST_PRIME)
}

} // verus!
