use vstd::prelude::*;
use crate::bytes_util::{push_bytes, push_u64_be, spec_u64_be, bytes_eq};
use crate::crypto::{sha256, sha256_of};

verus! {

/// The `i`-th hex nibble of a byte string, most significant nibble of each
/// byte first.
pub open spec fn spec_nibble(h: Seq<u8>, i: int) -> u8 {
    if i % 2 == 0 {
        h[i / 2] >> 4
    } else {
        h[i / 2] & 0x0f
    }
}

/// Whether the first `d` hex nibbles of `h` are all zero.
pub open spec fn spec_meets_difficulty(h: Seq<u8>, d: nat) -> bool {
    &&& d <= 2 * h.len()
    &&& forall|i: int| 0 <= i < d ==> spec_nibble(h, i) == 0
}

/// The bytes whose digest a proof of work is computed over: the claimed
/// identifier followed by the big-endian nonce.
pub open spec fn spec_pow_message(id: Seq<u8>, nonce: u64) -> Seq<u8> {
    id + spec_u64_be(nonce)
}

/// True when the first `difficulty` hex nibbles of `h` are zero.
pub fn meets_difficulty(h: &Vec<u8>, difficulty: usize) -> (r: bool)
    ensures
        r == spec_meets_difficulty(h@, difficulty as nat),
{
    if difficulty / 2 > h.len() || (difficulty / 2 == h.len() && difficulty % 2 == 1) {
        return false;
    }
    let mut i: usize = 0;
    while i < difficulty
        invariant
            difficulty <= 2 * h@.len(),
            i <= difficulty,
            forall|j: int| 0 <= j < i ==> spec_nibble(h@, j) == 0,
        decreases difficulty - i,
    {
        let byte = h[i / 2];
        let nib = if i % 2 == 0 {
            byte >> 4
        } else {
            byte & 0x0f
        };
        if nib != 0 {
            proof {
                assert(spec_nibble(h@, i as int) == nib);
            }
            return false;
        }
        i += 1;
    }
    true
}

/// The digest a prover must exhibit for `id` and `nonce`.
pub fn compute_pow_hash(id: &Vec<u8>, nonce: u64) -> (r: Vec<u8>)
    ensures
        r@ == sha256_of(spec_pow_message(id@, nonce)),
        r@.len() == 32,
{
    let mut msg: Vec<u8> = Vec::new();
    push_bytes(&mut msg, id);
    push_u64_be(&mut msg, nonce);
    proof {
        assert(msg@ =~= spec_pow_message(id@, nonce));
    }
    sha256(&msg)
}

/// Accepts a claimed proof of work exactly when the recomputed digest over
/// `id` and `nonce` equals `claimed` and that digest starts with at least
/// `difficulty` zero hex nibbles.
pub fn verify_pow(id: &Vec<u8>, nonce: u64, claimed: &Vec<u8>, difficulty: usize) -> (r: bool)
    ensures
        r == (claimed@ == sha256_of(spec_pow_message(id@, nonce))
            && spec_meets_difficulty(claimed@, difficulty as nat)),
{
    let recomputed = compute_pow_hash(id, nonce);
    if !bytes_eq(claimed, &recomputed) {
        return false;
    }
    meets_difficulty(claimed, difficulty)
}

/// Searches nonces from zero upward for a digest that meets `difficulty`,
/// giving up after `max_attempts` tries. Any pair returned passes
/// `verify_pow`.
pub fn find_pow_nonce(id: &Vec<u8>, difficulty: usize, max_attempts: u64) -> (r: Option<
    (u64, Vec<u8>),
>)
    ensures
        match r {
            Some(p) => p.1@ == sha256_of(spec_pow_message(id@, p.0))
                && spec_meets_difficulty(p.1@, difficulty as nat),
            None => forall|n: u64|
                n < max_attempts ==> !#[trigger] spec_meets_difficulty(
                    sha256_of(spec_pow_message(id@, n)),
                    difficulty as nat,
                ),
        },
{
    let mut nonce: u64 = 0;
    while nonce < max_attempts
        invariant
            nonce <= max_attempts,
            forall|n: u64|
                n < nonce ==> !#[trigger] spec_meets_difficulty(
                    sha256_of(spec_pow_message(id@, n)),
                    difficulty as nat,
                ),
        decreases max_attempts - nonce,
    {
        let h = compute_pow_hash(id, nonce);
        if meets_difficulty(&h, difficulty) {
            return Some((nonce, h));
        }
        nonce += 1;
    }
    None
}

} // verus!
