use vstd::prelude::*;

verus! {

/// Number of bytes in a node identifier or storage key.
pub const ID_LENGTH: usize = 20;

/// Byte-wise exclusive or of two identifiers of equal length.
pub open spec fn spec_xor_bytes(a: Seq<u8>, b: Seq<u8>) -> Seq<u8> {
    Seq::new(a.len(), |i: int| a[i] ^ b[i])
}

/// XOR of an identifier with itself is the all-zero string: every
/// identifier is at distance zero from itself.
pub proof fn lemma_xor_self_is_zero(a: Seq<u8>)
    ensures
        spec_xor_bytes(a, a) == Seq::new(a.len(), |i: int| 0u8),
{
    assert(forall|x: u8| #[trigger] (x ^ x) == 0) by (bit_vector);
    assert(spec_xor_bytes(a, a) =~= Seq::new(a.len(), |i: int| 0u8));
}

/// XOR distance is symmetric in its two arguments.
pub proof fn lemma_xor_symmetric(a: Seq<u8>, b: Seq<u8>)
    requires
        a.len() == b.len(),
    ensures
        spec_xor_bytes(a, b) == spec_xor_bytes(b, a),
{
    assert(forall|x: u8, y: u8| #[trigger] (x ^ y) == y ^ x) by (bit_vector);
    assert(spec_xor_bytes(a, b) =~= spec_xor_bytes(b, a));
}

} // verus!
