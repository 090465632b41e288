use vstd::prelude::*;
use ed25519_dalek::Signer;
use ed25519_dalek::Verifier;
use sha2::Digest;

verus! {

/// The SHA-256 digest of a byte string. The digest is a pure function of the
/// bytes alone; its value is not restated here.
pub uninterp spec fn sha256_of(data: Seq<u8>) -> Seq<u8>;

/// The Ed25519 signature that the secret key `sk` produces over `msg`.
/// Ed25519 signing is deterministic, so the result depends on the two
/// arguments alone.
pub uninterp spec fn ed25519_sig_of(sk: Seq<u8>, msg: Seq<u8>) -> Seq<u8>;

/// The 32 public-key bytes derived from the 32 secret-key bytes `sk`.
pub uninterp spec fn ed25519_public_of(sk: Seq<u8>) -> Seq<u8>;

/// Whether the bytes `vk` decode to an Ed25519 public key under which `sig`
/// is a valid signature over `msg`.
pub uninterp spec fn ed25519_verifies(vk: Seq<u8>, msg: Seq<u8>, sig: Seq<u8>) -> bool;

/// Relies on sha2's `Sha256::digest`: a 32-byte digest computed from the
/// input bytes alone.
#[verifier::external_body]
pub fn sha256(data: &Vec<u8>) -> (r: Vec<u8>)
    ensures
        r@ == sha256_of(data@),
        r@.len() == 32,
{
    sha2::Sha256::digest(data.as_slice()).to_vec()
}

/// Relies on ed25519_dalek's `SigningKey::from_bytes` (infallible on 32
/// bytes) and `SigningKey::verifying_key`: the public key is derived from the
/// secret key alone.
#[verifier::external_body]
pub fn ed25519_public_key(sk: &Vec<u8>) -> (r: Vec<u8>)
    requires
        sk@.len() == 32,
    ensures
        r@ == ed25519_public_of(sk@),
        r@.len() == 32,
{
    let secret: [u8; 32] = sk.as_slice().try_into().unwrap();
    ed25519_dalek::SigningKey::from_bytes(&secret).verifying_key().to_bytes().to_vec()
}

/// Relies on ed25519_dalek's `SigningKey::sign` (RFC 8032 deterministic
/// signing; `try_sign` never fails for `SigningKey`), and on the library's
/// guarantee that a signature it produces verifies under the matching
/// public key.
#[verifier::external_body]
pub fn ed25519_sign(sk: &Vec<u8>, msg: &Vec<u8>) -> (r: Vec<u8>)
    requires
        sk@.len() == 32,
    ensures
        r@ == ed25519_sig_of(sk@, msg@),
        r@.len() == 64,
        ed25519_verifies(ed25519_public_of(sk@), msg@, r@),
{
    let secret: [u8; 32] = sk.as_slice().try_into().unwrap();
    let signer = ed25519_dalek::SigningKey::from_bytes(&secret);
    signer.sign(msg.as_slice()).to_bytes().to_vec()
}

/// Relies on ed25519_dalek's `VerifyingKey::from_bytes` and
/// `VerifyingKey::verify`: whether the signature bytes check out is a pure
/// function of key bytes, message and signature bytes. Malformed key or
/// signature bytes never verify.
#[verifier::external_body]
pub fn ed25519_verify(vk: &Vec<u8>, msg: &Vec<u8>, sig: &Vec<u8>) -> (r: bool)
    ensures
        r == ed25519_verifies(vk@, msg@, sig@),
{
    let key_bytes: [u8; 32] = match vk.as_slice().try_into() {
        Ok(b) => b,
        Err(_) => return false,
    };
    let key = match ed25519_dalek::VerifyingKey::from_bytes(&key_bytes) {
        Ok(k) => k,
        Err(_) => return false,
    };
    let signature = match ed25519_dalek::Signature::from_slice(sig.as_slice()) {
        Ok(s) => s,
        Err(_) => return false,
    };
    key.verify(msg.as_slice(), &signature).is_ok()
}

} // verus!
