//! Cryptographic primitives the message plane relies on, behind
//! trusted contracts: SHA-256 digests and Ed25519 signature checks.

use sha2::Digest;
use vstd::prelude::*;

verus! {

/// The SHA-256 digest of a byte string.
pub uninterp spec fn sha256_of(data: Seq<u8>) -> Seq<u8>;

/// Relies on sha2::Sha256::digest: the 32-byte digest depends on the
/// input bytes alone.
#[verifier::external_body]
pub fn sha256(data: &Vec<u8>) -> (r: Vec<u8>)
    ensures
        r@ == sha256_of(data@),
        r@.len() == 32,
{
    sha2::Sha256::digest(data.as_slice()).to_vec()
}

/// Whether `sig` is a valid Ed25519 signature over `msg` under the
/// public key `pk`.
pub uninterp spec fn ed25519_valid(pk: Seq<u8>, msg: Seq<u8>, sig: Seq<u8>) -> bool;

/// Relies on ed25519_compact::PublicKey::verify, reached through
/// PublicKey::from_slice and Signature::from_slice, which accept
/// exactly 32-byte keys and 64-byte signatures: whether a signature
/// verifies depends on the key, message and signature bytes alone.
#[verifier::external_body]
pub fn ed25519_verify(pk: &Vec<u8>, msg: &Vec<u8>, sig: &Vec<u8>) -> (r: bool)
    ensures
        r == ed25519_valid(pk@, msg@, sig@),
        pk@.len() != 32 ==> !r,
        sig@.len() != 64 ==> !r,
{
    let pk = match ed25519_compact::PublicKey::from_slice(pk.as_slice()) {
        Ok(k) => k,
        Err(_) => return false,
    };
    let sig = match ed25519_compact::Signature::from_slice(sig.as_slice()) {
        Ok(s) => s,
        Err(_) => return false,
    };
    pk.verify(msg.as_slice(), &sig).is_ok()
}

} // verus!
