//! The hashing, signing and key-wiping primitives that this library relies on.

use vstd::prelude::*;
use kaspa_hashes::{TransactionID, TransactionSigningHash};
use zeroize::Zeroize;

verus! {

/// What the keyed `TransactionID` BLAKE2b hasher gives for some bytes.
pub uninterp spec fn transaction_id_hash(data: Seq<u8>) -> Seq<u8>;

/// What the keyed `TransactionSigningHash` BLAKE2b hasher gives for some bytes.
pub uninterp spec fn signing_hash(data: Seq<u8>) -> Seq<u8>;

/// Whether secp256k1 accepts 32 bytes as a secret key.
pub uninterp spec fn keypair_accepts(secret: Seq<u8>) -> bool;

/// The x-only public key that secp256k1 derives from a secret key.
pub uninterp spec fn schnorr_public_key(secret: Seq<u8>) -> Seq<u8>;

/// The BIP-340 signature, without auxiliary randomness, of a digest.
pub uninterp spec fn schnorr_signature(digest: Seq<u8>, secret: Seq<u8>) -> Seq<u8>;

/// Whether a BIP-340 signature of a digest verifies against an x-only key.
pub uninterp spec fn schnorr_verifies(signature: Seq<u8>, digest: Seq<u8>, key: Seq<u8>) -> bool;

/// Relies on `kaspa_hashes::TransactionID`: the 32-byte digest of the bytes.
#[verifier::external_body]
pub(crate) fn hash_transaction_id(data: &Vec<u8>) -> (r: [u8; 32])
    ensures
        r@ == transaction_id_hash(data@),
{
    let mut hasher = TransactionID::new();
    hasher.write(data.as_slice());
    hasher.finalize().as_bytes()
}

/// Relies on `kaspa_hashes::TransactionSigningHash`: the 32-byte digest of the bytes.
#[verifier::external_body]
pub(crate) fn hash_for_signing(data: &Vec<u8>) -> (r: [u8; 32])
    ensures
        r@ == signing_hash(data@),
{
    let mut hasher = TransactionSigningHash::new();
    hasher.write(data.as_slice());
    hasher.finalize().as_bytes()
}

/// Relies on `secp256k1::Keypair::from_seckey_slice` and `x_only_public_key`:
/// the key when the secret is valid.
#[verifier::external_body]
pub(crate) fn x_only_public_key(secret: &[u8; 32]) -> (r: Option<[u8; 32]>)
    ensures
        r is Some == keypair_accepts(secret@),
        r matches Some(k) ==> k@ == schnorr_public_key(secret@),
{
    let secp = secp256k1::Secp256k1::new();
    match secp256k1::Keypair::from_seckey_slice(&secp, secret) {
        Ok(kp) => Some(kp.x_only_public_key().0.serialize()),
        Err(_) => None,
    }
}

/// Relies on `secp256k1::Secp256k1::sign_schnorr_no_aux_rand`: a deterministic
/// signature when the secret is valid.
#[verifier::external_body]
pub(crate) fn sign_schnorr(digest: &[u8; 32], secret: &[u8; 32]) -> (r: Option<[u8; 64]>)
    ensures
        r is Some == keypair_accepts(secret@),
        r matches Some(s) ==> s@ == schnorr_signature(digest@, secret@),
{
    let secp = secp256k1::Secp256k1::new();
    match secp256k1::Keypair::from_seckey_slice(&secp, secret) {
        Ok(kp) => {
            let msg = secp256k1::Message::from_digest(*digest);
            Some(secp.sign_schnorr_no_aux_rand(&msg, &kp).serialize())
        },
        Err(_) => None,
    }
}

/// Relies on `secp256k1::XOnlyPublicKey::from_slice` and
/// `Secp256k1::verify_schnorr`: whether the key parses and the signature verifies.
#[verifier::external_body]
pub(crate) fn verify_schnorr(signature: &[u8], digest: &[u8; 32], key: &[u8]) -> (r: bool)
    ensures
        r == schnorr_verifies(signature@, digest@, key@),
{
    let secp = secp256k1::Secp256k1::verification_only();
    let msg = secp256k1::Message::from_digest(*digest);
    match (
        secp256k1::XOnlyPublicKey::from_slice(key),
        secp256k1::schnorr::Signature::from_slice(signature),
    ) {
        (Ok(k), Ok(s)) => secp.verify_schnorr(&s, &msg, &k).is_ok(),
        _ => false,
    }
}

/// Relies on `zeroize::Zeroize` for byte arrays: every byte is overwritten with zero.
#[verifier::external_body]
pub(crate) fn wipe(secret: &mut [u8; 32])
    ensures
        final(secret)@ == Seq::new(32, |i: int| 0u8),
{
    secret.zeroize();
}

} // verus!
