use vstd::prelude::*;

verus! {

/// Whether 32 bytes are a valid secp256k1 secret key (non-zero and below the group order).
pub uninterp spec fn secret_key_valid(secret: Seq<u8>) -> bool;

/// The BIP-340 x-only public key of a secret key.
pub uninterp spec fn xonly_pubkey_of(secret: Seq<u8>) -> Seq<u8>;

/// Whether 32 bytes are the x coordinate of a secp256k1 point.
pub uninterp spec fn xonly_key_valid(pubkey: Seq<u8>) -> bool;

/// Whether a 64-byte BIP-340 signature is valid for a message under an x-only public key.
pub uninterp spec fn schnorr_valid(sig: Seq<u8>, msg: Seq<u8>, pubkey: Seq<u8>) -> bool;

/// Relies on secp256k1's `SecretKey::from_byte_array` (fails exactly on an invalid secret
/// key), `Keypair::from_secret_key`, `Keypair::x_only_public_key` with
/// `XOnlyPublicKey::serialize`, and `Secp256k1::sign_schnorr`, whose auxiliary randomness
/// makes the signature itself unpredictable; what is promised is that it verifies under the
/// key pair's x-only public key, and that this key parses.
#[verifier::external_body]
pub(crate) fn schnorr_sign(msg: &[u8; 32], secret: &[u8; 32]) -> (r: Option<([u8; 64], [u8; 32])>)
    ensures
        r.is_some() == secret_key_valid(secret@),
        r matches Some((sig, pk)) ==> {
            &&& pk@ == xonly_pubkey_of(secret@)
            &&& xonly_key_valid(pk@)
            &&& schnorr_valid(sig@, msg@, pk@)
        },
{
    let secp = secp256k1::Secp256k1::new();
    let sk = secp256k1::SecretKey::from_byte_array(secret).ok()?;
    let keypair = secp256k1::Keypair::from_secret_key(&secp, &sk);
    let sig = secp.sign_schnorr(msg, &keypair);
    Some((sig.to_byte_array(), keypair.x_only_public_key().0.serialize()))
}

/// Relies on secp256k1's `XOnlyPublicKey::from_byte_array` (fails exactly on bytes that are
/// no point's x coordinate), `schnorr::Signature::from_byte_array` and
/// `Secp256k1::verify_schnorr`.
#[verifier::external_body]
pub(crate) fn schnorr_verify(sig: &[u8; 64], msg: &[u8; 32], pubkey: &[u8; 32]) -> (r: Option<bool>)
    ensures
        r == (if xonly_key_valid(pubkey@) {
            Some(schnorr_valid(sig@, msg@, pubkey@))
        } else {
            None
        }),
{
    let secp = secp256k1::Secp256k1::verification_only();
    let pk = secp256k1::XOnlyPublicKey::from_byte_array(pubkey).ok()?;
    let sig = secp256k1::schnorr::Signature::from_byte_array(*sig);
    Some(secp.verify_schnorr(&sig, msg, &pk).is_ok())
}

} // verus!
