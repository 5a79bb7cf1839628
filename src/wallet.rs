use vstd::prelude::*;
use crate::encoding::append_bytes;
use crate::hash::{double_sha256_of, hash160, hash160_of};
use crate::schnorr::{secret_key_valid, xonly_pubkey_of};

pub use crate::hash::double_sha256;

verus! {

/// The Base58 text of a byte string (Bitcoin alphabet).
pub uninterp spec fn base58_of(data: Seq<u8>) -> Seq<char>;

/// Relies on bs58::encode(..).into_string(): the Base58 text of the input.
#[verifier::external_body]
fn base58_encode(data: &[u8]) -> (r: String)
    ensures
        r@ == base58_of(data@),
{
    bs58::encode(data).into_string()
}

/// Relies on secp256k1's `Keypair::new` drawing from the operating system's random source,
/// `Keypair::secret_key` with `SecretKey::secret_bytes`, and `Keypair::x_only_public_key` with
/// `XOnlyPublicKey::serialize`: a valid secret key and its x-only public key.
#[verifier::external_body]
pub fn keygen() -> (r: ([u8; 32], [u8; 32]))
    ensures
        secret_key_valid(r.0@),
        r.1@ == xonly_pubkey_of(r.0@),
{
    let secp = secp256k1::Secp256k1::new();
    let keypair = secp256k1::Keypair::new(&secp, &mut secp256k1::rand::rngs::OsRng);
    (keypair.secret_key().secret_bytes(), keypair.x_only_public_key().0.serialize())
}

/// The address (recipient commitment) of an x-only public key.
pub open spec fn spec_address(pubkey: Seq<u8>) -> Seq<u8> {
    double_sha256_of(pubkey)
}

/// The address of a public key: its double SHA-256.
pub fn pubkey_to_address(pubkey: &[u8; 32]) -> (r: [u8; 32])
    ensures
        r@ == spec_address(pubkey@),
{
    double_sha256(pubkey.as_slice())
}

/// The four checksum bytes of a payload: the start of its double SHA-256.
pub fn calculate_checksum(data: &[u8]) -> (r: Vec<u8>)
    ensures
        r@ == double_sha256_of(data@).subrange(0, 4),
{
    let hash = double_sha256(data);
    let mut r: Vec<u8> = Vec::new();
    r.push(hash[0]);
    r.push(hash[1]);
    r.push(hash[2]);
    r.push(hash[3]);
    assert(r@ =~= hash@.subrange(0, 4));
    r
}

/// The version-0 payload of a public key: a zero byte, then its hash160.
pub open spec fn address_payload(pubkey: Seq<u8>) -> Seq<u8> {
    seq![0x00u8] + hash160_of(pubkey)
}

/// The Base58Check address of a public key: payload and checksum, in Base58.
pub fn generate_base58check_address(pubkey: &[u8]) -> (r: String)
    ensures
        r@ == base58_of(address_payload(pubkey@) + double_sha256_of(address_payload(pubkey@)).subrange(0, 4)),
{
    let h = hash160(pubkey);
    let mut payload: Vec<u8> = vec![0x00];
    append_bytes(&mut payload, h.as_slice());
    assert(payload@ =~= address_payload(pubkey@));
    let checksum = calculate_checksum(payload.as_slice());
    append_bytes(&mut payload, checksum.as_slice());
    base58_encode(payload.as_slice())
}

} // verus!
