use vstd::prelude::*;

verus! {

/// The BLAKE3 digest of a byte string.
pub uninterp spec fn blake3_of(data: Seq<u8>) -> Seq<u8>;

/// The SHA-256 digest of a byte string.
pub uninterp spec fn sha256_of(data: Seq<u8>) -> Seq<u8>;

/// The RIPEMD-160 digest of a byte string.
pub uninterp spec fn ripemd160_of(data: Seq<u8>) -> Seq<u8>;

/// SHA-256 applied twice.
pub open spec fn double_sha256_of(data: Seq<u8>) -> Seq<u8> {
    sha256_of(sha256_of(data))
}

/// RIPEMD-160 of the SHA-256 of the data.
pub open spec fn hash160_of(data: Seq<u8>) -> Seq<u8> {
    ripemd160_of(sha256_of(data))
}

/// Relies on blake3::hash: the 32-byte BLAKE3 digest of the input.
#[verifier::external_body]
pub(crate) fn blake3_hash(data: &[u8]) -> (r: [u8; 32])
    ensures
        r@ == blake3_of(data@),
{
    *blake3::hash(data).as_bytes()
}

/// Relies on sha2::Sha256::digest: the 32-byte SHA-256 digest of the input.
#[verifier::external_body]
pub(crate) fn sha256(data: &[u8]) -> (r: [u8; 32])
    ensures
        r@ == sha256_of(data@),
{
    <sha2::Sha256 as sha2::Digest>::digest(data).into()
}

/// Relies on ripemd::Ripemd160::digest: the 20-byte RIPEMD-160 digest of the input.
#[verifier::external_body]
pub(crate) fn ripemd160(data: &[u8]) -> (r: [u8; 20])
    ensures
        r@ == ripemd160_of(data@),
{
    <ripemd::Ripemd160 as ripemd::Digest>::digest(data).into()
}

/// Copies a byte array into a vector.
pub fn array_to_vec<const N: usize>(a: &[u8; N]) -> (r: Vec<u8>)
    ensures
        r@ == a@,
{
    let mut v: Vec<u8> = Vec::new();
    let mut i: usize = 0;
    while i < N
        invariant
            i <= N,
            N == a@.len(),
            v@ == a@.subrange(0, i as int),
        decreases N - i,
    {
        v.push(a[i]);
        i = i + 1;
        assert(v@ =~= a@.subrange(0, i as int));
    }
    assert(v@ =~= a@);
    v
}

/// SHA-256 applied twice to `data`.
pub fn double_sha256(data: &[u8]) -> (r: [u8; 32])
    ensures
        r@ == double_sha256_of(data@),
{
    let first = sha256(data);
    sha256(first.as_slice())
}

/// RIPEMD-160 of the SHA-256 of `pubkey`: 20 bytes.
pub fn hash160(pubkey: &[u8]) -> (r: Vec<u8>)
    ensures
        r@ == hash160_of(pubkey@),
        r@.len() == 20,
{
    let first = sha256(pubkey);
    let second = ripemd160(first.as_slice());
    array_to_vec(&second)
}

} // verus!
