use vstd::prelude::*;
use vstd::bytes::{spec_u32_to_le_bytes, u32_from_le_bytes, lemma_auto_spec_u32_to_from_le_bytes};
use crate::encoding::{append_bytes, append_u32_le, sub_array32, sub_vec};

verus! {

/// The 36-byte storage key of an outpoint: the transaction id, then the output index in
/// little-endian order.
pub open spec fn spec_key(txid: Seq<u8>, vout: u32) -> Seq<u8> {
    txid + spec_u32_to_le_bytes(vout)
}

/// The storage key of the outpoint `(txid, vout)`.
pub fn make_key(txid: [u8; 32], vout: u32) -> (key: Vec<u8>)
    ensures
        key@ == spec_key(txid@, vout),
        key@.len() == 36,
{
    let mut key: Vec<u8> = Vec::with_capacity(36);
    append_bytes(&mut key, txid.as_slice());
    append_u32_le(&mut key, vout);
    proof {
        lemma_auto_spec_u32_to_from_le_bytes();
    }
    key
}

/// The outpoint stored under `key`; `None` when the key is not 36 bytes long.
pub fn from_key(key: Vec<u8>) -> (r: Option<([u8; 32], u32)>)
    ensures
        r is Some <==> key@.len() == 36,
        r matches Some((txid, vout)) ==> spec_key(txid@, vout) == key@,
{
    if key.len() != 36 {
        return None;
    }
    let txid = sub_array32(key.as_slice(), 0);
    let tail = sub_vec(key.as_slice(), 32, 4);
    let vout = u32_from_le_bytes(tail.as_slice());
    proof {
        lemma_auto_spec_u32_to_from_le_bytes();
        assert(key@ =~= key@.subrange(0, 32) + key@.subrange(32, 36));
    }
    Some((txid, vout))
}

} // verus!
