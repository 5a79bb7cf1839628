use vstd::prelude::*;
use crate::encoding::{append_bytes, sub_vec};
use crate::hash::{array_to_vec, hash160, hash160_of, sha256, sha256_of};

verus! {

/// The output templates that are recognised.
#[derive(Clone, Debug)]
pub enum ScriptPubKey {
    /// Pay to witness public key hash: a 20-byte key hash.
    P2WPKH(Vec<u8>),
    /// Pay to witness script hash: a 32-byte script hash.
    P2WSH(Vec<u8>),
    /// Pay to taproot: a 32-byte output key.
    P2TR(Vec<u8>),
}

/// The script bytes of an output template.
pub open spec fn spec_script_bytes(s: ScriptPubKey) -> Seq<u8> {
    match s {
        ScriptPubKey::P2WPKH(h) => seq![0x00u8, 0x14u8] + h@,
        ScriptPubKey::P2WSH(h) => seq![0x00u8, 0x20u8] + h@,
        ScriptPubKey::P2TR(k) => seq![0x51u8] + k@,
    }
}

impl ScriptPubKey {
    /// The script bytes: `OP_0` and a 20- or 32-byte push for the witness versions 0,
    /// `OP_1` and the output key for taproot.
    pub fn to_bytes(&self) -> (r: Vec<u8>)
        ensures
            r@ == spec_script_bytes(*self),
    {
        match self {
            ScriptPubKey::P2WPKH(hash) => {
                let mut script: Vec<u8> = vec![0x00, 0x14];
                append_bytes(&mut script, hash.as_slice());
                script
            },
            ScriptPubKey::P2WSH(hash) => {
                let mut script: Vec<u8> = vec![0x00, 0x20];
                append_bytes(&mut script, hash.as_slice());
                script
            },
            ScriptPubKey::P2TR(output_key) => {
                let mut script: Vec<u8> = vec![0x51];
                append_bytes(&mut script, output_key.as_slice());
                script
            },
        }
    }

    /// The P2WPKH template for a public key: its RIPEMD-160 of SHA-256.
    pub fn create_p2wpkh(pubkey: &[u8]) -> (r: ScriptPubKey)
        ensures
            r matches ScriptPubKey::P2WPKH(h) && h@ == hash160_of(pubkey@),
    {
        ScriptPubKey::P2WPKH(hash160(pubkey))
    }

    /// The P2WSH template for a redeem script: its SHA-256.
    pub fn create_p2wsh(redeem_script: &[u8]) -> (r: ScriptPubKey)
        ensures
            r matches ScriptPubKey::P2WSH(h) && h@ == sha256_of(redeem_script@),
    {
        let hash = sha256(redeem_script);
        ScriptPubKey::P2WSH(array_to_vec(&hash))
    }

    /// The P2TR template for an output key.
    pub fn create_p2tr(output_key: &[u8]) -> (r: ScriptPubKey)
        ensures
            r matches ScriptPubKey::P2TR(k) && k@ == output_key@,
    {
        ScriptPubKey::P2TR(sub_vec(output_key, 0, output_key.len()))
    }
}

/// A witness: a stack of byte strings.
#[derive(Clone, Debug)]
pub struct Witness {
    pub items: Vec<Vec<u8>>,
}

/// The byte values of a witness's items.
pub open spec fn items_view(items: Seq<Vec<u8>>) -> Seq<Seq<u8>> {
    items.map_values(|v: Vec<u8>| v@)
}

/// The P2WPKH witness: the signature, then the public key.
pub fn create_witness_p2wpkh(signature: &[u8], pubkey: &[u8]) -> (w: Witness)
    ensures
        items_view(w.items@) == seq![signature@, pubkey@],
{
    let w = Witness {
        items: vec![sub_vec(signature, 0, signature.len()), sub_vec(pubkey, 0, pubkey.len())],
    };
    assert(signature@.subrange(0, signature@.len() as int) =~= signature@);
    assert(pubkey@.subrange(0, pubkey@.len() as int) =~= pubkey@);
    assert(items_view(w.items@) =~= seq![signature@, pubkey@]);
    w
}

/// The P2WSH witness: the signatures in order, then the redeem script.
pub fn create_witness_p2wsh(signatures: Vec<&[u8]>, redeem_script: &[u8]) -> (w: Witness)
    ensures
        items_view(w.items@) == signatures@.map_values(|s: &[u8]| s@).push(redeem_script@),
{
    let ghost sigs = signatures@.map_values(|s: &[u8]| s@);
    let mut items: Vec<Vec<u8>> = Vec::new();
    let mut i: usize = 0;
    while i < signatures.len()
        invariant
            i <= signatures@.len(),
            sigs == signatures@.map_values(|s: &[u8]| s@),
            items@.len() == i,
            items_view(items@) == sigs.subrange(0, i as int),
        decreases signatures@.len() - i,
    {
        let sig: &[u8] = signatures[i];
        let item = sub_vec(sig, 0, sig.len());
        assert(item@ =~= sig@);
        assert(sigs[i as int] == sig@);
        let ghost before = items@;
        items.push(item);
        assert(items@ == before.push(item));
        assert forall|j: int| 0 <= j <= i implies #[trigger] items_view(items@)[j] == sigs.subrange(0, i + 1)[j] by {
            if j < i {
                assert(items_view(before)[j] == sigs.subrange(0, i as int)[j]);
            }
        }
        i = i + 1;
        assert(items_view(items@) =~= sigs.subrange(0, i as int));
    }
    let script = sub_vec(redeem_script, 0, redeem_script.len());
    assert(script@ =~= redeem_script@);
    let ghost before = items@;
    items.push(script);
    assert(items@ == before.push(script));
    assert(sigs.subrange(0, i as int) =~= sigs);
    assert(items_view(items@) =~= sigs.push(redeem_script@));
    Witness { items }
}

} // verus!
