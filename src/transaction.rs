use vstd::prelude::*;
use vstd::bytes::{spec_u32_to_le_bytes, spec_u64_to_le_bytes};
use crate::encoding::{append_bytes, append_u32_le, append_u64_le, is_zero32, zero32};
use crate::hash::{double_sha256, double_sha256_of};
use crate::schnorr::{schnorr_sign, schnorr_verify, schnorr_valid, secret_key_valid, xonly_key_valid, xonly_pubkey_of};

verus! {

/// A BIP-340 signature split into its two 32-byte halves.
#[derive(Clone, Copy, Debug)]
pub struct SchnorrSignature {
    pub r: [u8; 32],
    pub s: [u8; 32],
}

impl SchnorrSignature {
    /// The 64 signature bytes: `r` then `s`.
    pub open spec fn bytes(self) -> Seq<u8> {
        self.r@ + self.s@
    }

    /// Splits 64 bytes into `r` (the first 32) and `s` (the last 32).
    pub fn from_bytes(sig: [u8; 64]) -> (r: SchnorrSignature)
        ensures
            r.bytes() == sig@,
    {
        let mut r: [u8; 32] = [0u8; 32];
        let mut s: [u8; 32] = [0u8; 32];
        let mut i: usize = 0;
        while i < 32
            invariant
                i <= 32,
                sig@.len() == 64,
                forall|j: int| 0 <= j < i ==> r@[j] == sig@[j] && s@[j] == sig@[j + 32],
            decreases 32 - i,
        {
            r[i] = sig[i];
            s[i] = sig[i + 32];
            i = i + 1;
        }
        let out = SchnorrSignature { r, s };
        assert(out.bytes() =~= sig@);
        out
    }

    /// Joins `r` and `s` into 64 bytes.
    pub fn to_bytes(&self) -> (b: [u8; 64])
        ensures
            b@ == self.bytes(),
    {
        let mut b: [u8; 64] = [0u8; 64];
        let mut i: usize = 0;
        while i < 32
            invariant
                i <= 32,
                b@.len() == 64,
                forall|j: int| 0 <= j < i ==> b@[j] == self.r@[j] && b@[j + 32] == self.s@[j],
            decreases 32 - i,
        {
            b[i] = self.r[i];
            b[i + 32] = self.s[i];
            i = i + 1;
        }
        assert(b@ =~= self.bytes());
        b
    }
}

impl From<[u8; 64]> for SchnorrSignature {
    fn from(sig: [u8; 64]) -> (r: SchnorrSignature) {
        let r = SchnorrSignature::from_bytes(sig);
        proof {
            let c = choose|c: SchnorrSignature| c.bytes() == sig@;
            assert(c.r@ =~= c.bytes().subrange(0, 32));
            assert(r.r@ =~= r.bytes().subrange(0, 32));
            assert(c.s@ =~= c.bytes().subrange(32, 64));
            assert(r.s@ =~= r.bytes().subrange(32, 64));
            assert(c.r == r.r);
            assert(c.s == r.s);
        }
        r
    }
}

impl vstd::std_specs::convert::FromSpecImpl<[u8; 64]> for SchnorrSignature {
    open spec fn obeys_from_spec() -> bool {
        true
    }

    open spec fn from_spec(sig: [u8; 64]) -> SchnorrSignature {
        choose|s: SchnorrSignature| s.bytes() == sig@
    }
}

/// Data carried by the input of a coinbase transaction.
#[derive(Clone, Copy, Debug)]
pub struct CoinbaseData {
    pub block_height: u32,
}

/// What kind of input a transaction input is.
#[derive(Clone, Copy, Debug)]
pub enum TxInData {
    Standard,
    Coinbase(CoinbaseData),
}

/// A transaction input: the outpoint it spends, the spender's key and signature.
#[derive(Clone, Copy, Debug)]
pub struct TxIn {
    pub previous_txid: [u8; 32],
    pub previous_vout: u32,
    pub pubkey: [u8; 32],
    pub signature: SchnorrSignature,
    pub tx_in_data: TxInData,
}

/// A transaction output: an amount and the commitment of its owner.
#[derive(Clone, Copy, Debug)]
pub struct TxOut {
    pub value: u64,
    pub recipient_hash: [u8; 32],
}

/// A transaction.
#[derive(Clone, Debug)]
pub struct Transaction {
    pub version: u32,
    pub inputs: Vec<TxIn>,
    pub outputs: Vec<TxOut>,
    pub lock_time: u32,
}

/// Which inputs and outputs a signature commits to.
#[derive(Clone, Copy, Debug, PartialEq, Eq, Structural)]
pub enum SigHashType {
    All,
    NoOutputs,
    Single,
    AllAnyoneCanPay,
    NoOutputsAnyoneCanPay,
    SingleAnyoneCanPay,
}

/// Why a preimage could not be built or a signature could not be made or checked.
#[derive(Clone, Copy, Debug, PartialEq, Eq, Structural)]
pub enum TxError {
    /// The signature mode needs an index and none was given.
    MissingIndex,
    /// The input index is not below the number of inputs.
    InputIndexOutOfRange,
    /// The output index is not below the number of outputs.
    OutputIndexOutOfRange,
    /// The secret key bytes are not a valid secret key.
    InvalidSecretKey,
    /// The public key bytes are not a valid x-only public key.
    InvalidPublicKey,
}

/// The bytes an input contributes: outpoint, public key, and the height of a coinbase.
pub open spec fn input_bytes(i: TxIn) -> Seq<u8> {
    i.previous_txid@ + spec_u32_to_le_bytes(i.previous_vout) + i.pubkey@ + match i.tx_in_data {
        TxInData::Standard => Seq::<u8>::empty(),
        TxInData::Coinbase(c) => spec_u32_to_le_bytes(c.block_height),
    }
}

/// The bytes of a sequence of inputs, in order.
pub open spec fn inputs_bytes(s: Seq<TxIn>) -> Seq<u8>
    decreases s.len(),
{
    if s.len() == 0 {
        Seq::empty()
    } else {
        inputs_bytes(s.drop_last()) + input_bytes(s.last())
    }
}

/// The bytes an output contributes: value, then recipient commitment.
pub open spec fn output_bytes(o: TxOut) -> Seq<u8> {
    spec_u64_to_le_bytes(o.value) + o.recipient_hash@
}

/// The bytes of a sequence of outputs, in order.
pub open spec fn outputs_bytes(s: Seq<TxOut>) -> Seq<u8>
    decreases s.len(),
{
    if s.len() == 0 {
        Seq::empty()
    } else {
        outputs_bytes(s.drop_last()) + output_bytes(s.last())
    }
}

/// The canonical encoding of a transaction: every input and every output.
pub open spec fn tx_bytes(tx: Transaction) -> Seq<u8> {
    spec_u32_to_le_bytes(tx.version) + inputs_bytes(tx.inputs@) + outputs_bytes(tx.outputs@)
        + spec_u32_to_le_bytes(tx.lock_time)
}

/// The identity of a transaction.
pub open spec fn spec_tx_hash(tx: Transaction) -> Seq<u8> {
    double_sha256_of(tx_bytes(tx))
}

/// The modes that commit to the signed input alone.
pub open spec fn anyone_can_pay(mode: SigHashType) -> bool {
    mode == SigHashType::AllAnyoneCanPay || mode == SigHashType::NoOutputsAnyoneCanPay
        || mode == SigHashType::SingleAnyoneCanPay
}

/// The modes that commit to every output.
pub open spec fn commits_all_outputs(mode: SigHashType) -> bool {
    mode == SigHashType::All || mode == SigHashType::AllAnyoneCanPay
}

/// The modes that commit to the output at the signed index.
pub open spec fn commits_single_output(mode: SigHashType) -> bool {
    mode == SigHashType::Single || mode == SigHashType::SingleAnyoneCanPay
}

/// The error, if any, of building the preimage for `mode` and `index`.
pub open spec fn preimage_error(tx: Transaction, mode: SigHashType, index: Option<usize>) -> Option<TxError> {
    if anyone_can_pay(mode) && index is None {
        Some(TxError::MissingIndex)
    } else if anyone_can_pay(mode) && index.unwrap() >= tx.inputs@.len() {
        Some(TxError::InputIndexOutOfRange)
    } else if commits_single_output(mode) && index is None {
        Some(TxError::MissingIndex)
    } else if commits_single_output(mode) && index.unwrap() >= tx.outputs@.len() {
        Some(TxError::OutputIndexOutOfRange)
    } else {
        None
    }
}

/// The sighash preimage for `mode` and `index`, where it can be built.
pub open spec fn preimage_bytes(tx: Transaction, mode: SigHashType, index: Option<usize>) -> Seq<u8> {
    let ins = if anyone_can_pay(mode) {
        input_bytes(tx.inputs@[index.unwrap() as int])
    } else {
        inputs_bytes(tx.inputs@)
    };
    let outs = if commits_all_outputs(mode) {
        outputs_bytes(tx.outputs@)
    } else if commits_single_output(mode) {
        output_bytes(tx.outputs@[index.unwrap() as int])
    } else {
        Seq::empty()
    };
    spec_u32_to_le_bytes(tx.version) + ins + outs + spec_u32_to_le_bytes(tx.lock_time)
}

/// The digest that is signed for input `index` under `mode`.
pub open spec fn sighash_digest(tx: Transaction, mode: SigHashType, index: Option<usize>) -> Seq<u8> {
    double_sha256_of(preimage_bytes(tx, mode, index))
}

/// What verifying `sig` by `pubkey` on input `index` under `mode` yields.
pub open spec fn verify_result(
    tx: Transaction,
    index: usize,
    sig: SchnorrSignature,
    pubkey: Seq<u8>,
    mode: SigHashType,
) -> Result<bool, TxError> {
    match preimage_error(tx, mode, Some(index)) {
        Some(e) => Err(e),
        None => if xonly_key_valid(pubkey) {
            Ok(schnorr_valid(sig.bytes(), sighash_digest(tx, mode, Some(index)), pubkey))
        } else {
            Err(TxError::InvalidPublicKey)
        },
    }
}

/// The input `i` with its signature replaced.
pub open spec fn with_signature(i: TxIn, sig: SchnorrSignature) -> TxIn {
    TxIn { signature: sig, ..i }
}

/// Two input sequences that differ at most in their signatures.
pub open spec fn same_but_signatures(a: Seq<TxIn>, b: Seq<TxIn>) -> bool {
    &&& a.len() == b.len()
    &&& forall|k: int| 0 <= k < a.len() ==> #[trigger] with_signature(a[k], b[k].signature) == b[k]
}

/// The sighash preimage of every mode and index, and so the transaction hash, does not
/// depend on any input's signature.
pub proof fn lemma_preimage_ignores_signatures(
    a: Transaction,
    b: Transaction,
    mode: SigHashType,
    index: Option<usize>,
)
    requires
        same_but_signatures(a.inputs@, b.inputs@),
        a.outputs@ == b.outputs@,
        a.version == b.version,
        a.lock_time == b.lock_time,
    ensures
        preimage_error(a, mode, index) == preimage_error(b, mode, index),
        preimage_error(a, mode, index) is None ==> preimage_bytes(a, mode, index)
            == preimage_bytes(b, mode, index),
        tx_bytes(a) == tx_bytes(b),
{
    lemma_inputs_bytes_ignore_signatures(a.inputs@, b.inputs@);
    if anyone_can_pay(mode) && index is Some && index.unwrap() < a.inputs@.len() {
        let k = index.unwrap() as int;
        assert(with_signature(a.inputs@[k], b.inputs@[k].signature) == b.inputs@[k]);
    }
}

proof fn lemma_inputs_bytes_ignore_signatures(a: Seq<TxIn>, b: Seq<TxIn>)
    requires
        same_but_signatures(a, b),
    ensures
        inputs_bytes(a) == inputs_bytes(b),
    decreases a.len(),
{
    if a.len() > 0 {
        let n = a.len() - 1;
        assert(with_signature(a[n], b[n].signature) == b[n]);
        assert forall|k: int| 0 <= k < a.drop_last().len() implies #[trigger] with_signature(
            a.drop_last()[k],
            b.drop_last()[k].signature,
        ) == b.drop_last()[k] by {
            assert(with_signature(a[k], b[k].signature) == b[k]);
        }
        lemma_inputs_bytes_ignore_signatures(a.drop_last(), b.drop_last());
    }
}

fn append_input(v: &mut Vec<u8>, input: &TxIn)
    ensures
        final(v)@ == old(v)@ + input_bytes(*input),
{
    let ghost start = v@;
    append_bytes(v, input.previous_txid.as_slice());
    append_u32_le(v, input.previous_vout);
    append_bytes(v, input.pubkey.as_slice());
    match input.tx_in_data {
        TxInData::Standard => {},
        TxInData::Coinbase(c) => {
            append_u32_le(v, c.block_height);
        },
    }
    assert(v@ =~= start + input_bytes(*input));
}

fn append_inputs(v: &mut Vec<u8>, inputs: &Vec<TxIn>)
    ensures
        final(v)@ == old(v)@ + inputs_bytes(inputs@),
{
    let ghost start = v@;
    let mut i: usize = 0;
    assert(inputs@.subrange(0, 0) =~= Seq::<TxIn>::empty());
    assert(v@ =~= start + inputs_bytes(inputs@.subrange(0, 0)));
    while i < inputs.len()
        invariant
            i <= inputs@.len(),
            v@ == start + inputs_bytes(inputs@.subrange(0, i as int)),
        decreases inputs@.len() - i,
    {
        append_input(v, &inputs[i]);
        assert(inputs@.subrange(0, i + 1).drop_last() =~= inputs@.subrange(0, i as int));
        i = i + 1;
        assert(v@ =~= start + inputs_bytes(inputs@.subrange(0, i as int)));
    }
    assert(inputs@.subrange(0, inputs@.len() as int) =~= inputs@);
}

fn append_output(v: &mut Vec<u8>, output: &TxOut)
    ensures
        final(v)@ == old(v)@ + output_bytes(*output),
{
    let ghost start = v@;
    append_u64_le(v, output.value);
    append_bytes(v, output.recipient_hash.as_slice());
    assert(v@ =~= start + output_bytes(*output));
}

fn append_outputs(v: &mut Vec<u8>, outputs: &Vec<TxOut>)
    ensures
        final(v)@ == old(v)@ + outputs_bytes(outputs@),
{
    let ghost start = v@;
    let mut i: usize = 0;
    assert(outputs@.subrange(0, 0) =~= Seq::<TxOut>::empty());
    assert(v@ =~= start + outputs_bytes(outputs@.subrange(0, 0)));
    while i < outputs.len()
        invariant
            i <= outputs@.len(),
            v@ == start + outputs_bytes(outputs@.subrange(0, i as int)),
        decreases outputs@.len() - i,
    {
        append_output(v, &outputs[i]);
        assert(outputs@.subrange(0, i + 1).drop_last() =~= outputs@.subrange(0, i as int));
        i = i + 1;
        assert(v@ =~= start + outputs_bytes(outputs@.subrange(0, i as int)));
    }
    assert(outputs@.subrange(0, outputs@.len() as int) =~= outputs@);
}

impl Transaction {
    /// The transaction's identity: double SHA-256 of its canonical encoding.
    pub fn tx_hash(&self) -> (r: [u8; 32])
        ensures
            r@ == spec_tx_hash(*self),
    {
        let mut data: Vec<u8> = Vec::new();
        append_u32_le(&mut data, self.version);
        append_inputs(&mut data, &self.inputs);
        append_outputs(&mut data, &self.outputs);
        append_u32_le(&mut data, self.lock_time);
        assert(data@ =~= tx_bytes(*self));
        double_sha256(data.as_slice())
    }

    /// The sighash preimage for `mode`; `index` names the input (and for the single-output
    /// modes the output) being signed.
    pub fn sighash_preimage(&self, mode: SigHashType, index: Option<usize>) -> (r: Result<Vec<u8>, TxError>)
        ensures
            match r {
                Ok(v) => preimage_error(*self, mode, index) is None && v@ == preimage_bytes(*self, mode, index),
                Err(e) => preimage_error(*self, mode, index) == Some(e),
            },
    {
        let acp = match mode {
            SigHashType::AllAnyoneCanPay | SigHashType::NoOutputsAnyoneCanPay | SigHashType::SingleAnyoneCanPay => true,
            _ => false,
        };
        let single = match mode {
            SigHashType::Single | SigHashType::SingleAnyoneCanPay => true,
            _ => false,
        };
        let all_outputs = match mode {
            SigHashType::All | SigHashType::AllAnyoneCanPay => true,
            _ => false,
        };
        if acp {
            match index {
                None => { return Err(TxError::MissingIndex); },
                Some(k) => if k >= self.inputs.len() {
                    return Err(TxError::InputIndexOutOfRange);
                },
            }
        }
        if single {
            match index {
                None => { return Err(TxError::MissingIndex); },
                Some(k) => if k >= self.outputs.len() {
                    return Err(TxError::OutputIndexOutOfRange);
                },
            }
        }
        let mut data: Vec<u8> = Vec::new();
        append_u32_le(&mut data, self.version);
        let ghost after_version = data@;
        if acp {
            let k = index.unwrap();
            append_input(&mut data, &self.inputs[k]);
        } else {
            append_inputs(&mut data, &self.inputs);
        }
        let ghost after_inputs = data@;
        if all_outputs {
            append_outputs(&mut data, &self.outputs);
        } else if single {
            let k = index.unwrap();
            append_output(&mut data, &self.outputs[k]);
        }
        append_u32_le(&mut data, self.lock_time);
        assert(data@ =~= preimage_bytes(*self, mode, index));
        Ok(data)
    }

    /// Signs input `input_index` under `mode` with the secret key `secret_bytes`, and writes
    /// the signature into that input. Nothing else changes; on an error nothing changes.
    pub fn sign_input(&mut self, input_index: usize, secret_bytes: [u8; 32], mode: SigHashType) -> (r: Result<(), TxError>)
        ensures
            r is Ok <==> {
                &&& input_index < old(self).inputs@.len()
                &&& preimage_error(*old(self), mode, Some(input_index)) is None
                &&& secret_key_valid(secret_bytes@)
            },
            match r {
                Ok(()) => {
                    &&& input_index < old(self).inputs@.len()
                    &&& preimage_error(*old(self), mode, Some(input_index)) is None
                    &&& secret_key_valid(secret_bytes@)
                    &&& final(self).version == old(self).version
                    &&& final(self).lock_time == old(self).lock_time
                    &&& final(self).outputs@ == old(self).outputs@
                    &&& final(self).inputs@ == old(self).inputs@.update(
                        input_index as int,
                        with_signature(
                            old(self).inputs@[input_index as int],
                            final(self).inputs@[input_index as int].signature,
                        ),
                    )
                    &&& verify_result(
                        *final(self),
                        input_index,
                        final(self).inputs@[input_index as int].signature,
                        xonly_pubkey_of(secret_bytes@),
                        mode,
                    ) == Ok::<bool, TxError>(true)
                },
                Err(e) => {
                    &&& *final(self) == *old(self)
                    &&& e == (if input_index >= old(self).inputs@.len() {
                        TxError::InputIndexOutOfRange
                    } else if preimage_error(*old(self), mode, Some(input_index)) is Some {
                        preimage_error(*old(self), mode, Some(input_index)).unwrap()
                    } else {
                        TxError::InvalidSecretKey
                    })
                },
            },
    {
        if input_index >= self.inputs.len() {
            return Err(TxError::InputIndexOutOfRange);
        }
        let preimage = match self.sighash_preimage(mode, Some(input_index)) {
            Ok(p) => p,
            Err(e) => { return Err(e); },
        };
        let digest = double_sha256(preimage.as_slice());
        let (sig, pk) = match schnorr_sign(&digest, &secret_bytes) {
            Some(pair) => pair,
            None => { return Err(TxError::InvalidSecretKey); },
        };
        let ghost before = *self;
        let signature = SchnorrSignature::from_bytes(sig);
        let mut input = self.inputs[input_index];
        input.signature = signature;
        self.inputs.set(input_index, input);
        proof {
            assert(self.inputs@ =~= before.inputs@.update(
                input_index as int,
                with_signature(before.inputs@[input_index as int], signature),
            ));
            assert forall|k: int| 0 <= k < before.inputs@.len() implies #[trigger] with_signature(
                before.inputs@[k],
                self.inputs@[k].signature,
            ) == self.inputs@[k] by {}
            lemma_preimage_ignores_signatures(before, *self, mode, Some(input_index));
        }
        Ok(())
    }

    /// Checks `signature` by `pubkey` on input `input_index` under `mode`. A bad signature
    /// gives `Ok(false)`; malformed public key bytes or a missing or out-of-range index give
    /// an error.
    pub fn verify_input(
        &self,
        input_index: usize,
        signature: SchnorrSignature,
        pubkey: [u8; 32],
        mode: SigHashType,
    ) -> (r: Result<bool, TxError>)
        ensures
            r == verify_result(*self, input_index, signature, pubkey@, mode),
    {
        let preimage = match self.sighash_preimage(mode, Some(input_index)) {
            Ok(p) => p,
            Err(e) => { return Err(e); },
        };
        let digest = double_sha256(preimage.as_slice());
        let sig = signature.to_bytes();
        match schnorr_verify(&sig, &digest, &pubkey) {
            Some(b) => Ok(b),
            None => Err(TxError::InvalidPublicKey),
        }
    }

    /// Whether this is the coinbase of a block at `block_height` paying `reward`.
    pub fn is_valid_coinbase(&self, block_height: u32, reward: u64) -> (r: bool)
        ensures
            r == spec_is_valid_coinbase(*self, block_height, reward),
    {
        if self.inputs.len() != 1 {
            return false;
        }
        if self.outputs.len() != 1 {
            return false;
        }
        if self.outputs[0].value != reward {
            return false;
        }
        let input = &self.inputs[0];
        if !is_zero32(&input.previous_txid) {
            return false;
        }
        if input.previous_vout != u32::MAX {
            return false;
        }
        if !is_zero32(&input.pubkey) {
            return false;
        }
        if !is_zero32(&input.signature.r) || !is_zero32(&input.signature.s) {
            return false;
        }
        match input.tx_in_data {
            TxInData::Coinbase(c) => c.block_height == block_height,
            TxInData::Standard => false,
        }
    }
}

/// The shape of a valid coinbase: one input at the null outpoint with zero key and
/// signature carrying the block height, and one output paying exactly the reward.
pub open spec fn spec_is_valid_coinbase(tx: Transaction, block_height: u32, reward: u64) -> bool {
    &&& tx.inputs@.len() == 1
    &&& tx.outputs@.len() == 1
    &&& tx.outputs@[0].value == reward
    &&& tx.inputs@[0].previous_txid@ == zero32()
    &&& tx.inputs@[0].previous_vout == u32::MAX
    &&& tx.inputs@[0].pubkey@ == zero32()
    &&& tx.inputs@[0].signature.r@ == zero32()
    &&& tx.inputs@[0].signature.s@ == zero32()
    &&& tx.inputs@[0].tx_in_data == TxInData::Coinbase(CoinbaseData { block_height })
}

/// The coinbase of a block at `block_height` paying `reward` to `miner_address`.
pub fn create_coinbase_transaction(reward: u64, miner_address: [u8; 32], block_height: u32) -> (r: Transaction)
    ensures
        r.version == 1,
        r.lock_time == 0,
        r.outputs@.len() == 1,
        r.outputs@[0].recipient_hash == miner_address,
        spec_is_valid_coinbase(r, block_height, reward),
{
    let coinbase_input = TxIn {
        previous_txid: [0u8; 32],
        previous_vout: u32::MAX,
        pubkey: [0u8; 32],
        signature: SchnorrSignature { r: [0u8; 32], s: [0u8; 32] },
        tx_in_data: TxInData::Coinbase(CoinbaseData { block_height }),
    };
    let coinbase_output = TxOut { value: reward, recipient_hash: miner_address };
    let r = Transaction {
        version: 1,
        inputs: vec![coinbase_input],
        outputs: vec![coinbase_output],
        lock_time: 0,
    };
    assert(r.inputs@[0].previous_txid@ =~= zero32());
    assert(r.inputs@[0].pubkey@ =~= zero32());
    assert(r.inputs@[0].signature.r@ =~= zero32());
    assert(r.inputs@[0].signature.s@ =~= zero32());
    r
}

/// A coinbase with the wrong reward or height, a nonzero key or signature, a non-null
/// outpoint, a standard input, or other than one input and one output is not valid.
pub proof fn lemma_coinbase_defects(tx: Transaction, block_height: u32, reward: u64)
    requires
        tx.inputs@.len() != 1 || tx.outputs@.len() != 1 || tx.outputs@[0].value != reward
            || tx.inputs@[0].previous_txid@ != zero32() || tx.inputs@[0].previous_vout != u32::MAX
            || tx.inputs@[0].pubkey@ != zero32() || tx.inputs@[0].signature.r@ != zero32()
            || tx.inputs@[0].signature.s@ != zero32() || !(tx.inputs@[0].tx_in_data
            matches TxInData::Coinbase(c) && c.block_height == block_height),
    ensures
        !spec_is_valid_coinbase(tx, block_height, reward),
{
}

} // verus!
