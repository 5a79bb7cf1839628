use vstd::prelude::*;
use crate::block::{Block, spec_header_hash, spec_is_header_valid, spec_meets_difficulty, spec_merkle_root};
use crate::encoding::eq32;
use crate::transaction::{
    SigHashType, Transaction, TxError, TxIn, spec_is_valid_coinbase, spec_tx_hash, verify_result,
};

verus! {

/// An outpoint: the transaction id and output index of a spent output.
#[derive(Clone, Copy, Debug)]
pub struct HeadUTXO {
    pub txid: [u8; 32],
    pub vout: u32,
}

/// A spendable output.
#[derive(Clone, Copy, Debug)]
pub struct UTXO {
    pub txid: [u8; 32],
    pub vout: u32,
    pub value: u64,
    pub recipient_hash: [u8; 32],
}

/// The value of a `BlockUpdate`: block hash, created UTXOs, spent outpoints.
pub type BlockUpdateView = (Seq<u8>, Seq<(Seq<u8>, u32, u64, Seq<u8>)>, Seq<(Seq<u8>, u32)>);

impl View for HeadUTXO {
    type V = (Seq<u8>, u32);

    open spec fn view(&self) -> (Seq<u8>, u32) {
        (self.txid@, self.vout)
    }
}

impl View for UTXO {
    type V = (Seq<u8>, u32, u64, Seq<u8>);

    open spec fn view(&self) -> (Seq<u8>, u32, u64, Seq<u8>) {
        (self.txid@, self.vout, self.value, self.recipient_hash@)
    }
}

/// What a block adds to and takes from the UTXO set once it is accepted.
#[derive(Clone, Debug)]
pub struct BlockUpdate {
    /// The header hash of the block: its storage key and the new chain head.
    pub block_hash: [u8; 32],
    /// Outputs created by the block, in order: the coinbase output first.
    pub new_utxos: Vec<UTXO>,
    /// Outpoints spent by the block, in order.
    pub used_utxos: Vec<HeadUTXO>,
}

impl View for BlockUpdate {
    type V = (Seq<u8>, Seq<(Seq<u8>, u32, u64, Seq<u8>)>, Seq<(Seq<u8>, u32)>);

    open spec fn view(&self) -> Self::V {
        (self.block_hash@, utxos_view(self.new_utxos@), outpoints_view(self.used_utxos@))
    }
}

/// The values of a sequence of UTXOs.
pub open spec fn utxos_view(s: Seq<UTXO>) -> Seq<(Seq<u8>, u32, u64, Seq<u8>)> {
    s.map_values(|u: UTXO| u@)
}

/// The values of a sequence of outpoints.
pub open spec fn outpoints_view(s: Seq<HeadUTXO>) -> Seq<(Seq<u8>, u32)> {
    s.map_values(|o: HeadUTXO| o@)
}

/// The first entry of `s` with outpoint `(txid, vout)`.
pub open spec fn spec_find_utxo(s: Seq<(Seq<u8>, u32, u64, Seq<u8>)>, txid: Seq<u8>, vout: u32) -> Option<
    (Seq<u8>, u32, u64, Seq<u8>),
>
    decreases s.len(),
{
    if s.len() == 0 {
        None
    } else if s[0].0 == txid && s[0].1 == vout {
        Some(s[0])
    } else {
        spec_find_utxo(s.drop_first(), txid, vout)
    }
}

/// Whether the outpoint `(txid, vout)` occurs in `s`.
pub open spec fn contains_outpoint(s: Seq<(Seq<u8>, u32)>, txid: Seq<u8>, vout: u32) -> bool {
    exists|k: int| 0 <= k < s.len() && (#[trigger] s[k]).0 == txid && s[k].1 == vout
}

/// The outpoint an input spends.
pub open spec fn input_outpoint(i: TxIn) -> (Seq<u8>, u32) {
    (i.previous_txid@, i.previous_vout)
}

/// The outpoints spent by a transaction, in input order.
pub open spec fn tx_used(tx: Transaction) -> Seq<(Seq<u8>, u32)> {
    tx.inputs@.map_values(|i: TxIn| input_outpoint(i))
}

/// The outputs a transaction creates, as UTXOs.
pub open spec fn tx_new_utxos(tx: Transaction) -> Seq<(Seq<u8>, u32, u64, Seq<u8>)> {
    Seq::new(
        tx.outputs@.len(),
        |k: int| (spec_tx_hash(tx), k as u32, tx.outputs@[k].value, tx.outputs@[k].recipient_hash@),
    )
}

/// The outpoints spent before input `k` of `tx` is resolved: those spent earlier in the
/// block, then the transaction's own earlier inputs.
pub open spec fn used_before(tx: Transaction, used: Seq<(Seq<u8>, u32)>, k: int) -> Seq<(Seq<u8>, u32)> {
    used + tx_used(tx).subrange(0, k)
}

/// The UTXO an input spends: none if that outpoint was already spent in the block, else
/// from the persistent store if there, else from the outputs created earlier in the block.
pub open spec fn resolve_input(
    stored: Seq<(Seq<u8>, u32, u64, Seq<u8>)>,
    new_utxos: Seq<(Seq<u8>, u32, u64, Seq<u8>)>,
    used: Seq<(Seq<u8>, u32)>,
    i: TxIn,
) -> Option<(Seq<u8>, u32, u64, Seq<u8>)> {
    if contains_outpoint(used, i.previous_txid@, i.previous_vout) {
        None
    } else {
        match spec_find_utxo(stored, i.previous_txid@, i.previous_vout) {
            Some(u) => Some(u),
            None => spec_find_utxo(new_utxos, i.previous_txid@, i.previous_vout),
        }
    }
}

/// The checks of inputs `k..` of `tx`: each must resolve and carry a valid signature over
/// the whole transaction; the first failure decides.
pub open spec fn inputs_check(
    tx: Transaction,
    stored: Seq<(Seq<u8>, u32, u64, Seq<u8>)>,
    new_utxos: Seq<(Seq<u8>, u32, u64, Seq<u8>)>,
    used: Seq<(Seq<u8>, u32)>,
    k: nat,
) -> Result<bool, TxError>
    decreases tx.inputs@.len() - k,
{
    if k >= tx.inputs@.len() {
        Ok(true)
    } else {
        let i = tx.inputs@[k as int];
        match resolve_input(stored, new_utxos, used_before(tx, used, k as int), i) {
            None => Ok(false),
            Some(_) => match verify_result(tx, k as usize, i.signature, i.pubkey@, SigHashType::All) {
                Err(e) => Err(e),
                Ok(false) => Ok(false),
                Ok(true) => inputs_check(tx, stored, new_utxos, used, k + 1),
            },
        }
    }
}

/// The total value of the UTXOs spent by the first `k` inputs.
pub open spec fn input_total(
    tx: Transaction,
    stored: Seq<(Seq<u8>, u32, u64, Seq<u8>)>,
    new_utxos: Seq<(Seq<u8>, u32, u64, Seq<u8>)>,
    used: Seq<(Seq<u8>, u32)>,
    k: int,
) -> int
    decreases k,
{
    if k <= 0 {
        0
    } else {
        input_total(tx, stored, new_utxos, used, k - 1) + resolve_input(
            stored,
            new_utxos,
            used_before(tx, used, k - 1),
            tx.inputs@[k - 1],
        ).unwrap().2
    }
}

/// The total value of a sequence of outputs.
pub open spec fn output_total(tx: Transaction, k: int) -> int
    decreases k,
{
    if k <= 0 {
        0
    } else {
        output_total(tx, k - 1) + tx.outputs@[k - 1].value
    }
}

/// Whether a non-coinbase transaction is valid in its block: every input resolves and is
/// signed, and the inputs are worth at least the outputs.
pub open spec fn spec_valid_transaction(
    tx: Transaction,
    stored: Seq<(Seq<u8>, u32, u64, Seq<u8>)>,
    new_utxos: Seq<(Seq<u8>, u32, u64, Seq<u8>)>,
    used: Seq<(Seq<u8>, u32)>,
) -> Result<bool, TxError> {
    match inputs_check(tx, stored, new_utxos, used, 0) {
        Ok(true) => Ok(
            input_total(tx, stored, new_utxos, used, tx.inputs@.len() as int) >= output_total(
                tx,
                tx.outputs@.len() as int,
            ),
        ),
        other => other,
    }
}

/// The UTXO minted by a coinbase.
pub open spec fn coinbase_utxo(tx: Transaction) -> (Seq<u8>, u32, u64, Seq<u8>) {
    (spec_tx_hash(tx), 0u32, tx.outputs@[0].value, tx.outputs@[0].recipient_hash@)
}

/// The block-scoped overlay after the first `k` transactions: the outputs created and the
/// outpoints spent so far, or how validation stopped.
pub open spec fn block_overlay(
    txs: Seq<Transaction>,
    stored: Seq<(Seq<u8>, u32, u64, Seq<u8>)>,
    k: nat,
) -> Result<Option<(Seq<(Seq<u8>, u32, u64, Seq<u8>)>, Seq<(Seq<u8>, u32)>)>, TxError>
    decreases k,
{
    if k <= 1 {
        Ok(Some((seq![coinbase_utxo(txs[0])], Seq::empty())))
    } else {
        match block_overlay(txs, stored, (k - 1) as nat) {
            Ok(Some((nu, used))) => match spec_valid_transaction(txs[k - 1], stored, nu, used) {
                Ok(true) => Ok(Some((nu + tx_new_utxos(txs[k - 1]), used + tx_used(txs[k - 1])))),
                Ok(false) => Ok(None),
                Err(e) => Err(e),
            },
            other => other,
        }
    }
}

/// The outcome of offering `block` on top of `head`, against the persistent UTXOs `stored`:
/// `Ok(None)` for a rejected block, else the block's hash and UTXO changes.
pub open spec fn spec_process_block(
    head: Block,
    difficulty: u32,
    reward: u64,
    block: Block,
    stored: Seq<(Seq<u8>, u32, u64, Seq<u8>)>,
) -> Result<
    Option<(Seq<u8>, Seq<(Seq<u8>, u32, u64, Seq<u8>)>, Seq<(Seq<u8>, u32)>)>,
    TxError,
> {
    if head.height == u32::MAX {
        Ok(None)
    } else if !spec_is_header_valid(block, difficulty, spec_header_hash(head), (head.height + 1) as u32) {
        Ok(None)
    } else if !spec_is_valid_coinbase(block.transactions@[0], (head.height + 1) as u32, reward) {
        Ok(None)
    } else {
        match block_overlay(block.transactions@, stored, block.transactions@.len()) {
            Ok(Some((nu, used))) => Ok(Some((spec_header_hash(block), nu, used))),
            Ok(None) => Ok(None),
            Err(e) => Err(e),
        }
    }
}

/// The first UTXO in `new_utxos` with outpoint `(txid, vout)`.
pub fn find_utxo(new_utxos: &[UTXO], txid: [u8; 32], vout: u32) -> (r: Option<UTXO>)
    ensures
        match r {
            Some(u) => spec_find_utxo(utxos_view(new_utxos@), txid@, vout) == Some(u@),
            None => spec_find_utxo(utxos_view(new_utxos@), txid@, vout) is None,
        },
{
    let ghost all = utxos_view(new_utxos@);
    assert(all.subrange(0, all.len() as int) =~= all);
    let mut i: usize = 0;
    while i < new_utxos.len()
        invariant
            i <= new_utxos@.len(),
            all == utxos_view(new_utxos@),
            spec_find_utxo(all, txid@, vout) == spec_find_utxo(all.subrange(i as int, all.len() as int), txid@, vout),
        decreases new_utxos@.len() - i,
    {
        let u = new_utxos[i];
        let ghost rest = all.subrange(i as int, all.len() as int);
        assert(rest[0] == u@);
        if eq32(&u.txid, &txid) && u.vout == vout {
            return Some(u);
        }
        assert(rest.drop_first() =~= all.subrange(i + 1, all.len() as int));
        i = i + 1;
    }
    None
}

/// Whether the outpoint `(txid, vout)` occurs in `used`.
fn outpoint_listed(used: &Vec<HeadUTXO>, txid: &[u8; 32], vout: u32) -> (r: bool)
    ensures
        r == contains_outpoint(outpoints_view(used@), txid@, vout),
{
    let mut i: usize = 0;
    while i < used.len()
        invariant
            i <= used@.len(),
            forall|k: int| 0 <= k < i ==> !((#[trigger] used@[k]).txid@ == txid@ && used@[k].vout == vout),
        decreases used@.len() - i,
    {
        let o = used[i];
        if eq32(&o.txid, txid) && o.vout == vout {
            assert(outpoints_view(used@)[i as int] == o@);
            return true;
        }
        i = i + 1;
    }
    assert forall|k: int| 0 <= k < used@.len() implies !((#[trigger] outpoints_view(used@)[k]).0 == txid@
        && outpoints_view(used@)[k].1 == vout) by {
        assert(outpoints_view(used@)[k] == used@[k]@);
    }
    false
}

/// The ledger engine: the block at the head of the chain, against which candidate blocks
/// are validated. The block store and the UTXO store are kept by the caller.
pub struct Blockchain {
    head_block: Block,
}

impl Blockchain {
    /// A chain whose head is `genesis_block`.
    pub fn new(genesis_block: Block) -> (r: Blockchain)
        ensures
            r.head_spec() == genesis_block,
    {
        Blockchain { head_block: genesis_block }
    }

    /// The block at the head of the chain.
    pub closed spec fn head_spec(&self) -> Block {
        self.head_block
    }

    /// The block at the head of the chain.
    pub fn latest_block(&self) -> (r: &Block)
        ensures
            *r == self.head_spec(),
    {
        &self.head_block
    }

    /// The header hash of the head block.
    pub fn head(&self) -> (r: [u8; 32])
        ensures
            r@ == spec_header_hash(self.head_spec()),
    {
        self.head_block.header_hash()
    }

    /// The height of the head block.
    pub fn height(&self) -> (r: u32)
        ensures
            r == self.head_spec().height,
    {
        self.head_block.height
    }

    /// Makes `block` the head of the chain.
    pub fn add(&mut self, block: Block)
        ensures
            final(self).head_spec() == block,
    {
        self.head_block = block;
    }

    /// Whether `tx` may enter the block: checked against the persistent UTXOs `stored`, the
    /// outputs `new_utxos` created earlier in the block and the outpoints `use_utxos` spent
    /// earlier in it. A consensus failure gives `Ok(false)`; a malformed public key an error.
    pub fn valid_transaction(
        &self,
        tx: &Transaction,
        stored: &Vec<UTXO>,
        new_utxos: &Vec<UTXO>,
        use_utxos: &Vec<HeadUTXO>,
    ) -> (r: Result<bool, TxError>)
        ensures
            r == spec_valid_transaction(*tx, utxos_view(stored@), utxos_view(new_utxos@), outpoints_view(use_utxos@)),
    {
        Self::check_transaction(tx, stored, new_utxos, use_utxos)
    }

    fn check_transaction(
        tx: &Transaction,
        stored: &Vec<UTXO>,
        new_utxos: &Vec<UTXO>,
        use_utxos: &Vec<HeadUTXO>,
    ) -> (r: Result<bool, TxError>)
        ensures
            r == spec_valid_transaction(*tx, utxos_view(stored@), utxos_view(new_utxos@), outpoints_view(use_utxos@)),
    {
        let ghost st = utxos_view(stored@);
        let ghost nu = utxos_view(new_utxos@);
        let ghost used = outpoints_view(use_utxos@);
        let mut tempo: Vec<HeadUTXO> = Vec::new();
        let mut c: usize = 0;
        while c < use_utxos.len()
            invariant
                c <= use_utxos@.len(),
                tempo@ == use_utxos@.subrange(0, c as int),
            decreases use_utxos@.len() - c,
        {
            tempo.push(use_utxos[c]);
            c = c + 1;
            assert(tempo@ =~= use_utxos@.subrange(0, c as int));
        }
        assert(use_utxos@.subrange(0, c as int) =~= use_utxos@);
        let mut total_input: u128 = 0;
        let mut i: usize = 0;
        assert(outpoints_view(tempo@) =~= used_before(*tx, used, 0));
        while i < tx.inputs.len()
            invariant
                i <= tx.inputs@.len(),
                st == utxos_view(stored@),
                nu == utxos_view(new_utxos@),
                used == outpoints_view(use_utxos@),
                outpoints_view(tempo@) == used_before(*tx, used, i as int),
                inputs_check(*tx, st, nu, used, 0) == inputs_check(*tx, st, nu, used, i as nat),
                total_input == input_total(*tx, st, nu, used, i as int),
                total_input <= i * 0xFFFF_FFFF_FFFF_FFFFu128,
            decreases tx.inputs@.len() - i,
        {
            let txin = tx.inputs[i];
            let ghost resolved = resolve_input(st, nu, used_before(*tx, used, i as int), txin);
            if outpoint_listed(&tempo, &txin.previous_txid, txin.previous_vout) {
                return Ok(false);
            }
            let utxo: UTXO = match find_utxo(stored.as_slice(), txin.previous_txid, txin.previous_vout) {
                Some(u) => u,
                None => match find_utxo(new_utxos.as_slice(), txin.previous_txid, txin.previous_vout) {
                    Some(u) => u,
                    None => {
                        return Ok(false);
                    },
                },
            };
            assert(resolved == Some(utxo@));
            let ghost before = tempo@;
            tempo.push(HeadUTXO { txid: txin.previous_txid, vout: txin.previous_vout });
            proof {
                assert(tx_used(*tx)[i as int] == input_outpoint(txin));
                assert(tx_used(*tx).subrange(0, i + 1) =~= tx_used(*tx).subrange(0, i as int).push(input_outpoint(txin)));
                assert(outpoints_view(tempo@) =~= outpoints_view(before).push(input_outpoint(txin)));
                assert(outpoints_view(tempo@) =~= used_before(*tx, used, i + 1));
            }
            match tx.verify_input(i, txin.signature, txin.pubkey, SigHashType::All) {
                Err(e) => {
                    return Err(e);
                },
                Ok(valid) => {
                    if !valid {
                        return Ok(false);
                    }
                },
            }
            total_input = total_input + utxo.value as u128;
            i = i + 1;
        }
        let mut total_output: u128 = 0;
        let mut j: usize = 0;
        while j < tx.outputs.len()
            invariant
                j <= tx.outputs@.len(),
                total_output == output_total(*tx, j as int),
                total_output <= j * 0xFFFF_FFFF_FFFF_FFFFu128,
            decreases tx.outputs@.len() - j,
        {
            total_output = total_output + tx.outputs[j].value as u128;
            j = j + 1;
        }
        if total_input < total_output {
            return Ok(false);
        }
        Ok(true)
    }

    /// Validates `block` as the successor of the head against the persistent UTXOs `stored`
    /// (those the block's inputs refer to): header, coinbase, then every other transaction in
    /// order. A rejected block gives `Ok(None)` and leaves the chain as it was. An accepted
    /// one becomes the head, and the result holds the changes for the stores: keep the block
    /// under its hash, add `new_utxos`, then remove `used_utxos`.
    pub fn process_block(
        &mut self,
        difficulty: u32,
        reward: u64,
        block: Block,
        stored: &Vec<UTXO>,
    ) -> (r: Result<Option<BlockUpdate>, TxError>)
        ensures
            r matches Ok(Some(_)) ==> final(self).head_spec() == block,
            !(r matches Ok(Some(_))) ==> *final(self) == *old(self),
            match r {
                Ok(Some(u)) => spec_process_block(old(self).head_spec(), difficulty, reward, block, utxos_view(stored@))
                    == Ok::<Option<BlockUpdateView>, TxError>(Some(u@)),
                Ok(None) => spec_process_block(old(self).head_spec(), difficulty, reward, block, utxos_view(stored@))
                    == Ok::<Option<BlockUpdateView>, TxError>(None),
                Err(e) => spec_process_block(old(self).head_spec(), difficulty, reward, block, utxos_view(stored@))
                    == Err::<Option<BlockUpdateView>, TxError>(e),
            },
    {
        let update = match Self::check_block(&self.head_block, difficulty, reward, &block, stored) {
            Ok(Some(u)) => u,
            Ok(None) => { return Ok(None); },
            Err(e) => { return Err(e); },
        };
        self.head_block = block;
        Ok(Some(update))
    }

    fn check_block(
        head: &Block,
        difficulty: u32,
        reward: u64,
        block: &Block,
        stored: &Vec<UTXO>,
    ) -> (r: Result<Option<BlockUpdate>, TxError>)
        ensures
            match r {
                Ok(Some(u)) => spec_process_block(*head, difficulty, reward, *block, utxos_view(stored@))
                    == Ok::<Option<BlockUpdateView>, TxError>(Some(u@)),
                Ok(None) => spec_process_block(*head, difficulty, reward, *block, utxos_view(stored@))
                    == Ok::<Option<BlockUpdateView>, TxError>(None),
                Err(e) => spec_process_block(*head, difficulty, reward, *block, utxos_view(stored@))
                    == Err::<Option<BlockUpdateView>, TxError>(e),
            },
    {
        let ghost st = utxos_view(stored@);
        let ghost txs = block.transactions@;
        if head.height == u32::MAX {
            return Ok(None);
        }
        let height = head.height + 1;
        let last_hash = head.header_hash();
        if !block.is_header_valid(difficulty, reward, last_hash, height) {
            return Ok(None);
        }
        let coinbase = &block.transactions[0];
        if !coinbase.is_valid_coinbase(height, reward) {
            return Ok(None);
        }
        let mut new_utxos: Vec<UTXO> = Vec::new();
        new_utxos.push(
            UTXO {
                txid: coinbase.tx_hash(),
                vout: 0,
                value: coinbase.outputs[0].value,
                recipient_hash: coinbase.outputs[0].recipient_hash,
            },
        );
        let mut use_utxos: Vec<HeadUTXO> = Vec::new();
        assert(utxos_view(new_utxos@) =~= seq![coinbase_utxo(txs[0])]);
        assert(outpoints_view(use_utxos@) =~= Seq::<(Seq<u8>, u32)>::empty());
        let mut t: usize = 1;
        while t < block.transactions.len()
            invariant
                1 <= t <= txs.len(),
                txs == block.transactions@,
                st == utxos_view(stored@),
                head.height != u32::MAX,
                spec_is_header_valid(*block, difficulty, spec_header_hash(*head), (head.height + 1) as u32),
                spec_is_valid_coinbase(txs[0], (head.height + 1) as u32, reward),
                block_overlay(txs, st, t as nat) == Ok::<_, TxError>(
                    Some((utxos_view(new_utxos@), outpoints_view(use_utxos@))),
                ),
            decreases txs.len() - t,
        {
            let tx = &block.transactions[t];
            match Self::check_transaction(tx, stored, &new_utxos, &use_utxos) {
                Err(e) => {
                    proof {
                        assert(block_overlay(txs, st, (t + 1) as nat) == Err::<
                            Option<(Seq<(Seq<u8>, u32, u64, Seq<u8>)>, Seq<(Seq<u8>, u32)>)>,
                            TxError,
                        >(e));
                        lemma_overlay_stops(txs, st, (t + 1) as nat, txs.len());
                    }
                    return Err(e);
                },
                Ok(valid) => {
                    if !valid {
                        proof {
                            lemma_overlay_stops(txs, st, (t + 1) as nat, txs.len());
                        }
                        return Ok(None);
                    }
                },
            }
            let txid = tx.tx_hash();
            push_tx_outputs(&mut new_utxos, tx, txid);
            push_tx_inputs(&mut use_utxos, tx);
            t = t + 1;
        }
        Ok(Some(BlockUpdate { block_hash: block.header_hash(), new_utxos, used_utxos: use_utxos }))
    }

}


/// Once validation has stopped, later transactions do not change the outcome.
proof fn lemma_overlay_stops(txs: Seq<Transaction>, stored: Seq<(Seq<u8>, u32, u64, Seq<u8>)>, k: nat, m: nat)
    requires
        k <= m,
        !(block_overlay(txs, stored, k) is Ok && block_overlay(txs, stored, k).unwrap() is Some),
    ensures
        block_overlay(txs, stored, m) == block_overlay(txs, stored, k),
    decreases m - k,
{
    if k < m {
        lemma_overlay_stops(txs, stored, k, (m - 1) as nat);
    }
}

/// Appends the UTXOs created by `tx`, whose hash is `txid`.
fn push_tx_outputs(new_utxos: &mut Vec<UTXO>, tx: &Transaction, txid: [u8; 32])
    requires
        txid@ == spec_tx_hash(*tx),
    ensures
        utxos_view(final(new_utxos)@) == utxos_view(old(new_utxos)@) + tx_new_utxos(*tx),
{
    let ghost start = utxos_view(new_utxos@);
    let mut i: usize = 0;
    assert(utxos_view(new_utxos@) =~= start + tx_new_utxos(*tx).subrange(0, 0));
    while i < tx.outputs.len()
        invariant
            i <= tx.outputs@.len(),
            txid@ == spec_tx_hash(*tx),
            utxos_view(new_utxos@) == start + tx_new_utxos(*tx).subrange(0, i as int),
        decreases tx.outputs@.len() - i,
    {
        let out = tx.outputs[i];
        let u = UTXO { txid, vout: i as u32, value: out.value, recipient_hash: out.recipient_hash };
        let ghost before = new_utxos@;
        new_utxos.push(u);
        assert(tx_new_utxos(*tx)[i as int] == u@);
        assert(utxos_view(new_utxos@) =~= utxos_view(before).push(u@));
        i = i + 1;
        assert(utxos_view(new_utxos@) =~= start + tx_new_utxos(*tx).subrange(0, i as int));
    }
    assert(tx_new_utxos(*tx).subrange(0, i as int) =~= tx_new_utxos(*tx));
}

/// Appends the outpoints spent by `tx`.
fn push_tx_inputs(use_utxos: &mut Vec<HeadUTXO>, tx: &Transaction)
    ensures
        outpoints_view(final(use_utxos)@) == outpoints_view(old(use_utxos)@) + tx_used(*tx),
{
    let ghost start = outpoints_view(use_utxos@);
    let mut i: usize = 0;
    assert(outpoints_view(use_utxos@) =~= start + tx_used(*tx).subrange(0, 0));
    while i < tx.inputs.len()
        invariant
            i <= tx.inputs@.len(),
            outpoints_view(use_utxos@) == start + tx_used(*tx).subrange(0, i as int),
        decreases tx.inputs@.len() - i,
    {
        let input = tx.inputs[i];
        let o = HeadUTXO { txid: input.previous_txid, vout: input.previous_vout };
        let ghost before = use_utxos@;
        use_utxos.push(o);
        assert(tx_used(*tx)[i as int] == o@);
        assert(outpoints_view(use_utxos@) =~= outpoints_view(before).push(o@));
        i = i + 1;
        assert(outpoints_view(use_utxos@) =~= start + tx_used(*tx).subrange(0, i as int));
    }
    assert(tx_used(*tx).subrange(0, i as int) =~= tx_used(*tx));
}

/// A block whose parent hash is not the head's header hash, whose height is not the head's
/// plus one, whose header hash misses the required difficulty or its own declared one, or
/// whose Merkle root does not commit to its transactions is rejected, and so leaves the
/// chain as it was.
pub proof fn lemma_bad_header_rejected(
    head: Block,
    difficulty: u32,
    reward: u64,
    block: Block,
    stored: Seq<(Seq<u8>, u32, u64, Seq<u8>)>,
)
    requires
        block.previous_block_hash@ != spec_header_hash(head) || block.height != head.height + 1
            || !spec_meets_difficulty(spec_header_hash(block), difficulty)
            || !spec_meets_difficulty(spec_header_hash(block), block.difficulty)
            || block.merkle_root@ != spec_merkle_root(block.transactions@),
    ensures
        spec_process_block(head, difficulty, reward, block, stored) == Ok::<Option<BlockUpdateView>, TxError>(None),
{
}

proof fn lemma_overlay_prefix(txs: Seq<Transaction>, stored: Seq<(Seq<u8>, u32, u64, Seq<u8>)>, j: nat, k: nat)
    requires
        j <= k,
        block_overlay(txs, stored, k) is Ok,
        block_overlay(txs, stored, k).unwrap() is Some,
    ensures
        block_overlay(txs, stored, j) is Ok,
        block_overlay(txs, stored, j).unwrap() is Some,
{
    if !(block_overlay(txs, stored, j) is Ok && block_overlay(txs, stored, j).unwrap() is Some) {
        lemma_overlay_stops(txs, stored, j, k);
    }
}

/// After the first `k` transactions the overlay lists every outpoint that they spend.
proof fn lemma_overlay_spent(txs: Seq<Transaction>, stored: Seq<(Seq<u8>, u32, u64, Seq<u8>)>, k: nat)
    requires
        block_overlay(txs, stored, k) is Ok,
        block_overlay(txs, stored, k).unwrap() is Some,
    ensures
        forall|a: int, ia: int|
            1 <= a < k && 0 <= ia < txs[a].inputs@.len() ==> contains_outpoint(
                block_overlay(txs, stored, k).unwrap().unwrap().1,
                #[trigger] txs[a].inputs@[ia].previous_txid@,
                txs[a].inputs@[ia].previous_vout,
            ),
    decreases k,
{
    if k > 1 {
        let p = (k - 1) as nat;
        lemma_overlay_prefix(txs, stored, p, k);
        lemma_overlay_spent(txs, stored, p);
        let used = block_overlay(txs, stored, p).unwrap().unwrap().1;
        let now = block_overlay(txs, stored, k).unwrap().unwrap().1;
        assert(now == used + tx_used(txs[p as int]));
        assert forall|a: int, ia: int|
            1 <= a < k && 0 <= ia < txs[a].inputs@.len() implies contains_outpoint(
                now,
                #[trigger] txs[a].inputs@[ia].previous_txid@,
                txs[a].inputs@[ia].previous_vout,
            ) by {
            if a < p {
                assert(contains_outpoint(used, txs[a].inputs@[ia].previous_txid@, txs[a].inputs@[ia].previous_vout));
                let w = choose|w: int| 0 <= w < used.len() && (#[trigger] used[w]).0 == txs[a].inputs@[ia].previous_txid@
                    && used[w].1 == txs[a].inputs@[ia].previous_vout;
                assert(now[w] == used[w]);
            } else {
                assert(now[used.len() + ia] == tx_used(txs[a])[ia]);
            }
        }
    }
}

/// Once all of a transaction's inputs pass, each of them resolves.
proof fn lemma_inputs_resolve(
    tx: Transaction,
    stored: Seq<(Seq<u8>, u32, u64, Seq<u8>)>,
    new_utxos: Seq<(Seq<u8>, u32, u64, Seq<u8>)>,
    used: Seq<(Seq<u8>, u32)>,
    k: nat,
    m: int,
)
    requires
        inputs_check(tx, stored, new_utxos, used, k) == Ok::<bool, TxError>(true),
        k <= m < tx.inputs@.len(),
    ensures
        resolve_input(stored, new_utxos, used_before(tx, used, m), tx.inputs@[m]) is Some,
    decreases m - k,
{
    if k < m {
        lemma_inputs_resolve(tx, stored, new_utxos, used, k + 1, m);
    }
}

/// A block in which two transactions, or two inputs of one transaction, spend the same
/// outpoint is rejected, whether that outpoint is a persistent UTXO or an output created
/// earlier in the block.
pub proof fn lemma_double_spend_rejected(
    head: Block,
    difficulty: u32,
    reward: u64,
    block: Block,
    stored: Seq<(Seq<u8>, u32, u64, Seq<u8>)>,
    a: int,
    ia: int,
    b: int,
    ib: int,
)
    requires
        1 <= a <= b < block.transactions@.len(),
        0 <= ia < block.transactions@[a].inputs@.len(),
        0 <= ib < block.transactions@[b].inputs@.len(),
        a < b || ia < ib,
        input_outpoint(block.transactions@[a].inputs@[ia]) == input_outpoint(block.transactions@[b].inputs@[ib]),
    ensures
        !(spec_process_block(head, difficulty, reward, block, stored) matches Ok(Some(_))),
{
    let txs = block.transactions@;
    if spec_process_block(head, difficulty, reward, block, stored) matches Ok(Some(_)) {
        let n = txs.len();
        assert(block_overlay(txs, stored, n) is Ok && block_overlay(txs, stored, n).unwrap() is Some);
        lemma_overlay_prefix(txs, stored, (b + 1) as nat, n);
        lemma_overlay_prefix(txs, stored, b as nat, n);
        let (nu, used) = block_overlay(txs, stored, b as nat).unwrap().unwrap();
        let tx = txs[b];
        assert(spec_valid_transaction(tx, stored, nu, used) == Ok::<bool, TxError>(true));
        assert(inputs_check(tx, stored, nu, used, 0) == Ok::<bool, TxError>(true));
        lemma_inputs_resolve(tx, stored, nu, used, 0, ib);
        let txid = tx.inputs@[ib].previous_txid@;
        let vout = tx.inputs@[ib].previous_vout;
        let before = used_before(tx, used, ib);
        if a < b {
            lemma_overlay_spent(txs, stored, b as nat);
            assert(contains_outpoint(used, txs[a].inputs@[ia].previous_txid@, txs[a].inputs@[ia].previous_vout));
            let w = choose|w: int| 0 <= w < used.len() && (#[trigger] used[w]).0 == txid && used[w].1 == vout;
            assert(before[w] == used[w]);
        } else {
            assert(before[used.len() + ia] == tx_used(tx)[ia]);
        }
        assert(contains_outpoint(before, txid, vout));
    }
}

} // verus!
