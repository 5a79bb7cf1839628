use rust_blockchain::block::Block;
use rust_blockchain::ledger::{find_utxo, BlockUpdate, Blockchain, HeadUTXO, UTXO};
use rust_blockchain::transaction::{
    create_coinbase_transaction, SigHashType, Transaction, TxError, TxIn, TxInData, TxOut,
};
use rust_blockchain::wallet::{keygen, pubkey_to_address};

fn create_dummy_transaction() -> Transaction {
    let dummy_txid = [1u8; 32];
    let dummy_vout = 0;
    let dummy_pubkey = [10u8; 32];
    let dummy_signature = [0u8; 64];
    let txin = TxIn {
        previous_txid: dummy_txid,
        previous_vout: dummy_vout,
        pubkey: dummy_pubkey,
        signature: dummy_signature.into(),
        tx_in_data: TxInData::Standard,
    };

    let dummy_recipient_hash = [2u8; 32];
    let txout = TxOut { value: 50, recipient_hash: dummy_recipient_hash };

    Transaction { version: 1, inputs: vec![txin], outputs: vec![txout], lock_time: 0 }
}

#[test]
fn test_compute_merkle_root_with_transactions() {
    let tx1 = create_dummy_transaction();
    let tx2 = create_dummy_transaction();
    let transactions = vec![tx1, tx2];

    let merkle_root = Block::compute_merkle_root(&transactions);
    assert_ne!(merkle_root, [0u8; 32]);
}

#[test]
fn test_compute_merkle_root_empty() {
    let transactions: Vec<Transaction> = vec![];
    let merkle_root = Block::compute_merkle_root(&transactions);
    assert_eq!(merkle_root, [0u8; 32]);
}

#[test]
fn test_header_hash_changes_with_nonce() {
    let tx = create_dummy_transaction();
    let timestamp = 1000;
    let block1 = Block::new(1, 0, [0u8; 32], timestamp, 0, 0, vec![tx.clone()]);
    let block2 = Block::new(1, 0, [0u8; 32], timestamp, 0, 1, vec![tx]);
    let header_hash1 = block1.header_hash();
    let header_hash2 = block2.header_hash();
    assert_ne!(header_hash1, header_hash2, "different nonces must give different header hashes");
}

#[test]
fn test_mine_block() {
    let tx = create_dummy_transaction();
    let timestamp = 1000;
    let mut block = Block::new(1, 0, [0u8; 32], timestamp, 5, 0, vec![tx]);

    let pre_mine_hash = block.header_hash();
    assert!(!Block::meets_difficulty(pre_mine_hash, block.difficulty), "the block must not be mined yet");

    block.mine();

    let mined_hash = block.header_hash();
    assert!(Block::meets_difficulty(mined_hash, block.difficulty), "the mined block must meet its difficulty");
}

#[test]
fn test_blockchain_new() {
    let genesis_block = Block::new(1, 0, [0u8; 32], 0, 0, 0, vec![]);
    let mut blockchain = Blockchain::new(genesis_block.clone());
    let (_sk, pk) = keygen();
    let address = pubkey_to_address(&pk);

    let coinbase_tx = create_coinbase_transaction(50, address, 1);
    let block1 = Block::new(1, 1, genesis_block.header_hash(), 1, 0, 0, vec![coinbase_tx]);
    blockchain.process_block(1, 50, block1, &vec![]).unwrap();
}

#[test]
fn head_moves_only_on_acceptance() {
    let genesis = Block::new(1, 0, [0u8; 32], 0, 0, 0, vec![]);
    let mut chain = Blockchain::new(genesis.clone());
    assert_eq!(chain.head(), genesis.header_hash());
    assert_eq!(chain.height(), 0);
    let coinbase = create_coinbase_transaction(50, [1u8; 32], 1);
    let stray = mined(Block::new(1, 1, [5u8; 32], 1, D, 0, vec![coinbase.clone()]));
    assert!(chain.process_block(D, 50, stray, &vec![]).unwrap().is_none());
    assert_eq!(chain.head(), genesis.header_hash());
    assert_eq!(chain.height(), 0);
    let block1 = mined(Block::new(1, 1, genesis.header_hash(), 1, D, 0, vec![coinbase]));
    let update = chain.process_block(D, 50, block1.clone(), &vec![]).unwrap().unwrap();
    assert_eq!(update.block_hash, block1.header_hash());
    assert_eq!(chain.head(), block1.header_hash());
    assert_eq!(chain.height(), 1);
    assert_eq!(chain.latest_block().nonce, block1.nonce);
    let mut other = Blockchain::new(genesis.clone());
    other.add(block1.clone());
    assert_eq!(other.head(), block1.header_hash());
}

/// Offers `block` to a chain whose head is `head`.
fn offer(
    head: &Block,
    difficulty: u32,
    reward: u64,
    block: &Block,
    stored: &Vec<UTXO>,
) -> Result<Option<BlockUpdate>, TxError> {
    let mut chain = Blockchain::new(head.clone());
    chain.process_block(difficulty, reward, block.clone(), stored)
}

fn engine() -> Blockchain {
    Blockchain::new(Block::new(1, 0, [0u8; 32], 0, 0, 0, vec![]))
}

fn blake3_of(data: &[u8]) -> [u8; 32] {
    *blake3::hash(data).as_bytes()
}

#[test]
fn merkle_root_of_one_transaction_is_its_hash() {
    let tx = create_dummy_transaction();
    let h = tx.tx_hash();
    assert_eq!(Block::compute_merkle_root(&vec![tx]), h);
}

#[test]
fn merkle_root_of_three_transactions_duplicates_the_last() {
    let a = create_coinbase_transaction(1, [1u8; 32], 1);
    let b = create_coinbase_transaction(2, [2u8; 32], 1);
    let c = create_coinbase_transaction(3, [3u8; 32], 1);
    let (ha, hb, hc) = (a.tx_hash(), b.tx_hash(), c.tx_hash());
    let pair = |x: &[u8; 32], y: &[u8; 32]| {
        let mut v = x.to_vec();
        v.extend_from_slice(y);
        blake3_of(&v)
    };
    let expected = pair(&pair(&ha, &hb), &pair(&hc, &hc));
    assert_eq!(Block::compute_merkle_root(&vec![a, b, c]), expected);
}

#[test]
fn merkle_root_depends_on_order() {
    let a = create_coinbase_transaction(10, [1u8; 32], 1);
    let b = create_coinbase_transaction(20, [2u8; 32], 1);
    let ab = Block::compute_merkle_root(&vec![a.clone(), b.clone()]);
    let ba = Block::compute_merkle_root(&vec![b, a]);
    assert_ne!(ab, ba);
}

#[test]
fn header_hash_matches_its_layout() {
    let tx = create_dummy_transaction();
    let block = Block::new(7, 3, [9u8; 32], 123456, 4, 99, vec![tx]);
    let mut data = Vec::new();
    data.extend_from_slice(&7u32.to_le_bytes());
    data.extend_from_slice(&[9u8; 32]);
    data.extend_from_slice(&block.merkle_root);
    data.extend_from_slice(&123456u64.to_le_bytes());
    data.extend_from_slice(&4u32.to_le_bytes());
    data.extend_from_slice(&99u32.to_le_bytes());
    assert_eq!(block.header_hash(), blake3_of(&data));
}

#[test]
fn header_hash_changes_with_each_hashed_field() {
    let tx = create_dummy_transaction();
    let base = Block::new(1, 5, [0u8; 32], 1000, 2, 0, vec![tx]);
    let h = base.header_hash();
    let mut b = base.clone();
    b.version = 2;
    assert_ne!(b.header_hash(), h);
    let mut b = base.clone();
    b.previous_block_hash = [1u8; 32];
    assert_ne!(b.header_hash(), h);
    let mut b = base.clone();
    b.merkle_root = [1u8; 32];
    assert_ne!(b.header_hash(), h);
    let mut b = base.clone();
    b.timestamp = 1001;
    assert_ne!(b.header_hash(), h);
    let mut b = base.clone();
    b.difficulty = 3;
    assert_ne!(b.header_hash(), h);
    let mut b = base.clone();
    b.nonce = 1;
    assert_ne!(b.header_hash(), h);
    // The height is not part of the hashed header.
    let mut b = base.clone();
    b.height = 6;
    assert_eq!(b.header_hash(), h);
}

#[test]
fn mining_changes_only_the_nonce() {
    let tx = create_dummy_transaction();
    let mut block = Block::new(3, 4, [5u8; 32], 77, 6, 0, vec![tx]);
    let before = block.clone();
    assert!(block.mine());
    assert!(Block::meets_difficulty(block.header_hash(), 6));
    assert_eq!(block.version, before.version);
    assert_eq!(block.height, before.height);
    assert_eq!(block.previous_block_hash, before.previous_block_hash);
    assert_eq!(block.merkle_root, before.merkle_root);
    assert_eq!(block.timestamp, before.timestamp);
    assert_eq!(block.difficulty, before.difficulty);
    assert_eq!(block.transactions.len(), before.transactions.len());
}

#[test]
fn difficulty_zero_is_always_met() {
    assert!(Block::meets_difficulty([0xFFu8; 32], 0));
    assert!(Block::meets_difficulty([0u8; 32], 0));
}

#[test]
fn difficulty_across_a_byte_boundary() {
    let mut h = [0xFFu8; 32];
    h[0] = 0x00;
    h[1] = 0x7F;
    assert!(Block::meets_difficulty(h, 8));
    assert!(Block::meets_difficulty(h, 9));
    assert!(!Block::meets_difficulty(h, 10));
    h[1] = 0x80;
    assert!(Block::meets_difficulty(h, 8));
    assert!(!Block::meets_difficulty(h, 9));
    let mut g = [0xFFu8; 32];
    g[0] = 0x1F;
    assert!(Block::meets_difficulty(g, 3));
    assert!(!Block::meets_difficulty(g, 4));
}

#[test]
fn difficulty_beyond_the_hash_length() {
    assert!(Block::meets_difficulty([0u8; 32], 256));
    assert!(Block::meets_difficulty([0u8; 32], 1000));
    let mut h = [0u8; 32];
    h[31] = 1;
    assert!(Block::meets_difficulty(h, 255));
    assert!(!Block::meets_difficulty(h, 256));
    assert!(!Block::meets_difficulty(h, 1000));
}

#[test]
fn find_utxo_returns_the_first_match() {
    let a = UTXO { txid: [1u8; 32], vout: 0, value: 5, recipient_hash: [0u8; 32] };
    let b = UTXO { txid: [1u8; 32], vout: 1, value: 6, recipient_hash: [0u8; 32] };
    let c = UTXO { txid: [1u8; 32], vout: 1, value: 7, recipient_hash: [0u8; 32] };
    let list = vec![a, b, c];
    assert_eq!(find_utxo(&list, [1u8; 32], 1).unwrap().value, 6);
    assert_eq!(find_utxo(&list, [1u8; 32], 0).unwrap().value, 5);
    assert!(find_utxo(&list, [2u8; 32], 0).is_none());
    assert!(find_utxo(&[], [1u8; 32], 0).is_none());
}

/// A chain of a genesis block and a mined block 1 whose coinbase pays `reward` to `address`.
struct Chain {
    genesis: Block,
    block1: Block,
    update1: BlockUpdate,
}

const D: u32 = 4;

fn mined(mut block: Block) -> Block {
    assert!(block.mine());
    block
}

fn chain_with_block1(address: [u8; 32]) -> Chain {
    let genesis = Block::new(1, 0, [0u8; 32], 0, 0, 0, vec![]);
    let coinbase = create_coinbase_transaction(50, address, 1);
    let block1 = mined(Block::new(1, 1, genesis.header_hash(), 1, D, 0, vec![coinbase]));
    let update1 = offer(&genesis, D, 50, &block1, &vec![]).unwrap().unwrap();
    Chain { genesis, block1, update1 }
}

fn apply(store: &mut Vec<UTXO>, update: &BlockUpdate) {
    for u in &update.new_utxos {
        store.retain(|s| !(s.txid == u.txid && s.vout == u.vout));
        store.push(*u);
    }
    for o in &update.used_utxos {
        store.retain(|s| !(s.txid == o.txid && s.vout == o.vout));
    }
}

fn spend(prev_txid: [u8; 32], vout: u32, pubkey: [u8; 32], outputs: Vec<TxOut>) -> Transaction {
    let input = TxIn {
        previous_txid: prev_txid,
        previous_vout: vout,
        pubkey,
        signature: [0u8; 64].into(),
        tx_in_data: TxInData::Standard,
    };
    Transaction { version: 1, inputs: vec![input], outputs, lock_time: 0 }
}

#[test]
fn end_to_end_two_blocks() {
    let (sk, pk) = keygen();
    let address = pubkey_to_address(&pk);
    let chain = chain_with_block1(address);
    let mut store: Vec<UTXO> = vec![];
    apply(&mut store, &chain.update1);
    assert_eq!(chain.update1.block_hash, chain.block1.header_hash());
    assert_eq!(store.len(), 1);
    let coinbase_txid = chain.block1.transactions[0].tx_hash();
    assert_eq!(store[0].txid, coinbase_txid);
    assert_eq!(store[0].vout, 0);
    assert_eq!(store[0].value, 50);
    assert_eq!(store[0].recipient_hash, address);

    let out = |v: u64, r: u8| TxOut { value: v, recipient_hash: [r; 32] };
    let mut tx = spend(coinbase_txid, 0, pk, vec![out(25, 7), out(25, 8)]);
    tx.sign_input(0, sk, SigHashType::All).unwrap();
    let coinbase2 = create_coinbase_transaction(50, address, 2);
    let block2 = mined(Block::new(1, 2, chain.block1.header_hash(), 2, D, 0, vec![coinbase2, tx.clone()]));
    let update2 = offer(&chain.block1, D, 50, &block2, &store).unwrap().unwrap();
    apply(&mut store, &update2);
    let txid = tx.tx_hash();
    assert!(store.iter().all(|u| u.txid != coinbase_txid));
    assert!(store.iter().any(|u| u.txid == txid && u.vout == 0 && u.value == 25 && u.recipient_hash == [7u8; 32]));
    assert!(store.iter().any(|u| u.txid == txid && u.vout == 1 && u.value == 25 && u.recipient_hash == [8u8; 32]));
    assert_eq!(store.len(), 3);
}

#[test]
fn spending_more_than_the_inputs_is_rejected() {
    let (sk, pk) = keygen();
    let chain = chain_with_block1(pubkey_to_address(&pk));
    let coinbase_txid = chain.block1.transactions[0].tx_hash();
    let mut tx = spend(coinbase_txid, 0, pk, vec![TxOut { value: 51, recipient_hash: [7u8; 32] }]);
    tx.sign_input(0, sk, SigHashType::All).unwrap();
    let coinbase2 = create_coinbase_transaction(50, [0u8; 32], 2);
    let block2 = mined(Block::new(1, 2, chain.block1.header_hash(), 2, D, 0, vec![coinbase2, tx]));
    assert!(offer(&chain.block1, D, 50, &block2, &chain.update1.new_utxos).unwrap().is_none());
}

#[test]
fn a_bad_signature_is_rejected() {
    let (_sk, pk) = keygen();
    let (other_sk, _) = keygen();
    let chain = chain_with_block1(pubkey_to_address(&pk));
    let coinbase_txid = chain.block1.transactions[0].tx_hash();
    let mut tx = spend(coinbase_txid, 0, pk, vec![TxOut { value: 10, recipient_hash: [7u8; 32] }]);
    tx.sign_input(0, other_sk, SigHashType::All).unwrap();
    let stored = chain.update1.new_utxos.clone();
    assert_eq!(engine().valid_transaction(&tx, &stored, &vec![], &vec![]), Ok(false));
}

#[test]
fn an_unknown_utxo_is_rejected() {
    let (sk, pk) = keygen();
    let mut tx = spend([3u8; 32], 0, pk, vec![TxOut { value: 1, recipient_hash: [7u8; 32] }]);
    tx.sign_input(0, sk, SigHashType::All).unwrap();
    assert_eq!(engine().valid_transaction(&tx, &vec![], &vec![], &vec![]), Ok(false));
}

#[test]
fn a_malformed_public_key_is_an_error() {
    let utxo = UTXO { txid: [3u8; 32], vout: 0, value: 5, recipient_hash: [0u8; 32] };
    let tx = spend([3u8; 32], 0, [0xFFu8; 32], vec![]);
    assert_eq!(engine().valid_transaction(&tx, &vec![utxo], &vec![], &vec![]), Err(TxError::InvalidPublicKey));
}

#[test]
fn double_spend_across_two_transactions_is_rejected() {
    let (sk, pk) = keygen();
    let address = pubkey_to_address(&pk);
    let chain = chain_with_block1(address);
    let coinbase2 = create_coinbase_transaction(50, address, 2);
    let c2 = coinbase2.tx_hash();
    let mut t1 = spend(c2, 0, pk, vec![TxOut { value: 20, recipient_hash: [7u8; 32] }]);
    t1.sign_input(0, sk, SigHashType::All).unwrap();
    let mut t2 = spend(c2, 0, pk, vec![TxOut { value: 30, recipient_hash: [8u8; 32] }]);
    t2.sign_input(0, sk, SigHashType::All).unwrap();
    let good = mined(Block::new(1, 2, chain.block1.header_hash(), 2, D, 0, vec![coinbase2.clone(), t1.clone()]));
    assert!(offer(&chain.block1, D, 50, &good, &vec![]).unwrap().is_some());
    let bad = mined(Block::new(1, 2, chain.block1.header_hash(), 2, D, 0, vec![coinbase2, t1, t2]));
    assert!(offer(&chain.block1, D, 50, &bad, &vec![]).unwrap().is_none());
}

#[test]
fn double_spend_within_one_transaction_is_rejected() {
    let (sk, pk) = keygen();
    let address = pubkey_to_address(&pk);
    let chain = chain_with_block1(address);
    let coinbase2 = create_coinbase_transaction(50, address, 2);
    let c2 = coinbase2.tx_hash();
    let mut tx = spend(c2, 0, pk, vec![TxOut { value: 60, recipient_hash: [7u8; 32] }]);
    let second = tx.inputs[0];
    tx.inputs.push(second);
    tx.sign_input(0, sk, SigHashType::All).unwrap();
    tx.sign_input(1, sk, SigHashType::All).unwrap();
    let bad = mined(Block::new(1, 2, chain.block1.header_hash(), 2, D, 0, vec![coinbase2, tx]));
    assert!(offer(&chain.block1, D, 50, &bad, &vec![]).unwrap().is_none());
}

#[test]
fn wrong_parent_hash_is_rejected() {
    let chain = chain_with_block1([1u8; 32]);
    let coinbase = create_coinbase_transaction(50, [1u8; 32], 2);
    let block = mined(Block::new(1, 2, [9u8; 32], 2, D, 0, vec![coinbase]));
    assert!(offer(&chain.block1, D, 50, &block, &vec![]).unwrap().is_none());
}

#[test]
fn skipped_height_is_rejected() {
    let chain = chain_with_block1([1u8; 32]);
    let coinbase = create_coinbase_transaction(50, [1u8; 32], 3);
    let block = mined(Block::new(1, 3, chain.block1.header_hash(), 2, D, 0, vec![coinbase]));
    assert!(offer(&chain.block1, D, 50, &block, &vec![]).unwrap().is_none());
}

#[test]
fn missed_difficulty_is_rejected() {
    let chain = chain_with_block1([1u8; 32]);
    let coinbase = create_coinbase_transaction(50, [1u8; 32], 2);
    let mut block = Block::new(1, 2, chain.block1.header_hash(), 2, D, 0, vec![coinbase]);
    while Block::meets_difficulty(block.header_hash(), D) {
        block.nonce += 1;
    }
    assert!(offer(&chain.block1, D, 50, &block, &vec![]).unwrap().is_none());
    assert!(chain.genesis.transactions.is_empty());
}

#[test]
fn tampered_merkle_root_is_rejected() {
    let chain = chain_with_block1([1u8; 32]);
    let coinbase = create_coinbase_transaction(50, [1u8; 32], 2);
    let mut block = Block::new(1, 2, chain.block1.header_hash(), 2, D, 0, vec![coinbase]);
    block.merkle_root = [4u8; 32];
    let block = mined(block);
    assert!(offer(&chain.block1, D, 50, &block, &vec![]).unwrap().is_none());
}

#[test]
fn empty_block_and_bad_coinbase_are_rejected() {
    let chain = chain_with_block1([1u8; 32]);
    let empty = mined(Block::new(1, 2, chain.block1.header_hash(), 2, D, 0, vec![]));
    assert!(offer(&chain.block1, D, 50, &empty, &vec![]).unwrap().is_none());
    let coinbase = create_coinbase_transaction(49, [1u8; 32], 2);
    let block = mined(Block::new(1, 2, chain.block1.header_hash(), 2, D, 0, vec![coinbase]));
    assert!(offer(&chain.block1, D, 50, &block, &vec![]).unwrap().is_none());
}

#[test]
fn double_spend_of_a_stored_utxo_is_rejected() {
    let (sk, pk) = keygen();
    let address = pubkey_to_address(&pk);
    let chain = chain_with_block1(address);
    let c1 = chain.block1.transactions[0].tx_hash();
    let stored = chain.update1.new_utxos.clone();
    let mut t1 = spend(c1, 0, pk, vec![TxOut { value: 20, recipient_hash: [7u8; 32] }]);
    t1.sign_input(0, sk, SigHashType::All).unwrap();
    let mut t2 = spend(c1, 0, pk, vec![TxOut { value: 30, recipient_hash: [8u8; 32] }]);
    t2.sign_input(0, sk, SigHashType::All).unwrap();
    let coinbase2 = create_coinbase_transaction(50, address, 2);
    let single = mined(Block::new(1, 2, chain.block1.header_hash(), 2, D, 0, vec![coinbase2.clone(), t1.clone()]));
    assert!(offer(&chain.block1, D, 50, &single, &stored).unwrap().is_some());
    let twice = mined(Block::new(1, 2, chain.block1.header_hash(), 2, D, 0, vec![coinbase2.clone(), t1, t2]));
    assert!(offer(&chain.block1, D, 50, &twice, &stored).unwrap().is_none());

    let mut both = spend(c1, 0, pk, vec![TxOut { value: 90, recipient_hash: [9u8; 32] }]);
    let again = both.inputs[0];
    both.inputs.push(again);
    both.sign_input(0, sk, SigHashType::All).unwrap();
    both.sign_input(1, sk, SigHashType::All).unwrap();
    assert_eq!(engine().valid_transaction(&both, &stored, &vec![], &vec![]), Ok(false));
    let block = mined(Block::new(1, 2, chain.block1.header_hash(), 2, D, 0, vec![coinbase2, both]));
    assert!(offer(&chain.block1, D, 50, &block, &stored).unwrap().is_none());

    let mut t3 = spend(c1, 0, pk, vec![TxOut { value: 10, recipient_hash: [7u8; 32] }]);
    t3.sign_input(0, sk, SigHashType::All).unwrap();
    let spent = vec![HeadUTXO { txid: c1, vout: 0 }];
    assert_eq!(engine().valid_transaction(&t3, &stored, &vec![], &spent), Ok(false));
    assert_eq!(engine().valid_transaction(&t3, &stored, &vec![], &vec![]), Ok(true));
}

#[test]
fn missed_declared_difficulty_is_rejected() {
    let chain = chain_with_block1([1u8; 32]);
    let coinbase = create_coinbase_transaction(50, [1u8; 32], 2);
    let mut block = Block::new(1, 2, chain.block1.header_hash(), 2, 16, 0, vec![coinbase]);
    while Block::meets_difficulty(block.header_hash(), 16) {
        block.nonce += 1;
    }
    assert!(Block::meets_difficulty(block.header_hash(), 0));
    assert!(!block.is_header_valid(0, 50, chain.block1.header_hash(), 2));
    assert!(offer(&chain.block1, 0, 50, &block, &vec![]).unwrap().is_none());
}
