use rust_blockchain::transaction::{
    create_coinbase_transaction, CoinbaseData, SchnorrSignature, SigHashType, Transaction, TxError, TxIn,
    TxInData, TxOut,
};
use rust_blockchain::wallet::keygen;
use sha2::Digest;

const MODES: [SigHashType; 6] = [
    SigHashType::All,
    SigHashType::NoOutputs,
    SigHashType::Single,
    SigHashType::AllAnyoneCanPay,
    SigHashType::NoOutputsAnyoneCanPay,
    SigHashType::SingleAnyoneCanPay,
];

fn input(txid: u8, vout: u32, pubkey: [u8; 32]) -> TxIn {
    TxIn {
        previous_txid: [txid; 32],
        previous_vout: vout,
        pubkey,
        signature: [0u8; 64].into(),
        tx_in_data: TxInData::Standard,
    }
}

fn two_by_two(pubkey: [u8; 32]) -> Transaction {
    Transaction {
        version: 2,
        inputs: vec![input(1, 0, pubkey), input(2, 3, pubkey)],
        outputs: vec![
            TxOut { value: 10, recipient_hash: [5u8; 32] },
            TxOut { value: 20, recipient_hash: [6u8; 32] },
        ],
        lock_time: 9,
    }
}

fn double_sha(data: &[u8]) -> [u8; 32] {
    sha2::Sha256::digest(sha2::Sha256::digest(data)).into()
}

#[test]
fn tx_hash_is_double_sha256_of_the_layout() {
    let mut tx = two_by_two([4u8; 32]);
    tx.inputs[1].tx_in_data = TxInData::Coinbase(CoinbaseData { block_height: 77 });
    let mut data = Vec::new();
    data.extend_from_slice(&2u32.to_le_bytes());
    data.extend_from_slice(&[1u8; 32]);
    data.extend_from_slice(&0u32.to_le_bytes());
    data.extend_from_slice(&[4u8; 32]);
    data.extend_from_slice(&[2u8; 32]);
    data.extend_from_slice(&3u32.to_le_bytes());
    data.extend_from_slice(&[4u8; 32]);
    data.extend_from_slice(&77u32.to_le_bytes());
    data.extend_from_slice(&10u64.to_le_bytes());
    data.extend_from_slice(&[5u8; 32]);
    data.extend_from_slice(&20u64.to_le_bytes());
    data.extend_from_slice(&[6u8; 32]);
    data.extend_from_slice(&9u32.to_le_bytes());
    assert_eq!(tx.tx_hash(), double_sha(&data));
    assert_eq!(tx.sighash_preimage(SigHashType::All, None).unwrap(), data);
}

#[test]
fn preimage_subsets_by_mode() {
    let tx = two_by_two([4u8; 32]);
    let all = tx.sighash_preimage(SigHashType::All, None).unwrap();
    let none = tx.sighash_preimage(SigHashType::NoOutputs, None).unwrap();
    let single = tx.sighash_preimage(SigHashType::Single, Some(1)).unwrap();
    let acp = tx.sighash_preimage(SigHashType::AllAnyoneCanPay, Some(1)).unwrap();
    let input_len = 68;
    let output_len = 40;
    assert_eq!(all.len(), 4 + 2 * input_len + 2 * output_len + 4);
    assert_eq!(none.len(), 4 + 2 * input_len + 4);
    assert_eq!(single.len(), 4 + 2 * input_len + output_len + 4);
    assert_eq!(&single[4 + 2 * input_len..4 + 2 * input_len + 8], &20u64.to_le_bytes());
    assert_eq!(acp.len(), 4 + input_len + 2 * output_len + 4);
    assert_eq!(&acp[4..36], &[2u8; 32]);
}

#[test]
fn preimage_index_errors() {
    let tx = two_by_two([4u8; 32]);
    assert_eq!(tx.sighash_preimage(SigHashType::Single, None), Err(TxError::MissingIndex));
    assert_eq!(tx.sighash_preimage(SigHashType::AllAnyoneCanPay, None), Err(TxError::MissingIndex));
    assert_eq!(tx.sighash_preimage(SigHashType::Single, Some(2)), Err(TxError::OutputIndexOutOfRange));
    assert_eq!(
        tx.sighash_preimage(SigHashType::NoOutputsAnyoneCanPay, Some(2)),
        Err(TxError::InputIndexOutOfRange)
    );
    assert!(tx.sighash_preimage(SigHashType::NoOutputs, None).is_ok());
}

#[test]
fn sign_then_verify_in_every_mode() {
    let (sk, pk) = keygen();
    for mode in MODES {
        let mut tx = two_by_two(pk);
        tx.sign_input(1, sk, mode).unwrap();
        let sig = tx.inputs[1].signature;
        assert_eq!(tx.verify_input(1, sig, pk, mode), Ok(true));
    }
}

#[test]
fn verify_fails_with_another_key() {
    let (sk, pk) = keygen();
    let (_, other) = keygen();
    let mut tx = two_by_two(pk);
    tx.sign_input(0, sk, SigHashType::All).unwrap();
    let sig = tx.inputs[0].signature;
    assert_eq!(tx.verify_input(0, sig, other, SigHashType::All), Ok(false));
}

#[test]
fn verify_fails_after_a_committed_field_changes() {
    let (sk, pk) = keygen();
    let mut tx = two_by_two(pk);
    tx.sign_input(0, sk, SigHashType::All).unwrap();
    let sig = tx.inputs[0].signature;
    let mut changed = tx.clone();
    changed.outputs[1].value = 21;
    assert_eq!(changed.verify_input(0, sig, pk, SigHashType::All), Ok(false));
    let mut changed = tx.clone();
    changed.lock_time = 10;
    assert_eq!(changed.verify_input(0, sig, pk, SigHashType::All), Ok(false));
    let mut changed = tx.clone();
    changed.inputs[1].previous_vout = 4;
    assert_eq!(changed.verify_input(0, sig, pk, SigHashType::All), Ok(false));
}

#[test]
fn outputs_outside_the_mode_may_change() {
    let (sk, pk) = keygen();
    let mut tx = two_by_two(pk);
    tx.sign_input(0, sk, SigHashType::NoOutputs).unwrap();
    let sig = tx.inputs[0].signature;
    tx.outputs[0].value = 1;
    assert_eq!(tx.verify_input(0, sig, pk, SigHashType::NoOutputs), Ok(true));
    let mut tx = two_by_two(pk);
    tx.sign_input(0, sk, SigHashType::SingleAnyoneCanPay).unwrap();
    let sig = tx.inputs[0].signature;
    tx.outputs[1].value = 1;
    tx.inputs[1].previous_vout = 8;
    assert_eq!(tx.verify_input(0, sig, pk, SigHashType::SingleAnyoneCanPay), Ok(true));
    tx.outputs[0].value = 1;
    assert_eq!(tx.verify_input(0, sig, pk, SigHashType::SingleAnyoneCanPay), Ok(false));
}

#[test]
fn signing_errors_leave_the_transaction_unchanged() {
    let (sk, pk) = keygen();
    let mut tx = two_by_two(pk);
    assert_eq!(tx.sign_input(2, sk, SigHashType::All), Err(TxError::InputIndexOutOfRange));
    let mut one_output = two_by_two(pk);
    one_output.outputs.pop();
    assert_eq!(one_output.sign_input(1, sk, SigHashType::Single), Err(TxError::OutputIndexOutOfRange));
    assert_eq!(tx.sign_input(0, [0u8; 32], SigHashType::All), Err(TxError::InvalidSecretKey));
    assert_eq!(tx.inputs[0].signature.r, [0u8; 32]);
    assert_eq!(tx.inputs[0].signature.s, [0u8; 32]);
}

#[test]
fn verify_reports_a_malformed_key() {
    let tx = two_by_two([4u8; 32]);
    let sig: SchnorrSignature = [7u8; 64].into();
    assert_eq!(tx.verify_input(0, sig, [0xFFu8; 32], SigHashType::All), Err(TxError::InvalidPublicKey));
    assert_eq!(tx.verify_input(0, sig, [0xFFu8; 32], SigHashType::Single, ), Err(TxError::InvalidPublicKey));
}

#[test]
fn signature_halves_round_trip() {
    let mut bytes = [0u8; 64];
    for (i, b) in bytes.iter_mut().enumerate() {
        *b = i as u8;
    }
    let sig = SchnorrSignature::from_bytes(bytes);
    assert_eq!(sig.r[0], 0);
    assert_eq!(sig.s[0], 32);
    assert_eq!(sig.to_bytes(), bytes);
}

#[test]
fn coinbase_is_valid_for_its_height_and_reward() {
    let cb = create_coinbase_transaction(50, [3u8; 32], 7);
    assert!(cb.is_valid_coinbase(7, 50));
    assert_eq!(cb.outputs[0].recipient_hash, [3u8; 32]);
    assert_eq!(cb.inputs[0].previous_vout, u32::MAX);
}

#[test]
fn coinbase_defects_are_rejected() {
    let cb = create_coinbase_transaction(50, [3u8; 32], 7);
    assert!(!cb.is_valid_coinbase(7, 51));
    assert!(!cb.is_valid_coinbase(8, 50));
    let mut t = cb.clone();
    t.inputs[0].pubkey[0] = 1;
    assert!(!t.is_valid_coinbase(7, 50));
    let mut t = cb.clone();
    t.inputs[0].signature.r[31] = 1;
    assert!(!t.is_valid_coinbase(7, 50));
    let mut t = cb.clone();
    t.inputs[0].signature.s[0] = 1;
    assert!(!t.is_valid_coinbase(7, 50));
    let mut t = cb.clone();
    t.inputs[0].previous_txid[5] = 1;
    assert!(!t.is_valid_coinbase(7, 50));
    let mut t = cb.clone();
    t.inputs[0].previous_vout = 0;
    assert!(!t.is_valid_coinbase(7, 50));
    let mut t = cb.clone();
    t.inputs[0].tx_in_data = TxInData::Standard;
    assert!(!t.is_valid_coinbase(7, 50));
    let mut t = cb.clone();
    let extra = t.inputs[0];
    t.inputs.push(extra);
    assert!(!t.is_valid_coinbase(7, 50));
    let mut t = cb.clone();
    t.outputs.push(TxOut { value: 0, recipient_hash: [0u8; 32] });
    assert!(!t.is_valid_coinbase(7, 50));
    let mut t = cb.clone();
    t.inputs.clear();
    assert!(!t.is_valid_coinbase(7, 50));
}
