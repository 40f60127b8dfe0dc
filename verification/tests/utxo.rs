use ring::rand::SystemRandom;
use ring::signature::{Ed25519KeyPair, KeyPair};

use ledger::blockchain::Blockchain;
use ledger::transaction::{TXInput, TXOutput, Transaction};
use ledger::ChainError;

fn keypair() -> Ed25519KeyPair {
    let rng = SystemRandom::new();
    let pkcs8 = Ed25519KeyPair::generate_pkcs8(&rng).expect("keygen failed");
    Ed25519KeyPair::from_pkcs8(pkcs8.as_ref()).expect("key parse failed")
}

fn address_of(key: &Ed25519KeyPair) -> Vec<u8> {
    ledger::sha256_digest(key.public_key().as_ref())
}

/// Builds a signed transaction spending `(src_txid, src_index)` with `key`,
/// paying the given outputs.
fn signed_spend(
    key: &Ed25519KeyPair,
    src_txid: &[u8],
    src_index: usize,
    outputs: Vec<TXOutput>,
) -> Transaction {
    let unsigned_vin = vec![TXInput::new(
        src_txid.to_vec(),
        src_index,
        Vec::new(),
        key.public_key().as_ref().to_vec(),
    )];
    let outputs_copy: Vec<TXOutput> = outputs
        .iter()
        .map(|o| TXOutput::new(o.get_value(), o.get_pub_key_hash().to_vec()))
        .collect();
    let unsigned = Transaction::new(unsigned_vin, outputs_copy);
    let digest = unsigned.signable_digest();
    let sig = key.sign(&digest);
    let vin = vec![TXInput::new(
        src_txid.to_vec(),
        src_index,
        sig.as_ref().to_vec(),
        key.public_key().as_ref().to_vec(),
    )];
    Transaction::new(vin, outputs)
}

#[test]
fn utxo_of_genesis_only_store() {
    let chain = Blockchain::create_blockchain(b"A").expect("create failed");
    let utxo = chain.compute_utxo_set();
    assert_eq!(utxo.len(), 1);
    let mut it = chain.iterator();
    let genesis = it.next().unwrap();
    let cb = &genesis.get_transactions()[0];
    assert_eq!(utxo[0].txid, cb.get_id().to_vec());
    assert_eq!(utxo[0].outputs.len(), 1);
    assert_eq!(utxo[0].outputs[0].index, 0);
    assert_eq!(utxo[0].outputs[0].output.get_value(), 10);
    assert_eq!(utxo[0].outputs[0].output.get_pub_key_hash(), b"A".as_slice());
}

#[test]
fn utxo_excludes_spent_coinbase() {
    let key_a = keypair();
    let addr_a = address_of(&key_a);
    let mut chain = Blockchain::create_blockchain(&addr_a).expect("create failed");
    let genesis_cb_id = {
        let mut it = chain.iterator();
        it.next().unwrap().get_transactions()[0].get_id().to_vec()
    };
    // block 2 spends block 1's coinbase output in full
    let spend = signed_spend(
        &key_a,
        &genesis_cb_id,
        0,
        vec![TXOutput::new(10, b"B".to_vec())],
    );
    let txs = vec![Transaction::new_coinbase_tx(b"M1"), spend.clone()];
    chain.mine_block(&txs).expect("mining failed");

    let utxo = chain.compute_utxo_set();
    assert!(utxo.iter().all(|e| e.txid != genesis_cb_id));
    let entry = utxo
        .iter()
        .find(|e| e.txid == spend.get_id().to_vec())
        .expect("spend outputs missing");
    assert_eq!(entry.outputs.len(), 1);
    assert_eq!(entry.outputs[0].output.get_pub_key_hash(), b"B".as_slice());
    assert_eq!(entry.outputs[0].output.get_value(), 10);
}

#[test]
fn spend_with_change_scenario() {
    // create chain paying A, spend A's coinbase: 6 to B, change 4 to A
    let key_a = keypair();
    let addr_a = address_of(&key_a);
    let mut chain = Blockchain::create_blockchain(&addr_a).expect("create failed");
    let genesis_cb_id = {
        let mut it = chain.iterator();
        it.next().unwrap().get_transactions()[0].get_id().to_vec()
    };
    let spend = signed_spend(
        &key_a,
        &genesis_cb_id,
        0,
        vec![
            TXOutput::new(6, b"B".to_vec()),
            TXOutput::new(4, addr_a.clone()),
        ],
    );
    let txs = vec![Transaction::new_coinbase_tx(b"M1"), spend.clone()];
    chain.mine_block(&txs).expect("mining failed");

    let utxo = chain.compute_utxo_set();
    assert!(utxo.iter().all(|e| e.txid != genesis_cb_id));
    let entry = utxo
        .iter()
        .find(|e| e.txid == spend.get_id().to_vec())
        .expect("spend outputs missing");
    assert_eq!(entry.outputs.len(), 2);
    assert_eq!(entry.outputs[0].index, 0);
    assert_eq!(entry.outputs[0].output.get_pub_key_hash(), b"B".as_slice());
    assert_eq!(entry.outputs[0].output.get_value(), 6);
    assert_eq!(entry.outputs[1].index, 1);
    assert_eq!(entry.outputs[1].output.get_pub_key_hash(), addr_a.as_slice());
    assert_eq!(entry.outputs[1].output.get_value(), 4);
}

#[test]
fn mine_block_rejects_invalid_transactions() {
    let key_a = keypair();
    let key_b = keypair();
    let addr_a = address_of(&key_a);
    let mut chain = Blockchain::create_blockchain(&addr_a).expect("create failed");
    let genesis_cb_id = {
        let mut it = chain.iterator();
        it.next().unwrap().get_transactions()[0].get_id().to_vec()
    };

    // signed with the wrong key
    let forged = signed_spend(
        &key_b,
        &genesis_cb_id,
        0,
        vec![TXOutput::new(10, b"B".to_vec())],
    );
    let txs = vec![Transaction::new_coinbase_tx(b"M1"), forged];
    assert!(matches!(chain.mine_block(&txs), Err(ChainError::Validation)));
    assert_eq!(chain.get_best_height(), 0);

    // spending an output that is not in the unspent set
    let unknown = signed_spend(
        &key_a,
        &[9u8; 32],
        0,
        vec![TXOutput::new(10, b"B".to_vec())],
    );
    let txs = vec![Transaction::new_coinbase_tx(b"M1"), unknown];
    assert!(matches!(chain.mine_block(&txs), Err(ChainError::Validation)));

    // a list not led by a coinbase transaction
    let spend = signed_spend(
        &key_a,
        &genesis_cb_id,
        0,
        vec![TXOutput::new(10, b"B".to_vec())],
    );
    assert!(matches!(chain.mine_block(&vec![spend]), Err(ChainError::Validation)));
    assert_eq!(chain.get_best_height(), 0);
}

#[test]
fn double_spend_rejected_after_commit() {
    let key_a = keypair();
    let addr_a = address_of(&key_a);
    let mut chain = Blockchain::create_blockchain(&addr_a).expect("create failed");
    let genesis_cb_id = {
        let mut it = chain.iterator();
        it.next().unwrap().get_transactions()[0].get_id().to_vec()
    };
    let spend1 = signed_spend(
        &key_a,
        &genesis_cb_id,
        0,
        vec![TXOutput::new(10, b"B".to_vec())],
    );
    let txs = vec![Transaction::new_coinbase_tx(b"M1"), spend1];
    chain.mine_block(&txs).expect("mining failed");

    // the same output cannot be spent again
    let spend2 = signed_spend(
        &key_a,
        &genesis_cb_id,
        0,
        vec![TXOutput::new(10, b"C".to_vec())],
    );
    let txs = vec![Transaction::new_coinbase_tx(b"M2"), spend2];
    assert!(matches!(chain.mine_block(&txs), Err(ChainError::Validation)));
}

#[test]
fn find_utxo_keys_entries_by_hex_id() {
    let chain = Blockchain::create_blockchain(b"A").expect("create failed");
    let utxo = chain.compute_utxo_set();
    let hex = chain.find_utxo();
    assert_eq!(hex.len(), 1);
    let expected: String = utxo[0].txid.iter().map(|b| format!("{:02x}", b)).collect();
    assert_eq!(hex[0].txid_hex, expected);
    assert_eq!(hex[0].outputs.len(), 1);
    assert_eq!(hex[0].outputs[0].get_value(), 10);
}

#[test]
fn sha256_digest_known_vector() {
    let digest = ledger::sha256_digest(b"abc");
    let expected: Vec<u8> = vec![
        0xba, 0x78, 0x16, 0xbf, 0x8f, 0x01, 0xcf, 0xea, 0x41, 0x41, 0x40, 0xde, 0x5d, 0xae, 0x22,
        0x23, 0xb0, 0x03, 0x61, 0xa3, 0x96, 0x17, 0x7a, 0x9c, 0xb4, 0x10, 0xff, 0x61, 0xf2, 0x00,
        0x15, 0xad,
    ];
    assert_eq!(digest, expected);
}

#[test]
fn current_timestamp_is_non_negative() {
    assert!(ledger::current_timestamp() >= 0);
}
