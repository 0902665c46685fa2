use phlopchain::blockchain::Blockchain;
use phlopchain::transaction::{Block, Transaction};

#[test]
fn test_transaction_creation() {
    let tx = Transaction::new("alice".to_string(), "bob".to_string(), 100, 1);
    assert!(tx.is_valid());
}

#[test]
fn test_block_creation() {
    let tx = Transaction::new("alice".to_string(), "bob".to_string(), 100, 1);
    let previous_hash = phlopchain::digest::Hash::from_string("previous");
    let block = Block::new(1, vec![tx], previous_hash);
    assert_eq!(block.index, 1);
    assert_eq!(block.transactions.len(), 1);
}

#[test]
fn test_genesis_block() {
    let genesis = Block::genesis();
    assert_eq!(genesis.index, 0);
    assert!(genesis.transactions.is_empty());
}

#[test]
fn test_block_validation() {
    let genesis = Block::genesis();
    assert!(genesis.is_valid(None));

    let tx = Transaction::new("alice".to_string(), "bob".to_string(), 100, 1);
    let block = Block::new(1, vec![tx], genesis.hash.clone());
    assert!(block.is_valid(Some(&genesis)));
}

#[test]
fn test_blockchain_creation() {
    let blockchain = Blockchain::new();
    assert_eq!(blockchain.chain.len(), 1);
    assert!(blockchain.is_chain_valid());
}

#[test]
fn test_add_transaction() {
    let mut blockchain = Blockchain::new();
    let tx = Transaction::new("alice".to_string(), "bob".to_string(), 100, 1);

    let result = blockchain.add_transaction(tx);
    assert!(result.is_ok());
    assert_eq!(blockchain.get_pending_transaction_count(), 1);
}

#[test]
fn test_mine_block() {
    let mut blockchain = Blockchain::new();
    let tx = Transaction::new("alice".to_string(), "bob".to_string(), 100, 1);

    blockchain.add_transaction(tx).unwrap();
    let result = blockchain.mine_pending_transactions("miner".to_string());

    assert!(result.is_ok());
    assert_eq!(blockchain.chain.len(), 2);
    assert!(blockchain.is_chain_valid());
}

#[test]
fn test_transaction_history() {
    let mut blockchain = Blockchain::new();
    let tx = Transaction::new("alice".to_string(), "bob".to_string(), 100, 1);

    blockchain.add_transaction(tx).unwrap();
    blockchain.mine_pending_transactions("miner".to_string()).unwrap();

    let alice_history = blockchain.get_transaction_history(&"alice".to_string());
    assert!(!alice_history.is_empty());
}

#[test]
fn test_invalid_transactions_are_rejected() {
    let mut blockchain = Blockchain::new();

    let mut tampered = Transaction::new("alice".to_string(), "bob".to_string(), 100, 1);
    tampered.amount = 200;
    assert_eq!(
        blockchain.add_transaction(tampered),
        Err("Invalid transaction".to_string())
    );

    let too_rich = Transaction::new("alice".to_string(), "bob".to_string(), 5000, 1);
    assert_eq!(
        blockchain.add_transaction(too_rich),
        Err("Insufficient balance".to_string())
    );

    let wrong_nonce = Transaction::new("alice".to_string(), "bob".to_string(), 100, 7);
    assert_eq!(
        blockchain.add_transaction(wrong_nonce),
        Err("Invalid nonce".to_string())
    );

    assert_eq!(blockchain.get_pending_transaction_count(), 0);
}

#[test]
fn test_mining_applies_transfers_and_reward() {
    let mut blockchain = Blockchain::new();
    let tx = Transaction::new("alice".to_string(), "bob".to_string(), 200, 1);
    blockchain.add_transaction(tx).unwrap();
    let block = blockchain.mine_pending_transactions("miner".to_string()).unwrap();

    assert_eq!(block.index, 1);
    assert_eq!(block.transactions.len(), 2);
    assert_eq!(block.transactions[0].from, "network");
    assert_eq!(block.transactions[0].to, "miner");
    assert_eq!(block.transactions[0].amount, 100);
    assert!(block.rps_mining_result.as_ref().unwrap().success);

    assert_eq!(blockchain.get_balance(&"alice".to_string()), 800);
    assert_eq!(blockchain.get_balance(&"bob".to_string()), 700);
    assert_eq!(blockchain.get_balance(&"miner".to_string()), 100);
    assert_eq!(blockchain.system.get_nonce(&"alice".to_string()), 1);
    assert_eq!(blockchain.system.get_block_number(), 1);
    assert_eq!(blockchain.get_pending_transaction_count(), 0);
}

#[test]
fn test_sealing_repeatedly_always_succeeds() {
    let mut blockchain = Blockchain::new();
    for i in 0..3u32 {
        let block = blockchain.mine_pending_transactions("miner".to_string()).unwrap();
        assert_eq!(block.index, i + 1);
        let result = block.rps_mining_result.as_ref().unwrap();
        assert!(result.success);
        assert!(result.rounds <= 2);
    }
    assert_eq!(blockchain.get_chain_length(), 4);
    assert!(blockchain.is_chain_valid());
    assert!(blockchain.get_total_rps_games() > 0);
}

#[test]
fn test_transaction_proof_through_chain() {
    let mut blockchain = Blockchain::new();
    let tx = Transaction::new("alice".to_string(), "bob".to_string(), 50, 1);
    let tx_hash = tx.hash;
    blockchain.add_transaction(tx).unwrap();
    blockchain.mine_pending_transactions("miner".to_string()).unwrap();

    let (found_block, found_tx, index) = blockchain.find_transaction(&tx_hash).unwrap();
    assert_eq!(found_tx.hash, tx_hash);
    assert_eq!(found_block.index, 1);
    assert_eq!(index, 1);

    let (proof, tx_index, block_index) = blockchain.get_transaction_proof(&tx_hash).unwrap();
    let tx_copy = blockchain.chain[1].transactions[1].clone();
    assert!(blockchain.verify_transaction_proof(&tx_copy, &proof, tx_index, block_index));

    let other = Transaction::new("someone".to_string(), "else".to_string(), 1, 1);
    assert!(!blockchain.verify_transaction_proof(&other, &proof, tx_index, block_index));
    assert!(blockchain.find_transaction(&other.hash).is_none());
}

#[test]
fn test_state_root_tracks_balances() {
    let mut blockchain = Blockchain::new();
    let root_before = blockchain.get_state_root().unwrap();
    blockchain.balances.set_balance(&"carol".to_string(), 77);
    let root_after = blockchain.get_state_root().unwrap();
    assert_ne!(root_before, root_after);
    let tree = blockchain.create_state_merkle_tree();
    assert_eq!(tree.len(), 4);
}

#[test]
fn test_balances_pallet() {
    let mut pallet = phlopchain::balances::Pallet::new();
    assert_eq!(pallet.get_balance(&"alice".to_string()), 0);
    pallet.set_balance(&"alice".to_string(), 100);
    assert_eq!(pallet.get_balance(&"alice".to_string()), 100);

    assert_eq!(
        pallet.transfer("alice".to_string(), "bob".to_string(), 150),
        Err("Insufficient sender balance")
    );
    assert_eq!(pallet.transfer("alice".to_string(), "bob".to_string(), 40), Ok(()));
    assert_eq!(pallet.get_balance(&"alice".to_string()), 60);
    assert_eq!(pallet.get_balance(&"bob".to_string()), 40);
}

#[test]
fn test_system_pallet() {
    let mut pallet = phlopchain::system::Pallet::new();
    assert_eq!(pallet.get_block_number(), 0);
    pallet.inc_block_number(&"anyone".to_string());
    assert_eq!(pallet.get_block_number(), 1);

    assert_eq!(pallet.get_nonce(&"alice".to_string()), 0);
    pallet.inc_nonce(&"alice".to_string());
    pallet.inc_nonce(&"alice".to_string());
    assert_eq!(pallet.get_nonce(&"alice".to_string()), 2);
    assert_eq!(pallet.get_nonce(&"bob".to_string()), 0);
}
