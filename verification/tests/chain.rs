use kadchain::blockchain::{create_transaction, effective_next_nonce, mine_block, Blockchain};
use kadchain::crypto::ed25519_public_key;
use kadchain::pool::{PoolError, TransactionPool};
use kadchain::transaction::{Transaction, TransactionType};

const DIFF: usize = 2;
const ATTEMPTS: u64 = 10_000_000;

#[test]
fn genesis_chain_is_valid_and_empty() {
    let chain = Blockchain::new();
    assert_eq!(chain.height(), 1);
    assert!(chain.is_valid_chain(DIFF));
    assert_eq!(chain.collect_txs().len(), 0);
}

#[test]
fn mining_empty_pool_yields_valid_empty_block() {
    let mut chain = Blockchain::new();
    let mut pool = TransactionPool::new();
    let tip = chain.last_hash();
    let block = mine_block(&mut chain, &mut pool, DIFF, 1000, ATTEMPTS).expect("mined");
    assert_eq!(block.index, 1);
    assert_eq!(block.previous_hash, tip);
    assert!(block.transactions.is_empty());
    assert!(block.has_valid_hash(DIFF));
    assert_eq!(chain.height(), 2);
    assert!(chain.is_valid_chain(DIFF));
}

#[test]
fn sequential_submissions_get_strictly_increasing_nonces() {
    let chain = Blockchain::new();
    let mut pool = TransactionPool::new();
    let sk = vec![5u8; 32];
    let sender = ed25519_public_key(&sk);

    let n0 = effective_next_nonce(&chain, &pool, &sender);
    assert_eq!(n0, 0);
    let tx0 = Transaction::create(&sk, TransactionType::Transfer, Some(10), None, 1, n0, 111);
    pool.submit_transaction(tx0).unwrap();

    let n1 = effective_next_nonce(&chain, &pool, &sender);
    assert_eq!(n1, 1);
    let tx1 = Transaction::create(&sk, TransactionType::Transfer, Some(20), None, 1, n1, 222);
    pool.submit_transaction(tx1).unwrap();

    let n2 = effective_next_nonce(&chain, &pool, &sender);
    assert_eq!(n2, 2);
    assert_eq!(pool.get_pending_by_sender(&sender).len(), 2);
}

#[test]
fn mined_transactions_raise_the_confirmed_nonce() {
    let mut chain = Blockchain::new();
    let mut pool = TransactionPool::new();
    let sk = vec![6u8; 32];
    let sender = ed25519_public_key(&sk);
    for _ in 0..2 {
        let n = effective_next_nonce(&chain, &pool, &sender);
        let tx = Transaction::create(&sk, TransactionType::Data, None, Some(b"x".to_vec()), 1, n,
            10);
        pool.submit_transaction(tx).unwrap();
    }
    let block = mine_block(&mut chain, &mut pool, DIFF, 50, ATTEMPTS).expect("mined");
    assert_eq!(block.transactions.len(), 2);
    assert_eq!(pool.size(), 0, "every mined transaction leaves the pool");
    assert_eq!(chain.get_next_nonce(&sender), 2);
    assert!(chain.is_valid_chain(DIFF));
    // effective next nonce now comes from the chain alone
    assert_eq!(effective_next_nonce(&chain, &pool, &sender), 2);
}

#[test]
fn create_transaction_allocates_the_effective_nonce() {
    let mut chain = Blockchain::new();
    let mut pool = TransactionPool::new();
    let sk = vec![8u8; 32];
    let sender = ed25519_public_key(&sk);
    let tx0 = create_transaction(&chain, &pool, &sk, TransactionType::Transfer, Some(3), None, 1,
        10);
    assert_eq!(tx0.data.nonce, 0);
    pool.submit_transaction(tx0).unwrap();
    let tx1 = create_transaction(&chain, &pool, &sk, TransactionType::Transfer, Some(4), None, 1,
        20);
    assert_eq!(tx1.data.nonce, 1, "one pending transaction raises the allocation by one");
    pool.submit_transaction(tx1).unwrap();
    mine_block(&mut chain, &mut pool, DIFF, 30, ATTEMPTS).expect("mined");
    let tx2 = create_transaction(&chain, &pool, &sk, TransactionType::Transfer, Some(5), None, 1,
        40);
    assert_eq!(tx2.data.nonce, 2, "confirmed transactions count as well");
}

#[test]
fn pool_rejects_duplicates_and_invalid_transactions() {
    let mut pool = TransactionPool::new();
    let sk = vec![9u8; 32];
    let tx = Transaction::create(&sk, TransactionType::Transfer, Some(5), None, 1, 0, 77);
    let copy = tx.duplicate();
    assert!(tx.verify());
    pool.submit_transaction(tx).unwrap();
    assert_eq!(
        pool.submit_transaction(copy),
        Err(PoolError::Duplicate),
        "the same content hash is admitted only once"
    );
    let mut bad = Transaction::create(&sk, TransactionType::Transfer, Some(6), None, 1, 1, 78);
    bad.signature[0] ^= 1;
    assert!(!bad.verify());
    assert_eq!(pool.submit_transaction(bad), Err(PoolError::InvalidTransaction));
    assert_eq!(pool.size(), 1);
}

#[test]
fn tampered_chain_fails_validation() {
    let mut chain = Blockchain::new();
    let mut pool = TransactionPool::new();
    mine_block(&mut chain, &mut pool, DIFF, 7, ATTEMPTS).expect("mined");
    assert!(chain.is_valid_chain(DIFF));
    chain.blocks[1].timestamp += 1;
    assert!(!chain.is_valid_chain(DIFF), "a changed field no longer matches the recorded hash");
}

#[test]
fn transaction_round_trip_through_verify() {
    let sk = vec![4u8; 32];
    let tx = Transaction::create(&sk, TransactionType::Data, None, Some(b"hello".to_vec()), 1, 0,
        42);
    assert!(tx.verify());
    let mut wrong_hash = tx.duplicate();
    wrong_hash.tx_hash[0] ^= 1;
    assert!(!wrong_hash.verify());
    let mut wrong_field = tx.duplicate();
    wrong_field.data.fee += 1;
    assert!(!wrong_field.verify(), "the hash covers every signed field");
}
