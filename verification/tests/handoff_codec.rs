use kadchain::blockchain::{effective_next_nonce, mine_block, Blockchain};
use kadchain::crypto::ed25519_public_key;
use kadchain::handoff::{decode_chain, encode_chain};
use kadchain::pool::TransactionPool;
use kadchain::transaction::{Transaction, TransactionType};

const DIFF: usize = 2;
const ATTEMPTS: u64 = 10_000_000;

fn chain_with_history() -> Blockchain {
    let mut chain = Blockchain::new();
    let mut pool = TransactionPool::new();
    let sk = vec![3u8; 32];
    let sender = ed25519_public_key(&sk);
    let n = effective_next_nonce(&chain, &pool, &sender);
    let transfer = Transaction::create(&sk, TransactionType::Transfer, Some(25), None, 1, n, 10);
    pool.submit_transaction(transfer).unwrap();
    let n = effective_next_nonce(&chain, &pool, &sender);
    let data = Transaction::create(&sk, TransactionType::Data, None, Some(b"payload".to_vec()), 1,
        n, 20);
    pool.submit_transaction(data).unwrap();
    mine_block(&mut chain, &mut pool, DIFF, 30, ATTEMPTS).expect("mined");
    chain
}

#[test]
fn hand_off_round_trips_a_chain_with_transactions() {
    let chain = chain_with_history();
    let bytes = encode_chain(&chain);
    let back = decode_chain(&bytes).expect("an encoded chain decodes");
    assert_eq!(back.height(), chain.height());
    assert_eq!(back.last_hash(), chain.last_hash());
    let original = chain.collect_txs();
    let decoded = back.collect_txs();
    assert_eq!(original.len(), decoded.len());
    for (x, y) in original.iter().zip(decoded.iter()) {
        assert_eq!(x.tx_hash, y.tx_hash);
        assert_eq!(x.signature, y.signature);
        assert_eq!(x.data.sender, y.data.sender);
        assert_eq!(x.data.amount, y.data.amount);
        assert_eq!(x.data.data, y.data.data);
        assert_eq!(x.data.fee, y.data.fee);
        assert_eq!(x.data.nonce, y.data.nonce);
        assert_eq!(x.data.timestamp, y.data.timestamp);
        assert!(y.verify(), "a decoded transaction still checks out");
    }
    assert!(back.is_valid_chain(DIFF));
}

#[test]
fn malformed_hand_off_messages_decode_to_nothing() {
    assert!(decode_chain(&Vec::new()).is_none());
    assert!(decode_chain(&vec![0u8; 15]).is_none());
    assert!(decode_chain(&b"NOT_A_CHAIN_AT_ALL!!".to_vec()).is_none());
    let chain = chain_with_history();
    let bytes = encode_chain(&chain);
    let mut truncated = bytes.clone();
    truncated.pop();
    assert!(decode_chain(&truncated).is_none());
    let mut trailing = bytes.clone();
    trailing.push(0);
    assert!(decode_chain(&trailing).is_none());
    let mut wrong_magic = bytes;
    wrong_magic[0] ^= 1;
    assert!(decode_chain(&wrong_magic).is_none());
}
