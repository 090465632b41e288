use kadchain::auction::{collect_auctions, decode_payload, encode_payload, generate_auction_id,
    tx_bid, tx_create_auction, tx_end_auction, tx_start_auction, Auction, AuctionCommand,
    AuctionStatus};
use kadchain::crypto::ed25519_public_key;
use kadchain::transaction::Transaction;

const SK_A: [u8; 32] = [1u8; 32];
const SK_B: [u8; 32] = [2u8; 32];
const SK_C: [u8; 32] = [3u8; 32];

fn auctions_equal(x: &Auction, y: &Auction) -> bool {
    x.auction_id == y.auction_id && x.title == y.title && x.description == y.description
        && x.owner == y.owner && x.status == y.status && x.start_time == y.start_time
        && x.end_time == y.end_time && x.highest_bid == y.highest_bid
}

#[test]
fn payload_codec_round_trips() {
    let cases = vec![
        AuctionCommand::CreateAuction { title: b"lamp".to_vec(), description: b"an old lamp".to_vec() },
        AuctionCommand::StartAuction { id: vec![9u8; 32] },
        AuctionCommand::Bid { id: vec![9u8; 32], amount: 1234567890123 },
        AuctionCommand::EndAuction { id: Vec::new() },
    ];
    for cmd in cases {
        let bytes = encode_payload(&cmd);
        assert!(bytes.starts_with(b"AUCTION_"));
        let back = decode_payload(&bytes).expect("an encoded payload decodes");
        let again = encode_payload(&back);
        assert_eq!(bytes, again, "decode followed by encode reproduces the bytes");
    }
}

#[test]
fn malformed_payloads_decode_to_nothing() {
    assert!(decode_payload(&Vec::new()).is_none());
    assert!(decode_payload(&b"AUCTION_".to_vec()).is_none());
    assert!(decode_payload(&b"SOMETHING_ELSE_ENTIRELY".to_vec()).is_none());
    let mut truncated = encode_payload(&AuctionCommand::StartAuction { id: vec![1, 2, 3] });
    truncated.pop();
    assert!(decode_payload(&truncated).is_none());
    let mut trailing = encode_payload(&AuctionCommand::EndAuction { id: vec![1, 2, 3] });
    trailing.push(0);
    assert!(decode_payload(&trailing).is_none());
}

#[test]
fn bid_before_start_is_ignored() {
    let sk_a = SK_A.to_vec();
    let sk_b = SK_B.to_vec();
    let pk_a = ed25519_public_key(&sk_a);
    let title = b"clock".to_vec();
    let description = b"a wall clock".to_vec();
    let id = generate_auction_id(&pk_a, &title, &description, 0);

    let txs: Vec<Transaction> = vec![
        tx_create_auction(&sk_a, title, description, 0, 100),
        tx_bid(&sk_b, id.clone(), 50, 0, 200),
        tx_start_auction(&sk_a, id.clone(), 1, 300),
    ];
    let auctions = collect_auctions(&txs);
    assert_eq!(auctions.len(), 1);
    let a = &auctions[0];
    assert_eq!(a.auction_id, id);
    assert_eq!(a.status, AuctionStatus::Active);
    assert_eq!(a.start_time, Some(300));
    assert!(a.highest_bid.is_none(), "a bid before the start is dropped");
}

#[test]
fn full_lifecycle_keeps_highest_bid() {
    let sk_a = SK_A.to_vec();
    let sk_b = SK_B.to_vec();
    let sk_c = SK_C.to_vec();
    let pk_a = ed25519_public_key(&sk_a);
    let pk_c = ed25519_public_key(&sk_c);
    let title = b"chair".to_vec();
    let description = b"a good chair".to_vec();
    let id = generate_auction_id(&pk_a, &title, &description, 0);

    let txs: Vec<Transaction> = vec![
        tx_create_auction(&sk_a, title.clone(), description.clone(), 0, 100),
        tx_start_auction(&sk_a, id.clone(), 1, 200),
        tx_bid(&sk_b, id.clone(), 50, 0, 300),
        tx_bid(&sk_c, id.clone(), 80, 0, 400),
        tx_end_auction(&sk_a, id.clone(), 2, 500),
    ];
    let auctions = collect_auctions(&txs);
    assert_eq!(auctions.len(), 1);
    let a = &auctions[0];
    assert_eq!(a.status, AuctionStatus::Ended);
    assert_eq!(a.end_time, Some(500));
    assert_eq!(a.title, title);
    assert_eq!(a.owner, pk_a);
    let (amount, bidder) = a.highest_bid.clone().expect("the auction got bids");
    assert_eq!(amount, 80);
    assert_eq!(bidder, pk_c, "the higher second bid wins");
}

#[test]
fn lower_bid_after_higher_is_ignored() {
    let sk_a = SK_A.to_vec();
    let sk_b = SK_B.to_vec();
    let sk_c = SK_C.to_vec();
    let pk_a = ed25519_public_key(&sk_a);
    let pk_b = ed25519_public_key(&sk_b);
    let title = b"vase".to_vec();
    let description = b"a thin vase".to_vec();
    let id = generate_auction_id(&pk_a, &title, &description, 0);

    let txs: Vec<Transaction> = vec![
        tx_create_auction(&sk_a, title, description, 0, 100),
        tx_start_auction(&sk_a, id.clone(), 1, 200),
        tx_bid(&sk_b, id.clone(), 80, 0, 300),
        tx_bid(&sk_c, id.clone(), 50, 0, 400),
        tx_bid(&sk_c, id.clone(), 80, 1, 500),
    ];
    let auctions = collect_auctions(&txs);
    let (amount, bidder) = auctions[0].highest_bid.clone().unwrap();
    assert_eq!(amount, 80);
    assert_eq!(bidder, pk_b, "neither a lower nor an equal later bid displaces the first");
}

#[test]
fn duplicate_creation_is_idempotent() {
    let sk_a = SK_A.to_vec();
    let pk_a = ed25519_public_key(&sk_a);
    let title = b"rug".to_vec();
    let description = b"a red rug".to_vec();
    let id = generate_auction_id(&pk_a, &title, &description, 0);
    // the same creating transaction observed twice derives the same id,
    // and the second observation is ignored
    let create = tx_create_auction(&sk_a, title, description, 0, 100);
    let txs: Vec<Transaction> = vec![create.duplicate(), create];
    let auctions = collect_auctions(&txs);
    assert_eq!(auctions.len(), 1);
    assert_eq!(auctions[0].auction_id, id);
}

#[test]
fn replaying_the_same_log_twice_is_identical() {
    let sk_a = SK_A.to_vec();
    let sk_b = SK_B.to_vec();
    let pk_a = ed25519_public_key(&sk_a);
    let title = b"boat".to_vec();
    let description = b"a small boat".to_vec();
    let id = generate_auction_id(&pk_a, &title, &description, 0);
    let txs: Vec<Transaction> = vec![
        tx_create_auction(&sk_a, title, description, 0, 100),
        tx_start_auction(&sk_a, id.clone(), 1, 200),
        tx_bid(&sk_b, id.clone(), 10, 0, 300),
    ];
    let first = collect_auctions(&txs);
    let second = collect_auctions(&txs);
    assert_eq!(first.len(), second.len());
    for (x, y) in first.iter().zip(second.iter()) {
        assert!(auctions_equal(x, y), "replay is a pure fold");
    }
}

#[test]
fn auction_id_is_deterministic_and_nonce_sensitive() {
    let pk = vec![7u8; 32];
    let a = generate_auction_id(&pk, &b"t".to_vec(), &b"d".to_vec(), 0);
    let b = generate_auction_id(&pk, &b"t".to_vec(), &b"d".to_vec(), 0);
    let c = generate_auction_id(&pk, &b"t".to_vec(), &b"d".to_vec(), 1);
    assert_eq!(a, b);
    assert_ne!(a, c);
    assert_eq!(a.len(), 32);
}

#[test]
fn operations_on_unknown_auctions_are_ignored() {
    let sk_b = SK_B.to_vec();
    let txs: Vec<Transaction> = vec![
        tx_bid(&sk_b, vec![1u8; 32], 50, 0, 100),
        tx_start_auction(&sk_b, vec![1u8; 32], 1, 200),
        tx_end_auction(&sk_b, vec![1u8; 32], 2, 300),
    ];
    let auctions = collect_auctions(&txs);
    assert!(auctions.is_empty());
}
