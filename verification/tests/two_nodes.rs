use kadchain::blockchain::mine_block;
use kadchain::handoff::{decode_chain, encode_chain};
use kadchain::node::Node;
use kadchain::pow::find_pow_nonce;
use kadchain::service::{handoff_key, KademliaService, ServiceError, DIFFICULTY_POW,
    MINING_DIFFICULTY};

fn node_with(first: u8) -> Node {
    let mut id = [0u8; 20];
    id[0] = first;
    Node::new(id, 0x7f000001, 9000 + first as u16)
}

#[test]
fn ping_always_answers_alive_and_records_the_sender() {
    let a = node_with(1);
    let b = node_with(2);
    let mut svc = KademliaService::new(a);
    let (reply, cand) = svc.ping(Some(&b));
    assert!(reply.alive);
    assert!(cand.is_none());
    let (found, _) = svc.find_node(None, &b.id.to_vec());
    let nodes = found.unwrap();
    assert!(nodes.iter().any(|n| n.id == b.id));
}

#[test]
fn store_rejects_short_keys() {
    let a = node_with(1);
    let mut svc = KademliaService::new(a);
    let (r, _) = svc.store(None, vec![1, 2, 3], b"value".to_vec());
    assert_eq!(r.unwrap_err(), ServiceError::InvalidArgument);
}

#[test]
fn find_node_rejects_short_ids() {
    let a = node_with(1);
    let mut svc = KademliaService::new(a);
    let (r, _) = svc.find_node(None, &vec![0u8; 19]);
    assert_eq!(r.unwrap_err(), ServiceError::InvalidArgument);
}

#[test]
fn stored_values_come_back_and_misses_return_peers() {
    let a = node_with(1);
    let b = node_with(2);
    let mut svc = KademliaService::new(a);
    svc.ping(Some(&b));
    let key = vec![0xaau8; 20];
    let (stored, _) = svc.store(None, key.clone(), b"plain bytes".to_vec());
    assert!(stored.unwrap().success);
    let (found, _) = svc.find_value(None, &key);
    let reply = found.unwrap();
    assert_eq!(reply.value.as_deref(), Some(b"plain bytes".as_slice()));
    assert!(reply.nodes.is_empty());
    let (missing, _) = svc.find_value(None, &vec![0xbbu8; 20]);
    let reply = missing.unwrap();
    assert!(reply.value.is_none());
    assert!(reply.nodes.iter().any(|n| n.id == b.id), "a miss names the closest peers");
}

#[test]
fn join_rejects_an_invalid_proof_of_work() {
    let a = node_with(1);
    let b = node_with(2);
    let mut svc = KademliaService::new(a);
    let (r, cand) = svc.join(&b, 0, &vec![0xffu8; 32]);
    assert_eq!(r.unwrap_err(), ServiceError::PermissionDenied);
    assert!(cand.is_none());
    let (found, _) = svc.find_node(None, &b.id.to_vec());
    assert!(found.unwrap().is_empty(), "a rejected join admits nothing");
}

#[test]
fn two_nodes_join_and_hand_off_the_chain() {
    let a = node_with(1);
    let b = node_with(2);
    let mut svc_a = KademliaService::new(a);
    let mut svc_b = KademliaService::new(b);

    // A has history that B lacks
    mine_block(&mut svc_a.blockchain, &mut svc_a.pool, MINING_DIFFICULTY, 1000, 10_000_000)
        .expect("mined");
    assert_eq!(svc_a.blockchain.height(), 2);
    assert_eq!(svc_b.blockchain.height(), 1);

    // B proves work over its own identifier and joins A
    let (nonce, pow_hash) = find_pow_nonce(&b.id.to_vec(), DIFFICULTY_POW, 10_000_000)
        .expect("a proof of work exists");
    let (joined, _) = svc_a.join(&b, nonce, &pow_hash);
    let reply = joined.unwrap();
    assert!(reply.accepted);
    assert!(reply.closest_nodes.iter().any(|n| n.id == a.id), "the answering node names itself");

    // A's routing table now knows B
    let (found, _) = svc_a.find_node(None, &b.id.to_vec());
    assert!(found.unwrap().iter().any(|n| n.id == b.id));

    // B records every peer the reply named, A among them
    for peer in &reply.closest_nodes {
        if peer.id != b.id {
            svc_b.ping(Some(peer));
        }
    }
    let (found, _) = svc_b.find_node(None, &a.id.to_vec());
    assert!(found.unwrap().iter().any(|n| n.id == a.id));

    // B fetches its bootstrap chain under the well-known hand-off key
    let key = handoff_key(&b.id);
    let (fetched, _) = svc_a.find_value(None, &key);
    let bytes = fetched.unwrap().value.expect("the hand-off was stored");
    let chain = decode_chain(&bytes).expect("the hand-off decodes");
    assert_eq!(chain.height(), svc_a.blockchain.height());
    assert_eq!(chain.last_hash(), svc_a.blockchain.last_hash());
    assert_eq!(bytes, encode_chain(&svc_a.blockchain));

    // storing the hand-off on B adopts the longer valid chain
    let (stored, _) = svc_b.store(Some(&a), key, bytes);
    assert!(stored.unwrap().success);
    assert_eq!(svc_b.blockchain.height(), svc_a.blockchain.height());
    assert_eq!(svc_b.blockchain.last_hash(), svc_a.blockchain.last_hash());
    assert!(svc_b.blockchain.is_valid_chain(MINING_DIFFICULTY));
}

#[test]
fn a_shorter_or_equal_chain_is_not_adopted() {
    let a = node_with(1);
    let b = node_with(2);
    let svc_a = KademliaService::new(a);
    let mut svc_b = KademliaService::new(b);
    mine_block(&mut svc_b.blockchain, &mut svc_b.pool, MINING_DIFFICULTY, 500, 10_000_000)
        .expect("mined");
    let tip_before = svc_b.blockchain.last_hash();
    // A's chain is only the genesis block: same length as nothing to gain
    let bytes = encode_chain(&svc_a.blockchain);
    let (stored, _) = svc_b.store(None, vec![0x01u8; 20], bytes);
    assert!(stored.unwrap().success);
    assert_eq!(svc_b.blockchain.height(), 2);
    assert_eq!(svc_b.blockchain.last_hash(), tip_before);
}
