use kadchain::node::Node;
use kadchain::routing_table::RoutingTable;
use kadchain::kbucket::K;

fn id_with(first: u8, last: u8) -> [u8; 20] {
    let mut id = [0u8; 20];
    id[0] = first;
    id[19] = last;
    id
}

#[test]
fn xor_distance_of_id_with_itself_is_zero() {
    let a = id_with(0xab, 0xcd);
    let d = RoutingTable::xor_distance(&a, &a);
    assert_eq!(d, vec![0u8; 20]);
}

#[test]
fn xor_distance_is_symmetric() {
    let a = id_with(0x12, 0x34);
    let b = id_with(0x56, 0x78);
    assert_eq!(
        RoutingTable::xor_distance(&a, &b),
        RoutingTable::xor_distance(&b, &a)
    );
}

#[test]
fn xor_distance_concrete_value() {
    let a = id_with(0xf0, 0x0f);
    let b = id_with(0x0f, 0xf0);
    let d = RoutingTable::xor_distance(&a, &b);
    assert_eq!(d[0], 0xff);
    assert_eq!(d[19], 0xff);
    for i in 1..19 {
        assert_eq!(d[i], 0x00);
    }
}

#[test]
fn find_closest_nodes_is_sorted_and_bounded() {
    let local = [0u8; 20];
    let mut table = RoutingTable::new(local);
    for last in 1..=10u8 {
        table.update(Node::new(id_with(0x80, last), 0, last as u16));
    }
    let target = vec![0u8; 20];
    let three = table.find_closest_nodes(&target, 3);
    assert_eq!(three.len(), 3);
    let all = table.find_closest_nodes(&target, 100);
    assert_eq!(all.len(), 10);
    for w in all.windows(2) {
        let da = RoutingTable::xor_distance(
            &<[u8; 20]>::try_from(target.as_slice()).unwrap(),
            &w[0].id,
        );
        let db = RoutingTable::xor_distance(
            &<[u8; 20]>::try_from(target.as_slice()).unwrap(),
            &w[1].id,
        );
        assert!(da <= db, "nodes must come in non-decreasing XOR distance");
    }
}

#[test]
fn closest_node_is_the_nearest_stored_peer() {
    let local = [0u8; 20];
    let mut table = RoutingTable::new(local);
    table.update(Node::new(id_with(0x80, 1), 0, 1));
    table.update(Node::new(id_with(0x80, 2), 0, 2));
    table.update(Node::new(id_with(0x81, 3), 0, 3));
    // target equal to one stored id: that node is at distance zero
    let mut target = vec![0u8; 20];
    target[0] = 0x80;
    target[19] = 2;
    let closest = table.find_closest_nodes(&target, 1);
    assert_eq!(closest.len(), 1);
    assert_eq!(closest[0].id[19], 2);
}

#[test]
fn full_bucket_keeps_membership_and_proposes_lru() {
    let local = [0u8; 20];
    let mut table = RoutingTable::new(local);
    // all these ids share their first set bit at position 0: one bucket
    for last in 1..=(K as u8) {
        let cand = table.update(Node::new(id_with(0x80, last), 0, last as u16));
        assert!(cand.is_none(), "bucket with room never proposes an eviction");
    }
    let newcomer = Node::new(id_with(0x80, 99), 0, 99);
    let cand = table.update(newcomer);
    let lru = cand.expect("a full bucket proposes its least recently seen entry");
    assert_eq!(lru.id[19], 1, "the first inserted peer is least recently seen");
    // membership unchanged: newcomer absent, all originals present
    let all = table.find_closest_nodes(&vec![0u8; 20], 100);
    assert_eq!(all.len(), K);
    assert!(all.iter().all(|n| n.id[19] != 99));
}

#[test]
fn replace_node_swaps_lru_for_newcomer() {
    let local = [0u8; 20];
    let mut table = RoutingTable::new(local);
    for last in 1..=(K as u8) {
        table.update(Node::new(id_with(0x80, last), 0, last as u16));
    }
    let newcomer = Node::new(id_with(0x80, 99), 0, 99);
    let lru = table.update(newcomer).unwrap();
    // the probe failed: commit the swap
    table.replace_node(lru, newcomer);
    let all = table.find_closest_nodes(&vec![0u8; 20], 100);
    assert_eq!(all.len(), K);
    assert!(all.iter().any(|n| n.id[19] == 99));
    assert!(all.iter().all(|n| n.id[19] != 1));
}

#[test]
fn refreshing_known_peer_never_evicts() {
    let local = [0u8; 20];
    let mut table = RoutingTable::new(local);
    for last in 1..=(K as u8) {
        table.update(Node::new(id_with(0x80, last), 0, last as u16));
    }
    // the bucket is full, but a known peer is only refreshed
    let cand = table.update(Node::new(id_with(0x80, 5), 0, 500));
    assert!(cand.is_none());
}

#[test]
fn local_id_is_never_stored() {
    let local = id_with(0x42, 0x42);
    let mut table = RoutingTable::new(local);
    table.update(Node::new(local, 0, 7));
    let all = table.find_closest_nodes(&local.to_vec(), 100);
    assert!(all.is_empty());
}
