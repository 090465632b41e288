use vstd::prelude::*;
use crate::blockchain::{Blockchain, spec_chain_valid};
use crate::bytes_util::{copy_bytes, push_bytes};
use crate::crypto::{sha256, sha256_of};
use crate::handoff::{decode_chain, encode_chain, spec_decode_chain, spec_encode_chain};
use crate::ids::ID_LENGTH;
use crate::kbucket::K;
use crate::node::{Node, id_eq, id_to_vec};
use crate::pool::TransactionPool;
use crate::pow::{spec_meets_difficulty, spec_pow_message, verify_pow};
use crate::routing_table::{RoutingTable, spec_closest_result, spec_replace_relation,
    spec_update_relation};
use crate::storage::Storage;

verus! {

/// Leading zero nibbles a JOIN proof of work must show; a cheap admission
/// gate, independent of the block-mining difficulty.
pub const DIFFICULTY_POW: usize = 2;

/// Leading zero nibbles a mined block's hash must show.
pub const MINING_DIFFICULTY: usize = 2;

/// Length in bytes of a storage key, the same as a node identifier.
pub const KEY_LENGTH: usize = 20;

/// Typed failures a request can come back with.
#[derive(Clone, Copy, PartialEq, Eq, Structural, Debug)]
pub enum ServiceError {
    /// A fixed-length field had the wrong length, or the sender was
    /// unusable.
    InvalidArgument,
    /// The proof of work offered with a JOIN did not check out.
    PermissionDenied,
}

/// Answer to a PING: the node is alive.
#[derive(Debug)]
pub struct PingReply {
    pub alive: bool,
}

/// Answer to a STORE.
#[derive(Debug)]
pub struct StoreReply {
    pub success: bool,
}

/// Answer to a FIND_VALUE: the value when present, otherwise the closest
/// known peers to continue the search at.
#[derive(Debug)]
pub struct FindValueReply {
    pub value: Option<Vec<u8>>,
    pub nodes: Vec<Node>,
}

/// Answer to a JOIN: admission, and the closest known peers including the
/// answering node itself.
#[derive(Debug)]
pub struct JoinReply {
    pub accepted: bool,
    pub closest_nodes: Vec<Node>,
}

/// The label the hand-off key is derived under; the joining node knows it
/// and can look the chain up.
pub open spec fn spec_handoff_label() -> Seq<u8> {
    seq![
        105u8,
        110u8,
        105u8,
        116u8,
        105u8,
        97u8,
        108u8,
        95u8,
        98u8,
        108u8,
        111u8,
        99u8,
        107u8,
        99u8,
        104u8,
        97u8,
        105u8,
        110u8,
    ]
}

/// The well-known key the chain hand-off for a joining node is stored
/// under: the first twenty digest bytes of the label and the new node's
/// identifier.
pub open spec fn spec_handoff_key(id: Seq<u8>) -> Seq<u8> {
    sha256_of(spec_handoff_label() + id).subrange(0, KEY_LENGTH as int)
}

/// The label bytes, spelling the fixed hand-off tag.
fn handoff_label() -> (r: Vec<u8>)
    ensures
        r@ == spec_handoff_label(),
{
    let mut r: Vec<u8> = Vec::new();
    r.push(105);
    r.push(110);
    r.push(105);
    r.push(116);
    r.push(105);
    r.push(97);
    r.push(108);
    r.push(95);
    r.push(98);
    r.push(108);
    r.push(111);
    r.push(99);
    r.push(107);
    r.push(99);
    r.push(104);
    r.push(97);
    r.push(105);
    r.push(110);
    proof {
        assert(r@ =~= spec_handoff_label());
    }
    r
}

/// Computes the well-known hand-off key for a node identifier.
pub fn handoff_key(id: &[u8; ID_LENGTH]) -> (r: Vec<u8>)
    ensures
        r@ == spec_handoff_key(id@),
        r@.len() == KEY_LENGTH,
{
    let mut msg = handoff_label();
    let id_vec = id_to_vec(id);
    push_bytes(&mut msg, &id_vec);
    proof {
        assert(msg@ =~= spec_handoff_label() + id@);
    }
    let mut digest = sha256(&msg);
    digest.truncate(KEY_LENGTH);
    digest
}

/// Whether some listed peer carries the identifier `id`.
fn contains_node_id(nodes: &Vec<Node>, id: &[u8; ID_LENGTH]) -> (r: bool)
    ensures
        r == exists|j: int| 0 <= j < nodes@.len() && nodes@[j].id@ == id@,
{
    let mut i: usize = 0;
    while i < nodes.len()
        invariant
            i <= nodes@.len(),
            forall|j: int| 0 <= j < i ==> nodes@[j].id@ != id@,
        decreases nodes@.len() - i,
    {
        if id_eq(&nodes[i].id, id) {
            proof {
                assert(nodes@[i as int].id@ == id@);
            }
            return true;
        }
        i += 1;
    }
    false
}

/// The routing-table part of handling a request: when the request names a
/// sender, the table is refreshed with it by the update protocol and
/// `cand` is the eviction candidate that came back; without a sender the
/// table is untouched.
pub open spec fn spec_sender_refresh(
    pre: RoutingTable,
    post: RoutingTable,
    sender: Option<Node>,
    cand: Option<Node>,
) -> bool {
    match sender {
        Some(n) => spec_update_relation(pre, post, n, cand),
        None => post.local_id() == pre.local_id() && post.spec_buckets() == pre.spec_buckets()
            && cand is None,
    }
}

/// The request handler of one node: it owns the node's identity, routing
/// table, content store, chain and transaction pool, and answers the five
/// protocol operations against them. Network probes are not made here:
/// where an update proposes an eviction, the candidate is handed back to
/// the caller, which probes it and commits through `replace_node` on
/// failure.
pub struct KademliaService {
    pub node: Node,
    pub routing_table: RoutingTable,
    pub storage: Storage,
    pub blockchain: Blockchain,
    pub pool: TransactionPool,
}

impl KademliaService {
    /// Every owned structure keeps its invariant, and the routing table is
    /// the one of this node's identifier.
    pub open spec fn wf(self) -> bool {
        &&& self.routing_table.wf()
        &&& self.routing_table.local_id() == self.node.id@
        &&& self.storage.wf()
        &&& self.blockchain.wf()
        &&& self.pool.wf()
    }

    /// A fresh service for `node`: empty routing table and store, a chain
    /// holding only the genesis block, and an empty pool.
    pub fn new(node: Node) -> (r: KademliaService)
        ensures
            r.wf(),
            r.node == node,
            r.routing_table.all_nodes() == Seq::<Node>::empty(),
            r.storage.contents() == Map::<Seq<u8>, Seq<u8>>::empty(),
            r.blockchain.spec_chain().len() == 1,
            r.pool.spec_txs() == Seq::<crate::transaction::TransactionView>::empty(),
    {
        let routing_table = RoutingTable::new(node.id);
        KademliaService {
            node,
            routing_table,
            storage: Storage::new(),
            blockchain: Blockchain::new(),
            pool: TransactionPool::new(),
        }
    }

    /// Refreshes the routing table with the request's sender, if any.
    fn observe_sender(&mut self, sender: Option<&Node>) -> (cand: Option<Node>)
        requires
            old(self).wf(),
        ensures
            final(self).wf(),
            final(self).node == old(self).node,
            final(self).storage == old(self).storage,
            final(self).blockchain == old(self).blockchain,
            final(self).pool == old(self).pool,
            spec_sender_refresh(
                old(self).routing_table,
                final(self).routing_table,
                match sender {
                    Some(n) => Some(*n),
                    None => None,
                },
                cand,
            ),
    {
        match sender {
            Some(n) => self.routing_table.update(*n),
            None => None,
        }
    }

    /// PING: always answers alive; the sender, if named, is admitted or
    /// refreshed in the routing table.
    pub fn ping(&mut self, sender: Option<&Node>) -> (r: (PingReply, Option<Node>))
        requires
            old(self).wf(),
        ensures
            final(self).wf(),
            r.0.alive,
            final(self).node == old(self).node,
            final(self).storage == old(self).storage,
            final(self).blockchain == old(self).blockchain,
            final(self).pool == old(self).pool,
            spec_sender_refresh(
                old(self).routing_table,
                final(self).routing_table,
                match sender {
                    Some(n) => Some(*n),
                    None => None,
                },
                r.1,
            ),
    {
        let cand = self.observe_sender(sender);
        (PingReply { alive: true }, cand)
    }

    /// Commits a previously proposed eviction after a failed liveness
    /// probe: the dead candidate leaves its bucket and the new peer takes
    /// the free slot.
    pub fn replace_node(&mut self, lru: Node, node: Node)
        requires
            old(self).wf(),
        ensures
            final(self).wf(),
            final(self).node == old(self).node,
            final(self).storage == old(self).storage,
            final(self).blockchain == old(self).blockchain,
            final(self).pool == old(self).pool,
            spec_replace_relation(
                old(self).routing_table,
                final(self).routing_table,
                lru,
                node,
            ),
    {
        self.routing_table.replace_node(lru, node);
    }

    /// STORE: rejects a key that is not exactly `KEY_LENGTH` bytes without
    /// touching the store. A value that decodes as a chain hand-off message
    /// is processed first: a valid chain longer than the local one is
    /// adopted, and what is stored under the key is the hand-off form of
    /// the chain held after processing; any other value is stored verbatim.
    pub fn store(&mut self, sender: Option<&Node>, key: Vec<u8>, value: Vec<u8>) -> (r: (
        Result<StoreReply, ServiceError>,
        Option<Node>,
    ))
        requires
            old(self).wf(),
        ensures
            final(self).wf(),
            final(self).node == old(self).node,
            final(self).pool == old(self).pool,
            spec_sender_refresh(
                old(self).routing_table,
                final(self).routing_table,
                match sender {
                    Some(n) => Some(*n),
                    None => None,
                },
                r.1,
            ),
            match r.0 {
                Err(e) => e == ServiceError::InvalidArgument && key@.len() != KEY_LENGTH && final(self).storage == old(self).storage && final(self).blockchain == old(self).blockchain,
                Ok(reply) => {
                    &&& reply.success
                    &&& key@.len() == KEY_LENGTH
                    &&& match spec_decode_chain(value@) {
                        Some(c) => {
                            &&& final(self).blockchain.spec_chain() == (if spec_chain_valid(
                                c,
                                MINING_DIFFICULTY as nat,
                            ) && c.len() > old(self).blockchain.spec_chain().len() {
                                c
                            } else {
                                old(self).blockchain.spec_chain()
                            })
                            &&& final(self).storage.contents() == old(self).storage.contents().insert(
                                key@,
                                spec_encode_chain(final(self).blockchain.spec_chain()),
                            )
                        },
                        None => final(self).blockchain == old(self).blockchain && final(self).storage.contents() == old(self).storage.contents().insert(key@, value@),
                    }
                },
            },
    {
        let cand = self.observe_sender(sender);
        if key.len() != KEY_LENGTH {
            return (Err(ServiceError::InvalidArgument), cand);
        }
        let decoded = decode_chain(&value);
        match decoded {
            Some(chain) => {
                if chain.is_valid_chain(MINING_DIFFICULTY) && chain.height()
                    > self.blockchain.height() {
                    self.blockchain = chain;
                }
                let processed = encode_chain(&self.blockchain);
                self.storage.insert(key, processed);
            },
            None => {
                self.storage.insert(key, value);
            },
        }
        (Ok(StoreReply { success: true }), cand)
    }

    /// FIND_NODE: rejects a target identifier that is not exactly
    /// `ID_LENGTH` bytes; otherwise answers with up to `K` known peers
    /// closest to the target, in non-decreasing XOR distance.
    pub fn find_node(&mut self, sender: Option<&Node>, id: &Vec<u8>) -> (r: (
        Result<Vec<Node>, ServiceError>,
        Option<Node>,
    ))
        requires
            old(self).wf(),
        ensures
            final(self).wf(),
            final(self).node == old(self).node,
            final(self).storage == old(self).storage,
            final(self).blockchain == old(self).blockchain,
            final(self).pool == old(self).pool,
            spec_sender_refresh(
                old(self).routing_table,
                final(self).routing_table,
                match sender {
                    Some(n) => Some(*n),
                    None => None,
                },
                r.1,
            ),
            match r.0 {
                Err(e) => e == ServiceError::InvalidArgument && id@.len() != ID_LENGTH,
                Ok(nodes) => id@.len() == ID_LENGTH && spec_closest_result(
                    final(self).routing_table,
                    id@,
                    K as int,
                    nodes@,
                ),
            },
    {
        let cand = self.observe_sender(sender);
        if id.len() != ID_LENGTH {
            return (Err(ServiceError::InvalidArgument), cand);
        }
        let nodes = self.routing_table.find_closest_nodes(id, K);
        (Ok(nodes), cand)
    }

    /// FIND_VALUE: rejects a key that is not exactly `KEY_LENGTH` bytes;
    /// otherwise answers the stored value when the key is present, and the
    /// closest known peers to the key when it is not, so the caller can
    /// continue an iterative search elsewhere.
    pub fn find_value(&mut self, sender: Option<&Node>, key: &Vec<u8>) -> (r: (
        Result<FindValueReply, ServiceError>,
        Option<Node>,
    ))
        requires
            old(self).wf(),
        ensures
            final(self).wf(),
            final(self).node == old(self).node,
            final(self).storage == old(self).storage,
            final(self).blockchain == old(self).blockchain,
            final(self).pool == old(self).pool,
            spec_sender_refresh(
                old(self).routing_table,
                final(self).routing_table,
                match sender {
                    Some(n) => Some(*n),
                    None => None,
                },
                r.1,
            ),
            match r.0 {
                Err(e) => e == ServiceError::InvalidArgument && key@.len() != KEY_LENGTH,
                Ok(reply) => {
                    &&& key@.len() == KEY_LENGTH
                    &&& if old(self).storage.contents().contains_key(key@) {
                        reply.value matches Some(v) && v@ == old(self).storage.contents()[key@]
                            && reply.nodes@.len() == 0
                    } else {
                        reply.value is None && spec_closest_result(
                            final(self).routing_table,
                            key@,
                            K as int,
                            reply.nodes@,
                        )
                    }
                },
            },
    {
        let cand = self.observe_sender(sender);
        if key.len() != KEY_LENGTH {
            return (Err(ServiceError::InvalidArgument), cand);
        }
        let found = self.storage.get(key);
        match found {
            Some(v) => {
                let value = copy_bytes(v);
                (Ok(FindValueReply { value: Some(value), nodes: Vec::new() }), cand)
            },
            None => {
                let nodes = self.routing_table.find_closest_nodes(key, K);
                (Ok(FindValueReply { value: None, nodes }), cand)
            },
        }
    }

    /// JOIN: gated by proof of work over the claimed identifier and nonce
    /// at `DIFFICULTY_POW`; an invalid proof is turned away with no state
    /// change. An admitted sender is recorded in the routing table and
    /// answered with the closest known peers, the local node included; as
    /// a side effect the whole current chain is serialised and stored
    /// under the well-known hand-off key of the new node, for it to fetch
    /// by FIND_VALUE.
    pub fn join(&mut self, sender: &Node, nonce: u64, pow_hash: &Vec<u8>) -> (r: (
        Result<JoinReply, ServiceError>,
        Option<Node>,
    ))
        requires
            old(self).wf(),
        ensures
            final(self).wf(),
            final(self).node == old(self).node,
            final(self).blockchain == old(self).blockchain,
            final(self).pool == old(self).pool,
            match r.0 {
                Err(e) => {
                    &&& e == ServiceError::PermissionDenied
                    &&& !(pow_hash@ == sha256_of(spec_pow_message(sender.id@, nonce))
                        && spec_meets_difficulty(pow_hash@, DIFFICULTY_POW as nat))
                    &&& r.1 is None
                    &&& final(self).routing_table == old(self).routing_table
                    &&& final(self).storage == old(self).storage
                },
                Ok(reply) => {
                    &&& pow_hash@ == sha256_of(spec_pow_message(sender.id@, nonce))
                    &&& spec_meets_difficulty(pow_hash@, DIFFICULTY_POW as nat)
                    &&& reply.accepted
                    &&& spec_update_relation(
                        old(self).routing_table,
                        final(self).routing_table,
                        *sender,
                        r.1,
                    )
                    &&& exists|base: Seq<Node>|
                        {
                            &&& spec_closest_result(
                                final(self).routing_table,
                                sender.id@,
                                K as int,
                                base,
                            )
                            &&& reply.closest_nodes@ == (if exists|j: int|
                                0 <= j < base.len() && base[j].id@ == old(self).node.id@ {
                                base
                            } else {
                                base.push(old(self).node)
                            })
                        }
                    &&& final(self).storage.contents() == old(self).storage.contents().insert(
                        spec_handoff_key(sender.id@),
                        spec_encode_chain(old(self).blockchain.spec_chain()),
                    )
                },
            },
    {
        let id_vec = id_to_vec(&sender.id);
        if !verify_pow(&id_vec, nonce, pow_hash, DIFFICULTY_POW) {
            return (Err(ServiceError::PermissionDenied), None);
        }
        let cand = self.routing_table.update(*sender);
        let mut closest = self.routing_table.find_closest_nodes(&id_vec, K);
        let ghost base = closest@;
        let has_self = contains_node_id(&closest, &self.node.id);
        if !has_self {
            closest.push(self.node);
        }
        let key = handoff_key(&sender.id);
        let msg = encode_chain(&self.blockchain);
        self.storage.insert(key, msg);
        proof {
            assert(spec_closest_result(self.routing_table, sender.id@, K as int, base));
            if has_self {
                assert(closest@ == base);
            } else {
                assert(closest@ == base.push(old(self).node));
            }
        }
        (Ok(JoinReply { accepted: true, closest_nodes: closest }), cand)
    }
}

} // verus!
