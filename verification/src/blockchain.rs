use vstd::prelude::*;
use crate::block::{Block, BlockView, compute_block_hash, spec_block_hash_ok};
use crate::bytes_util::{bytes_eq, copy_bytes};
use crate::pool::TransactionPool;
use crate::pow::{meets_difficulty, spec_meets_difficulty};
use crate::transaction::{Transaction, TransactionView, lemma_count_sender_bound,
    spec_count_sender, spec_tx_valid};

verus! {

/// The sentinel previous hash of the genesis block: 32 zero bytes.
pub open spec fn spec_genesis_prev_hash() -> Seq<u8> {
    Seq::new(32, |i: int| 0u8)
}

/// The confirmed transactions of the blocks from position `from` on, in
/// block order and transaction order within each block.
pub open spec fn spec_txs_from(c: Seq<BlockView>, from: int) -> Seq<TransactionView>
    decreases c.len() - from,
{
    if from < 0 || from >= c.len() {
        Seq::empty()
    } else {
        c[from].transactions + spec_txs_from(c, from + 1)
    }
}

/// Every confirmed transaction, in chain order.
pub open spec fn spec_chain_txs(c: Seq<BlockView>) -> Seq<TransactionView> {
    spec_txs_from(c, 0)
}

/// The structural chain shape: a genesis block with index zero, the
/// sentinel previous hash and no transactions, and each later block naming
/// its position and the previous block's hash.
pub open spec fn spec_chain_linked(c: Seq<BlockView>) -> bool {
    &&& c.len() >= 1
    &&& c[0].index == 0
    &&& c[0].previous_hash == spec_genesis_prev_hash()
    &&& c[0].transactions.len() == 0
    &&& forall|i: int|
        1 <= i < c.len() ==> (#[trigger] c[i]).index as int == i && c[i].previous_hash == c[i
            - 1].hash
}

/// Every block's recorded hash is the digest of its fields.
pub open spec fn spec_chain_hashes_ok(c: Seq<BlockView>) -> bool {
    forall|i: int| 0 <= i < c.len() ==> spec_block_hash_ok(#[trigger] c[i])
}

/// Every mined (non-genesis) block's hash meets the difficulty.
pub open spec fn spec_chain_difficulty_ok(c: Seq<BlockView>, d: nat) -> bool {
    forall|i: int| 1 <= i < c.len() ==> spec_meets_difficulty((#[trigger] c[i]).hash, d)
}

/// Every confirmed transaction's hash and signature check out.
pub open spec fn spec_chain_sigs_ok(c: Seq<BlockView>) -> bool {
    forall|p: int|
        0 <= p < spec_chain_txs(c).len() ==> spec_tx_valid(#[trigger] spec_chain_txs(c)[p])
}

/// Every confirmed transaction's nonce equals the number of earlier
/// confirmed transactions of its sender: nonce correctness is
/// chain-order-dependent.
pub open spec fn spec_chain_nonces_ok(c: Seq<BlockView>) -> bool {
    forall|p: int|
        0 <= p < spec_chain_txs(c).len() ==> (#[trigger] spec_chain_txs(c)[p]).data.nonce as int
            == spec_count_sender(spec_chain_txs(c), spec_chain_txs(c)[p].data.sender, p)
}

/// Full chain validity at the given mining difficulty.
pub open spec fn spec_chain_valid(c: Seq<BlockView>, d: nat) -> bool {
    &&& spec_chain_linked(c)
    &&& spec_chain_hashes_ok(c)
    &&& spec_chain_difficulty_ok(c, d)
    &&& spec_chain_sigs_ok(c)
    &&& spec_chain_nonces_ok(c)
}

/// The append-only ledger: an ordered run of blocks, genesis first.
pub struct Blockchain {
    pub blocks: Vec<Block>,
}

impl Blockchain {
    /// The chain as a sequence of block views.
    pub open spec fn spec_chain(self) -> Seq<BlockView> {
        self.blocks@.map_values(|b: Block| b@)
    }

    /// The structural invariant every chain in this library keeps: linked
    /// shape and recorded hashes that match the block contents.
    pub open spec fn wf(self) -> bool {
        &&& spec_chain_linked(self.spec_chain())
        &&& spec_chain_hashes_ok(self.spec_chain())
    }

    /// A fresh chain holding only the genesis block.
    pub fn new() -> (r: Blockchain)
        ensures
            r.wf(),
            r.spec_chain().len() == 1,
            r.spec_chain()[0].transactions.len() == 0,
    {
        let mut prev: Vec<u8> = Vec::new();
        let mut i: usize = 0;
        while i < 32
            invariant
                i <= 32,
                prev@.len() == i,
                forall|j: int| 0 <= j < i ==> prev@[j] == 0u8,
            decreases 32 - i,
        {
            prev.push(0);
            i += 1;
        }
        proof {
            assert(prev@ =~= spec_genesis_prev_hash());
        }
        let txs: Vec<Transaction> = Vec::new();
        let hash = compute_block_hash(0, &prev, &txs, 0, 0);
        let genesis = Block {
            index: 0,
            previous_hash: prev,
            transactions: txs,
            timestamp: 0,
            nonce: 0,
            hash,
        };
        let mut blocks: Vec<Block> = Vec::new();
        blocks.push(genesis);
        let r = Blockchain { blocks };
        proof {
            assert(r.spec_chain().len() == 1);
            assert(r.spec_chain()[0].transactions =~= Seq::<TransactionView>::empty());
        }
        r
    }

    /// How many blocks the chain holds.
    pub fn height(&self) -> (r: usize)
        ensures
            r == self.spec_chain().len(),
    {
        self.blocks.len()
    }

    /// A copy of the whole chain, block for block.
    pub fn duplicate(&self) -> (r: Blockchain)
        ensures
            r.spec_chain() == self.spec_chain(),
    {
        let mut blocks: Vec<Block> = Vec::new();
        let mut i: usize = 0;
        while i < self.blocks.len()
            invariant
                i <= self.blocks@.len(),
                blocks@.len() == i,
                forall|j: int| 0 <= j < i ==> blocks@[j]@ == self.blocks@[j]@,
            decreases self.blocks@.len() - i,
        {
            let d = self.blocks[i].duplicate();
            blocks.push(d);
            i += 1;
        }
        let r = Blockchain { blocks };
        proof {
            assert(r.spec_chain() =~= self.spec_chain());
        }
        r
    }

    /// A copy of every confirmed transaction, in chain order.
    pub fn collect_txs(&self) -> (r: Vec<Transaction>)
        ensures
            r@.map_values(|t: Transaction| t@) == spec_chain_txs(self.spec_chain()),
    {
        let ghost c = self.spec_chain();
        let mut acc: Vec<Transaction> = Vec::new();
        let mut i: usize = 0;
        proof {
            assert(acc@.map_values(|t: Transaction| t@) + spec_txs_from(c, 0) =~= spec_txs_from(
                c,
                0,
            ));
        }
        while i < self.blocks.len()
            invariant
                c == self.spec_chain(),
                i <= self.blocks@.len(),
                acc@.map_values(|t: Transaction| t@) + spec_txs_from(c, i as int) == spec_chain_txs(
                    c,
                ),
            decreases self.blocks@.len() - i,
        {
            let ghost acc0 = acc@.map_values(|t: Transaction| t@);
            let ghost n0 = acc@.len();
            let block_txs = &self.blocks[i].transactions;
            let mut j: usize = 0;
            while j < block_txs.len()
                invariant
                    i < self.blocks@.len(),
                    c == self.spec_chain(),
                    block_txs@ == self.blocks@[i as int].transactions@,
                    j <= block_txs@.len(),
                    acc@.len() == n0 + j,
                    n0 == acc0.len(),
                    forall|q: int| 0 <= q < n0 ==> (#[trigger] acc@[q])@ == acc0[q],
                    forall|q: int| 0 <= q < j ==> (#[trigger] acc@[n0 + q])@ == block_txs@[q]@,
                decreases block_txs@.len() - j,
            {
                let d = block_txs[j].duplicate();
                acc.push(d);
                j += 1;
            }
            proof {
                assert(c[i as int].transactions =~= block_txs@.map_values(|t: Transaction| t@));
                assert forall|q: int|
                    0 <= q < acc@.len() implies (acc@.map_values(|t: Transaction| t@))[q] == (acc0
                    + c[i as int].transactions)[q] by {
                    if q >= n0 {
                        assert(acc@[n0 + (q - n0)]@ == block_txs@[q - n0]@);
                    }
                }
                assert(acc@.map_values(|t: Transaction| t@) =~= acc0 + c[i as int].transactions);
                assert(spec_txs_from(c, i as int) == c[i as int].transactions + spec_txs_from(
                    c,
                    i + 1,
                ));
                assert(acc@.map_values(|t: Transaction| t@) + spec_txs_from(c, i + 1) =~= acc0
                    + spec_txs_from(c, i as int));
            }
            i += 1;
        }
        proof {
            assert(spec_txs_from(c, self.blocks@.len() as int) =~= Seq::<TransactionView>::empty());
            assert(acc@.map_values(|t: Transaction| t@) + Seq::<TransactionView>::empty() =~= acc@
                .map_values(|t: Transaction| t@));
        }
        acc
    }

    /// The next nonce a sender must use as far as the chain alone is
    /// concerned: the count of its confirmed transactions.
    pub fn get_next_nonce(&self, sender: &Vec<u8>) -> (r: u64)
        ensures
            r as int == spec_count_sender(
                spec_chain_txs(self.spec_chain()),
                sender@,
                spec_chain_txs(self.spec_chain()).len() as int,
            ),
    {
        let ghost ts = spec_chain_txs(self.spec_chain());
        let txs = self.collect_txs();
        let total = txs.len();
        proof {
            assert(ts.len() == total);
        }
        let mut count: u64 = 0;
        let mut i: usize = 0;
        while i < txs.len()
            invariant
                ts == spec_chain_txs(self.spec_chain()),
                txs@.map_values(|t: Transaction| t@) == ts,
                ts.len() <= u64::MAX,
                i <= txs@.len(),
                count <= i,
                count as int == spec_count_sender(ts, sender@, i as int),
            decreases txs@.len() - i,
        {
            if bytes_eq(&txs[i].data.sender, sender) {
                proof {
                    assert(ts[i as int].data.sender == sender@);
                }
                count += 1;
            } else {
                proof {
                    assert(ts[i as int].data.sender != sender@);
                }
            }
            i += 1;
        }
        count
    }

    /// The hash of the chain tip.
    pub fn last_hash(&self) -> (r: Vec<u8>)
        requires
            self.spec_chain().len() > 0,
        ensures
            r@ == self.spec_chain().last().hash,
    {
        copy_bytes(&self.blocks[self.blocks.len() - 1].hash)
    }
}

/// Mines one block: takes every pending transaction in pool order, builds a
/// candidate on the current tip stamped `timestamp`, and searches mining
/// nonces from zero until the block hash meets `difficulty`, giving up
/// after `max_attempts` tries. On success the block is appended, the pool
/// is emptied, and a copy of the block is returned; on failure chain and
/// pool are left unchanged.
/// Searches mining nonces from zero for a block hash over the given fields
/// that meets `difficulty`, giving up after `max_attempts` tries.
fn find_block_nonce(
    index: u64,
    prev: &Vec<u8>,
    txs: &Vec<Transaction>,
    timestamp: u64,
    difficulty: usize,
    max_attempts: u64,
) -> (r: Option<(u64, Vec<u8>)>)
    ensures
        match r {
            Some(p) => p.1@ == crate::crypto::sha256_of(
                crate::block::spec_block_header_bytes(
                    index,
                    prev@,
                    txs@.map_values(|t: Transaction| t@),
                    timestamp,
                    p.0,
                ),
            ) && spec_meets_difficulty(p.1@, difficulty as nat),
            None => forall|n: u64|
                n < max_attempts ==> !#[trigger] spec_meets_difficulty(
                    crate::crypto::sha256_of(
                        crate::block::spec_block_header_bytes(
                            index,
                            prev@,
                            crate::block::spec_txs_view(txs@),
                            timestamp,
                            n,
                        ),
                    ),
                    difficulty as nat,
                ),
        },
{
    let mut nonce: u64 = 0;
    while nonce < max_attempts
        invariant
            nonce <= max_attempts,
            forall|n: u64|
                n < nonce ==> !#[trigger] spec_meets_difficulty(
                    crate::crypto::sha256_of(
                        crate::block::spec_block_header_bytes(
                            index,
                            prev@,
                            crate::block::spec_txs_view(txs@),
                            timestamp,
                            n,
                        ),
                    ),
                    difficulty as nat,
                ),
        decreases max_attempts - nonce,
    {
        let h = compute_block_hash(index, prev, txs, timestamp, nonce);
        if meets_difficulty(&h, difficulty) {
            return Some((nonce, h));
        }
        nonce += 1;
    }
    None
}

#[verifier::rlimit(100)]
pub fn mine_block(
    chain: &mut Blockchain,
    pool: &mut TransactionPool,
    difficulty: usize,
    timestamp: u64,
    max_attempts: u64,
) -> (r: Option<Block>)
    requires
        old(chain).wf(),
        old(pool).wf(),
        old(chain).spec_chain().len() < u64::MAX,
    ensures
        match r {
            Some(b) => {
                &&& spec_block_hash_ok(b@)
                &&& spec_meets_difficulty(b@.hash, difficulty as nat)
                &&& b@.index as int == old(chain).spec_chain().len()
                &&& b@.previous_hash == old(chain).spec_chain().last().hash
                &&& b@.timestamp == timestamp
                &&& b@.transactions == old(pool).spec_txs()
                &&& final(chain).spec_chain() == old(chain).spec_chain().push(b@)
                &&& final(chain).wf()
                &&& final(pool).wf()
                &&& final(pool).spec_txs() == Seq::<TransactionView>::empty()
            },
            None => {
                &&& final(chain).spec_chain() == old(chain).spec_chain()
                &&& final(chain).wf()
                &&& final(pool).wf()
                &&& final(pool).spec_txs() == old(pool).spec_txs()
                &&& forall|n: u64|
                    n < max_attempts ==> !#[trigger] spec_meets_difficulty(
                        crate::crypto::sha256_of(
                            crate::block::spec_block_header_bytes(
                                old(chain).spec_chain().len() as u64,
                                old(chain).spec_chain().last().hash,
                                old(pool).spec_txs(),
                                timestamp,
                                n,
                            ),
                        ),
                        difficulty as nat,
                    )
            },
        },
{
    let txs = pool.get_all_transactions();
    let index = chain.blocks.len() as u64;
    let prev = chain.last_hash();
    let found = find_block_nonce(index, &prev, &txs, timestamp, difficulty, max_attempts);
    match found {
        Some((nonce, h)) => {
            let block = Block {
                index,
                previous_hash: prev,
                transactions: txs,
                timestamp,
                nonce,
                hash: h,
            };
            let out = block.duplicate();
            let ghost bv = block@;
            let ghost c0 = chain.spec_chain();
            chain.blocks.push(block);
            pool.clear();
            proof {
                assert(chain.spec_chain() =~= c0.push(bv));
                let c = chain.spec_chain();
                assert forall|i: int|
                    1 <= i < c.len() implies (#[trigger] c[i]).index as int == i
                    && c[i].previous_hash == c[i - 1].hash by {
                    if i < c.len() - 1 {
                        assert(c[i] == c0[i]);
                    } else {
                        assert(c[i] == bv);
                        assert(c[i - 1] == c0[c0.len() - 1]);
                    }
                }
                assert forall|i: int| 0 <= i < c.len() implies spec_block_hash_ok(
                    #[trigger] c[i],
                ) by {
                    if i < c.len() - 1 {
                        assert(c[i] == c0[i]);
                    } else {
                        assert(c[i] == bv);
                    }
                }
            }
            Some(out)
        },
        None => {
            proof {
                assert forall|n: u64|
                    n < max_attempts implies !#[trigger] spec_meets_difficulty(
                    crate::crypto::sha256_of(
                        crate::block::spec_block_header_bytes(
                            old(chain).spec_chain().len() as u64,
                            old(chain).spec_chain().last().hash,
                            old(pool).spec_txs(),
                            timestamp,
                            n,
                        ),
                    ),
                    difficulty as nat,
                ) by {
                    assert(crate::block::spec_txs_view(txs@) == old(pool).spec_txs());
                    assert(!spec_meets_difficulty(
                        crate::crypto::sha256_of(
                            crate::block::spec_block_header_bytes(
                                index,
                                prev@,
                                crate::block::spec_txs_view(txs@),
                                timestamp,
                                n,
                            ),
                        ),
                        difficulty as nat,
                    ));
                }
            }
            None
        },
    }
}

/// The genesis sentinel previous hash as a byte vector.
pub fn genesis_prev_hash() -> (r: Vec<u8>)
    ensures
        r@ == spec_genesis_prev_hash(),
{
    let mut prev: Vec<u8> = Vec::new();
    let mut i: usize = 0;
    while i < 32
        invariant
            i <= 32,
            prev@.len() == i,
            forall|j: int| 0 <= j < i ==> prev@[j] == 0u8,
        decreases 32 - i,
    {
        prev.push(0);
        i += 1;
    }
    proof {
        assert(prev@ =~= spec_genesis_prev_hash());
    }
    prev
}

impl Blockchain {
    /// Decides the structural half of chain validity: linkage, recorded
    /// hashes, and the difficulty of every mined block.
    fn check_structure(&self, difficulty: usize) -> (r: bool)
        ensures
            r == (spec_chain_linked(self.spec_chain()) && spec_chain_hashes_ok(self.spec_chain())
                && spec_chain_difficulty_ok(self.spec_chain(), difficulty as nat)),
    {
        let ghost c = self.spec_chain();
        if self.blocks.len() == 0 {
            return false;
        }
        let genesis = &self.blocks[0];
        if genesis.index != 0 || genesis.transactions.len() != 0 {
            return false;
        }
        let sentinel = genesis_prev_hash();
        if !bytes_eq(&genesis.previous_hash, &sentinel) {
            return false;
        }
        if !genesis.has_valid_hash(0) {
            return false;
        }
        let mut i: usize = 1;
        while i < self.blocks.len()
            invariant
                c == self.spec_chain(),
                c.len() >= 1,
                c[0].index == 0,
                c[0].previous_hash == spec_genesis_prev_hash(),
                c[0].transactions.len() == 0,
                spec_block_hash_ok(c[0]),
                1 <= i <= c.len(),
                forall|j: int|
                    1 <= j < i ==> (#[trigger] c[j]).index as int == j && c[j].previous_hash == c[j
                        - 1].hash,
                forall|j: int| 1 <= j < i ==> spec_block_hash_ok(#[trigger] c[j]),
                forall|j: int|
                    1 <= j < i ==> spec_meets_difficulty((#[trigger] c[j]).hash, difficulty as nat),
            decreases c.len() - i,
        {
            let block = &self.blocks[i];
            if block.index != i as u64 {
                proof {
                    assert(c[i as int].index as int != i);
                }
                return false;
            }
            if !bytes_eq(&block.previous_hash, &self.blocks[i - 1].hash) {
                proof {
                    assert(c[i as int].previous_hash != c[i as int - 1].hash);
                }
                return false;
            }
            if !block.has_valid_hash(difficulty) {
                proof {
                    assert(block@ == c[i as int]);
                    assert(!spec_block_hash_ok(c[i as int]) || !spec_meets_difficulty(
                        c[i as int].hash,
                        difficulty as nat,
                    ));
                }
                return false;
            }
            i += 1;
        }
        true
    }

    /// Counts `sender` among the first `upto` of the given transactions.
    fn count_sender_upto(txs: &Vec<Transaction>, sender: &Vec<u8>, upto: usize) -> (r: u64)
        requires
            upto <= txs@.len(),
            upto <= u64::MAX,
        ensures
            r as int == spec_count_sender(
                txs@.map_values(|t: Transaction| t@),
                sender@,
                upto as int,
            ),
    {
        let ghost ts = txs@.map_values(|t: Transaction| t@);
        let mut count: u64 = 0;
        let mut i: usize = 0;
        while i < upto
            invariant
                ts == txs@.map_values(|t: Transaction| t@),
                upto <= txs@.len(),
                upto <= u64::MAX,
                i <= upto,
                count <= i,
                count as int == spec_count_sender(ts, sender@, i as int),
            decreases upto - i,
        {
            if bytes_eq(&txs[i].data.sender, sender) {
                proof {
                    assert(ts[i as int].data.sender == sender@);
                }
                count += 1;
            } else {
                proof {
                    assert(ts[i as int].data.sender != sender@);
                }
            }
            i += 1;
        }
        count
    }

    /// Decides the transaction half of chain validity: every confirmed
    /// transaction's hash and signature check out, and its nonce equals the
    /// number of earlier confirmed transactions of its sender.
    fn check_txs(&self) -> (r: bool)
        ensures
            r == (spec_chain_sigs_ok(self.spec_chain()) && spec_chain_nonces_ok(
                self.spec_chain(),
            )),
    {
        let ghost ts = spec_chain_txs(self.spec_chain());
        let txs = self.collect_txs();
        let total = txs.len();
        proof {
            assert(ts.len() == total);
        }
        let mut p: usize = 0;
        while p < txs.len()
            invariant
                ts == spec_chain_txs(self.spec_chain()),
                txs@.map_values(|t: Transaction| t@) == ts,
                ts.len() <= u64::MAX,
                p <= txs@.len(),
                forall|q: int| 0 <= q < p ==> spec_tx_valid(#[trigger] ts[q]),
                forall|q: int|
                    0 <= q < p ==> (#[trigger] ts[q]).data.nonce as int == spec_count_sender(
                        ts,
                        ts[q].data.sender,
                        q,
                    ),
            decreases txs@.len() - p,
        {
            proof {
                assert(txs@[p as int]@ == ts[p as int]);
            }
            if !txs[p].verify() {
                return false;
            }
            let expected = Self::count_sender_upto(&txs, &txs[p].data.sender, p);
            if txs[p].data.nonce != expected {
                return false;
            }
            p += 1;
        }
        true
    }

    /// Decides full chain validity at the given mining difficulty.
    pub fn is_valid_chain(&self, difficulty: usize) -> (r: bool)
        ensures
            r == spec_chain_valid(self.spec_chain(), difficulty as nat),
    {
        if !self.check_structure(difficulty) {
            return false;
        }
        self.check_txs()
    }
}

/// The effective next nonce of a sender: its confirmed count in the chain
/// plus its pending count in the pool. This single operation is the
/// authoritative allocation that both display and submission use.
pub fn effective_next_nonce(
    chain: &Blockchain,
    pool: &TransactionPool,
    sender: &Vec<u8>,
) -> (r: u64)
    requires
        spec_chain_txs(chain.spec_chain()).len() + pool.spec_txs().len() <= u64::MAX,
    ensures
        r as int == spec_count_sender(
            spec_chain_txs(chain.spec_chain()),
            sender@,
            spec_chain_txs(chain.spec_chain()).len() as int,
        ) + spec_count_sender(pool.spec_txs(), sender@, pool.spec_txs().len() as int),
{
    proof {
        lemma_count_sender_bound(
            spec_chain_txs(chain.spec_chain()),
            sender@,
            spec_chain_txs(chain.spec_chain()).len() as int,
        );
        lemma_count_sender_bound(pool.spec_txs(), sender@, pool.spec_txs().len() as int);
    }
    let confirmed = chain.get_next_nonce(sender);
    let pending = pool.pending_count(sender);
    confirmed + pending as u64
}

/// Builds and signs a transaction whose nonce is allocated here, in the
/// same step, from the chain's confirmed count and the pool's pending
/// count: the one authoritative allocation point.
pub fn create_transaction(
    chain: &Blockchain,
    pool: &TransactionPool,
    sk: &Vec<u8>,
    tx_type: crate::transaction::TransactionType,
    amount: Option<u64>,
    data: Option<Vec<u8>>,
    fee: u64,
    timestamp: u64,
) -> (r: Transaction)
    requires
        sk@.len() == 32,
        spec_chain_txs(chain.spec_chain()).len() + pool.spec_txs().len() <= u64::MAX,
    ensures
        r@.data.sender == crate::crypto::ed25519_public_of(sk@),
        r@.data.tx_type == tx_type,
        r@.data.amount == amount,
        r@.data.fee == fee,
        r@.data.timestamp == timestamp,
        r@.data.nonce as int == spec_count_sender(
            spec_chain_txs(chain.spec_chain()),
            crate::crypto::ed25519_public_of(sk@),
            spec_chain_txs(chain.spec_chain()).len() as int,
        ) + spec_count_sender(
            pool.spec_txs(),
            crate::crypto::ed25519_public_of(sk@),
            pool.spec_txs().len() as int,
        ),
        crate::transaction::spec_tx_valid(r@),
{
    let sender = crate::crypto::ed25519_public_key(sk);
    let nonce = effective_next_nonce(chain, pool, &sender);
    Transaction::create(sk, tx_type, amount, data, fee, nonce, timestamp)
}

/// Admitting a pending transaction raises its sender's effective next
/// nonce by exactly one: two transactions submitted in sequence from the
/// same sender, with no mining in between, get the nonces
/// confirmed + k and confirmed + k + 1.
pub proof fn lemma_nonce_allocation_increments(
    c: Seq<crate::transaction::TransactionView>,
    p: Seq<crate::transaction::TransactionView>,
    t: crate::transaction::TransactionView,
)
    ensures
        spec_count_sender(c, t.data.sender, c.len() as int) + spec_count_sender(
            p.push(t),
            t.data.sender,
            p.push(t).len() as int,
        ) == spec_count_sender(c, t.data.sender, c.len() as int) + spec_count_sender(
            p,
            t.data.sender,
            p.len() as int,
        ) + 1,
{
    crate::transaction::lemma_count_sender_prefix(p.push(t), p, t.data.sender, p.len() as int);
    assert(p.push(t)[p.len() as int] == t);
}

} // verus!
