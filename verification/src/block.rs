use vstd::prelude::*;
use crate::bytes_util::{copy_bytes, push_len_prefixed, push_u64_be, spec_len_prefixed, spec_u64_be};
use crate::crypto::{sha256, sha256_of};
use crate::pow::spec_meets_difficulty;
use crate::transaction::{Transaction, TransactionView};

verus! {

/// A proof-of-work mined batch of transactions.
pub struct Block {
    pub index: u64,
    pub previous_hash: Vec<u8>,
    pub transactions: Vec<Transaction>,
    pub timestamp: u64,
    pub nonce: u64,
    pub hash: Vec<u8>,
}

#[verifier::ext_equal]
pub struct BlockView {
    pub index: u64,
    pub previous_hash: Seq<u8>,
    pub transactions: Seq<TransactionView>,
    pub timestamp: u64,
    pub nonce: u64,
    pub hash: Seq<u8>,
}

impl View for Block {
    type V = BlockView;

    open spec fn view(&self) -> BlockView {
        BlockView {
            index: self.index,
            previous_hash: self.previous_hash@,
            transactions: self.transactions@.map_values(|t: Transaction| t@),
            timestamp: self.timestamp,
            nonce: self.nonce,
            hash: self.hash@,
        }
    }
}

/// The views of a run of transactions, in order.
pub open spec fn spec_txs_view(ts: Seq<Transaction>) -> Seq<TransactionView> {
    ts.map_values(|t: Transaction| t@)
}

/// The length-prefixed content hashes of the transactions from position
/// `from` on, the part of the block digest that covers its transactions.
pub open spec fn spec_tx_hashes_bytes(ts: Seq<TransactionView>, from: int) -> Seq<u8>
    decreases ts.len() - from,
{
    if from < 0 || from >= ts.len() {
        Seq::empty()
    } else {
        spec_len_prefixed(ts[from].tx_hash) + spec_tx_hashes_bytes(ts, from + 1)
    }
}

/// The byte string a block's hash is computed over: index, previous hash,
/// timestamp, mining nonce, transaction count and the transactions' content
/// hashes.
pub open spec fn spec_block_header_bytes(
    index: u64,
    previous_hash: Seq<u8>,
    transactions: Seq<TransactionView>,
    timestamp: u64,
    nonce: u64,
) -> Seq<u8> {
    spec_u64_be(index) + spec_len_prefixed(previous_hash) + spec_u64_be(timestamp) + spec_u64_be(
        nonce,
    ) + spec_u64_be(transactions.len() as u64) + spec_tx_hashes_bytes(transactions, 0)
}

/// A block's hash is the digest of its header bytes.
pub open spec fn spec_block_hash_ok(b: BlockView) -> bool {
    b.hash == sha256_of(
        spec_block_header_bytes(b.index, b.previous_hash, b.transactions, b.timestamp, b.nonce),
    )
}

/// Computes the digest a block with these fields must carry.
pub fn compute_block_hash(
    index: u64,
    previous_hash: &Vec<u8>,
    transactions: &Vec<Transaction>,
    timestamp: u64,
    nonce: u64,
) -> (r: Vec<u8>)
    ensures
        r@ == sha256_of(
            spec_block_header_bytes(
                index,
                previous_hash@,
                transactions@.map_values(|t: Transaction| t@),
                timestamp,
                nonce,
            ),
        ),
        r@.len() == 32,
{
    let ghost tvs = transactions@.map_values(|t: Transaction| t@);
    let mut out: Vec<u8> = Vec::new();
    push_u64_be(&mut out, index);
    push_len_prefixed(&mut out, previous_hash);
    push_u64_be(&mut out, timestamp);
    push_u64_be(&mut out, nonce);
    push_u64_be(&mut out, transactions.len() as u64);
    let ghost prefix = out@;
    let mut i: usize = 0;
    while i < transactions.len()
        invariant
            tvs == transactions@.map_values(|t: Transaction| t@),
            i <= transactions@.len(),
            out@ + spec_tx_hashes_bytes(tvs, i as int) == prefix + spec_tx_hashes_bytes(tvs, 0),
        decreases transactions@.len() - i,
    {
        let ghost out0 = out@;
        push_len_prefixed(&mut out, &transactions[i].tx_hash);
        proof {
            assert(tvs[i as int].tx_hash == transactions@[i as int].tx_hash@);
            assert(out@ == out0 + spec_len_prefixed(tvs[i as int].tx_hash));
            assert(spec_tx_hashes_bytes(tvs, i as int) == spec_len_prefixed(tvs[i as int].tx_hash)
                + spec_tx_hashes_bytes(tvs, i + 1));
            assert(out@ + spec_tx_hashes_bytes(tvs, i + 1) =~= out0 + spec_tx_hashes_bytes(
                tvs,
                i as int,
            ));
        }
        i += 1;
    }
    proof {
        assert(spec_tx_hashes_bytes(tvs, transactions@.len() as int) =~= Seq::<u8>::empty());
        assert(out@ + Seq::<u8>::empty() =~= out@);
        assert(out@ =~= spec_block_header_bytes(
            index,
            previous_hash@,
            tvs,
            timestamp,
            nonce,
        ));
    }
    sha256(&out)
}

impl Block {
    /// A field-for-field copy.
    pub fn duplicate(&self) -> (r: Block)
        ensures
            r@ == self@,
    {
        let mut txs: Vec<Transaction> = Vec::new();
        let mut i: usize = 0;
        while i < self.transactions.len()
            invariant
                i <= self.transactions@.len(),
                txs@.len() == i,
                forall|j: int| 0 <= j < i ==> txs@[j]@ == self.transactions@[j]@,
            decreases self.transactions@.len() - i,
        {
            let d = self.transactions[i].duplicate();
            txs.push(d);
            i += 1;
        }
        let r = Block {
            index: self.index,
            previous_hash: copy_bytes(&self.previous_hash),
            transactions: txs,
            timestamp: self.timestamp,
            nonce: self.nonce,
            hash: copy_bytes(&self.hash),
        };
        proof {
            assert(r.transactions@.map_values(|t: Transaction| t@) =~= self.transactions@
                .map_values(|t: Transaction| t@));
            assert(r@ =~= self@);
        }
        r
    }

    /// Whether this block's recorded hash is the digest of its fields and
    /// meets `difficulty`.
    pub fn has_valid_hash(&self, difficulty: usize) -> (r: bool)
        ensures
            r == (spec_block_hash_ok(self@) && spec_meets_difficulty(
                self@.hash,
                difficulty as nat,
            )),
    {
        let recomputed = compute_block_hash(
            self.index,
            &self.previous_hash,
            &self.transactions,
            self.timestamp,
            self.nonce,
        );
        if !crate::bytes_util::bytes_eq(&self.hash, &recomputed) {
            return false;
        }
        crate::pow::meets_difficulty(&self.hash, difficulty)
    }
}

} // verus!
