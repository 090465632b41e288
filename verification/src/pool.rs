use vstd::prelude::*;
use crate::bytes_util::bytes_eq;
use crate::transaction::{Transaction, TransactionView, spec_count_sender, spec_tx_valid};

verus! {

/// Why the pool turned a transaction away.
#[derive(Clone, Copy, PartialEq, Eq, Structural, Debug)]
pub enum PoolError {
    /// The content hash or the signature does not check out.
    InvalidTransaction,
    /// A pending transaction with the same content hash is already queued.
    Duplicate,
}

/// Whether some transaction among the first `upto` carries the hash `h`.
pub open spec fn spec_has_tx_hash(ts: Seq<TransactionView>, h: Seq<u8>) -> bool {
    exists|i: int| 0 <= i < ts.len() && ts[i].tx_hash == h
}

/// The subsequence of the first `upto` transactions sent by `sender`, in
/// pool order.
pub open spec fn spec_filter_sender(
    ts: Seq<TransactionView>,
    sender: Seq<u8>,
    upto: int,
) -> Seq<TransactionView>
    decreases upto,
{
    if upto <= 0 {
        Seq::empty()
    } else {
        spec_filter_sender(ts, sender, upto - 1) + if ts[upto - 1].data.sender == sender {
            seq![ts[upto - 1]]
        } else {
            Seq::empty()
        }
    }
}

/// The filtered subsequence is as long as the sender's count.
pub proof fn lemma_filter_sender_len(ts: Seq<TransactionView>, sender: Seq<u8>, upto: int)
    ensures
        spec_filter_sender(ts, sender, upto).len() == spec_count_sender(ts, sender, upto),
    decreases upto,
{
    if upto > 0 {
        lemma_filter_sender_len(ts, sender, upto - 1);
    }
}

/// The set of pending, not yet mined transactions, deduplicated by content
/// hash, in admission order.
pub struct TransactionPool {
    pub txs: Vec<Transaction>,
}

impl TransactionPool {
    /// The queued transactions, in admission order.
    pub open spec fn spec_txs(self) -> Seq<TransactionView> {
        self.txs@.map_values(|t: Transaction| t@)
    }

    /// No two queued transactions share a content hash.
    pub open spec fn wf(self) -> bool {
        forall|i: int, j: int|
            0 <= i < j < self.spec_txs().len() ==> self.spec_txs()[i].tx_hash
                != self.spec_txs()[j].tx_hash
    }

    pub fn new() -> (r: TransactionPool)
        ensures
            r.wf(),
            r.spec_txs() == Seq::<TransactionView>::empty(),
    {
        let r = TransactionPool { txs: Vec::new() };
        proof {
            assert(r.spec_txs() =~= Seq::<TransactionView>::empty());
        }
        r
    }

    /// How many transactions are pending.
    pub fn size(&self) -> (r: usize)
        ensures
            r == self.spec_txs().len(),
    {
        self.txs.len()
    }

    /// A copy of every pending transaction, in pool order.
    pub fn get_all_transactions(&self) -> (r: Vec<Transaction>)
        ensures
            r@.map_values(|t: Transaction| t@) == self.spec_txs(),
    {
        let mut out: Vec<Transaction> = Vec::new();
        let mut i: usize = 0;
        while i < self.txs.len()
            invariant
                i <= self.txs@.len(),
                out@.len() == i,
                forall|j: int| 0 <= j < i ==> out@[j]@ == self.txs@[j]@,
            decreases self.txs@.len() - i,
        {
            let d = self.txs[i].duplicate();
            out.push(d);
            i += 1;
        }
        proof {
            assert(out@.map_values(|t: Transaction| t@) =~= self.spec_txs());
        }
        out
    }

    /// A copy of the pending transactions of one sender, in pool order.
    pub fn get_pending_by_sender(&self, sender: &Vec<u8>) -> (r: Vec<Transaction>)
        ensures
            r@.map_values(|t: Transaction| t@) == spec_filter_sender(
                self.spec_txs(),
                sender@,
                self.spec_txs().len() as int,
            ),
    {
        let ghost ts = self.spec_txs();
        let mut out: Vec<Transaction> = Vec::new();
        let mut i: usize = 0;
        while i < self.txs.len()
            invariant
                ts == self.spec_txs(),
                i <= self.txs@.len(),
                out@.map_values(|t: Transaction| t@) == spec_filter_sender(ts, sender@, i as int),
            decreases self.txs@.len() - i,
        {
            let ghost out0 = out@;
            if bytes_eq(&self.txs[i].data.sender, sender) {
                let d = self.txs[i].duplicate();
                out.push(d);
                proof {
                    assert(ts[i as int].data.sender == sender@);
                    assert(out@.map_values(|t: Transaction| t@) =~= spec_filter_sender(
                        ts,
                        sender@,
                        i + 1,
                    ));
                }
            } else {
                proof {
                    assert(ts[i as int].data.sender != sender@);
                    assert(out@.map_values(|t: Transaction| t@) =~= spec_filter_sender(
                        ts,
                        sender@,
                        i + 1,
                    ));
                }
            }
            i += 1;
        }
        out
    }

    /// How many pending transactions one sender has queued.
    pub fn pending_count(&self, sender: &Vec<u8>) -> (r: usize)
        ensures
            r as int == spec_count_sender(self.spec_txs(), sender@, self.spec_txs().len() as int),
    {
        let ghost ts = self.spec_txs();
        let mut count: usize = 0;
        let mut i: usize = 0;
        while i < self.txs.len()
            invariant
                ts == self.spec_txs(),
                i <= self.txs@.len(),
                count <= i,
                count as int == spec_count_sender(ts, sender@, i as int),
            decreases self.txs@.len() - i,
        {
            if bytes_eq(&self.txs[i].data.sender, sender) {
                count += 1;
            }
            i += 1;
        }
        count
    }

    /// Index of the pending transaction carrying the hash `h`, if any.
    fn find_by_hash(&self, h: &Vec<u8>) -> (r: Option<usize>)
        ensures
            match r {
                Some(i) => i < self.spec_txs().len() && self.spec_txs()[i as int].tx_hash == h@,
                None => !spec_has_tx_hash(self.spec_txs(), h@),
            },
    {
        let mut i: usize = 0;
        while i < self.txs.len()
            invariant
                i <= self.txs@.len(),
                forall|j: int| 0 <= j < i ==> self.txs@[j]@.tx_hash != h@,
            decreases self.txs@.len() - i,
        {
            if bytes_eq(&self.txs[i].tx_hash, h) {
                return Some(i);
            }
            i += 1;
        }
        None
    }

    /// Admits `tx` when its signature checks out and no pending transaction
    /// carries the same content hash; rejects it otherwise, saying why, and
    /// leaves the pool unchanged.
    pub fn submit_transaction(&mut self, tx: Transaction) -> (r: Result<(), PoolError>)
        requires
            old(self).wf(),
        ensures
            final(self).wf(),
            match r {
                Ok(()) => spec_tx_valid(tx@) && !spec_has_tx_hash(old(self).spec_txs(), tx@.tx_hash)
                    && final(self).spec_txs() == old(self).spec_txs().push(tx@),
                Err(PoolError::InvalidTransaction) => !spec_tx_valid(tx@) && final(self).spec_txs()
                    == old(self).spec_txs(),
                Err(PoolError::Duplicate) => spec_tx_valid(tx@) && spec_has_tx_hash(
                    old(self).spec_txs(),
                    tx@.tx_hash,
                ) && final(self).spec_txs() == old(self).spec_txs(),
            },
    {
        if !tx.verify() {
            return Err(PoolError::InvalidTransaction);
        }
        let ghost ts = self.spec_txs();
        match self.find_by_hash(&tx.tx_hash) {
            Some(i) => {
                proof {
                    assert(ts[i as int].tx_hash == tx@.tx_hash);
                }
                return Err(PoolError::Duplicate);
            },
            None => {},
        }
        self.txs.push(tx);
        proof {
            assert(self.spec_txs() =~= ts.push(tx@));
            let u = self.spec_txs();
            assert forall|p: int, q: int|
                0 <= p < q < u.len() implies u[p].tx_hash != u[q].tx_hash by {
                if q < u.len() - 1 {
                    assert(u[p] == ts[p] && u[q] == ts[q]);
                } else {
                    assert(u[q] == tx@ && u[p] == ts[p]);
                }
            }
        }
        Ok(())
    }

    /// Empties the pool; used when a mined block took every pending
    /// transaction.
    pub fn clear(&mut self)
        ensures
            final(self).wf(),
            final(self).spec_txs() == Seq::<TransactionView>::empty(),
    {
        self.txs.clear();
        proof {
            assert(self.spec_txs() =~= Seq::<TransactionView>::empty());
        }
    }
}

} // verus!
