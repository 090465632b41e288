use vstd::prelude::*;
use crate::block::{Block, BlockView};
use crate::blockchain::Blockchain;
use crate::bytes_util::{push_len_prefixed, push_u64_be, spec_len_prefixed, spec_u64_be};
use crate::transaction::{Transaction, TransactionData, TransactionType, TransactionView,
    spec_tx_signing_bytes, tx_signing_bytes};
use crate::auction::{spec_read_u64, spec_read_bytes, read_u64, read_bytes,
    lemma_read_u64_of_written, lemma_read_bytes_of_written};

verus! {

/// The marker the full-chain hand-off message starts with.
pub open spec fn spec_chain_magic() -> Seq<u8> {
    seq![66u8, 67u8, 72u8, 65u8, 73u8, 78u8, 86u8, 49u8]
}

/// The marker bytes of a hand-off message.
pub fn chain_magic() -> (r: Vec<u8>)
    ensures
        r@ == spec_chain_magic(),
{
    let mut r: Vec<u8> = Vec::new();
    r.push(66);
    r.push(67);
    r.push(72);
    r.push(65);
    r.push(73);
    r.push(78);
    r.push(86);
    r.push(49);
    proof {
        assert(r@ =~= spec_chain_magic());
    }
    r
}

/// The wire form of one transaction: its signed bytes, then its signature
/// and content hash.
pub open spec fn spec_encode_tx(t: TransactionView) -> Seq<u8> {
    spec_tx_signing_bytes(t.data) + spec_len_prefixed(t.signature) + spec_len_prefixed(t.tx_hash)
}

/// The wire forms of the transactions from position `from` on.
pub open spec fn spec_encode_txs_from(ts: Seq<TransactionView>, from: int) -> Seq<u8>
    decreases ts.len() - from,
{
    if from < 0 || from >= ts.len() {
        Seq::empty()
    } else {
        spec_encode_tx(ts[from]) + spec_encode_txs_from(ts, from + 1)
    }
}

/// The wire form of one block: its header fields, then its transaction
/// count and transactions.
pub open spec fn spec_encode_block(b: BlockView) -> Seq<u8> {
    spec_u64_be(b.index) + spec_len_prefixed(b.previous_hash) + spec_u64_be(b.timestamp)
        + spec_u64_be(b.nonce) + spec_len_prefixed(b.hash) + spec_u64_be(
        b.transactions.len() as u64,
    ) + spec_encode_txs_from(b.transactions, 0)
}

/// The wire forms of the blocks from position `from` on.
pub open spec fn spec_encode_blocks_from(c: Seq<BlockView>, from: int) -> Seq<u8>
    decreases c.len() - from,
{
    if from < 0 || from >= c.len() {
        Seq::empty()
    } else {
        spec_encode_block(c[from]) + spec_encode_blocks_from(c, from + 1)
    }
}

/// The wire form of a whole chain hand-off message.
pub open spec fn spec_encode_chain(c: Seq<BlockView>) -> Seq<u8> {
    spec_chain_magic() + spec_u64_be(c.len() as u64) + spec_encode_blocks_from(c, 0)
}

/// Appends the wire form of `t` to `out`.
fn push_tx(out: &mut Vec<u8>, t: &Transaction)
    ensures
        final(out)@ == old(out)@ + spec_encode_tx(t@),
{
    let body = tx_signing_bytes(&t.data);
    crate::bytes_util::push_bytes(out, &body);
    push_len_prefixed(out, &t.signature);
    push_len_prefixed(out, &t.tx_hash);
    proof {
        assert(out@ =~= old(out)@ + spec_encode_tx(t@));
    }
}

/// Appends the wire form of `b` to `out`.
fn push_block(out: &mut Vec<u8>, b: &Block)
    ensures
        final(out)@ == old(out)@ + spec_encode_block(b@),
{
    push_u64_be(out, b.index);
    push_len_prefixed(out, &b.previous_hash);
    push_u64_be(out, b.timestamp);
    push_u64_be(out, b.nonce);
    push_len_prefixed(out, &b.hash);
    push_u64_be(out, b.transactions.len() as u64);
    let ghost head = out@;
    let ghost tvs = b.transactions@.map_values(|t: Transaction| t@);
    let mut i: usize = 0;
    while i < b.transactions.len()
        invariant
            tvs == b.transactions@.map_values(|t: Transaction| t@),
            i <= b.transactions@.len(),
            out@ + spec_encode_txs_from(tvs, i as int) == head + spec_encode_txs_from(tvs, 0),
        decreases b.transactions@.len() - i,
    {
        let ghost out0 = out@;
        push_tx(out, &b.transactions[i]);
        proof {
            assert(tvs[i as int] == b.transactions@[i as int]@);
            assert(spec_encode_txs_from(tvs, i as int) == spec_encode_tx(tvs[i as int])
                + spec_encode_txs_from(tvs, i + 1));
            assert(out@ + spec_encode_txs_from(tvs, i + 1) =~= out0 + spec_encode_txs_from(
                tvs,
                i as int,
            ));
        }
        i += 1;
    }
    proof {
        assert(spec_encode_txs_from(tvs, b.transactions@.len() as int) =~= Seq::<u8>::empty());
        assert(out@ + Seq::<u8>::empty() =~= out@);
        assert(out@ =~= old(out)@ + spec_encode_block(b@));
    }
}

/// Serialises the whole chain into a hand-off message.
pub fn encode_chain(chain: &Blockchain) -> (r: Vec<u8>)
    ensures
        r@ == spec_encode_chain(chain.spec_chain()),
{
    let ghost c = chain.spec_chain();
    let mut out = chain_magic();
    push_u64_be(&mut out, chain.blocks.len() as u64);
    let ghost head = out@;
    let mut i: usize = 0;
    while i < chain.blocks.len()
        invariant
            c == chain.spec_chain(),
            i <= chain.blocks@.len(),
            out@ + spec_encode_blocks_from(c, i as int) == head + spec_encode_blocks_from(c, 0),
        decreases chain.blocks@.len() - i,
    {
        let ghost out0 = out@;
        push_block(&mut out, &chain.blocks[i]);
        proof {
            assert(c[i as int] == chain.blocks@[i as int]@);
            assert(spec_encode_blocks_from(c, i as int) == spec_encode_block(c[i as int])
                + spec_encode_blocks_from(c, i + 1));
            assert(out@ + spec_encode_blocks_from(c, i + 1) =~= out0 + spec_encode_blocks_from(
                c,
                i as int,
            ));
        }
        i += 1;
    }
    proof {
        assert(spec_encode_blocks_from(c, chain.blocks@.len() as int) =~= Seq::<u8>::empty());
        assert(out@ + Seq::<u8>::empty() =~= out@);
        assert(out@ =~= spec_encode_chain(c));
    }
    out
}

/// Reads one byte telling the two transaction kinds apart.
pub open spec fn spec_read_tx_type(s: Seq<u8>, pos: int) -> Option<(TransactionType, int)> {
    if 0 <= pos < s.len() {
        if s[pos] == 1 {
            Some((TransactionType::Transfer, pos + 1))
        } else if s[pos] == 2 {
            Some((TransactionType::Data, pos + 1))
        } else {
            None
        }
    } else {
        None
    }
}

/// Reads a presence byte and, when present, an integer.
pub open spec fn spec_read_opt_u64(s: Seq<u8>, pos: int) -> Option<(Option<u64>, int)> {
    if 0 <= pos < s.len() {
        if s[pos] == 0 {
            Some((None, pos + 1))
        } else if s[pos] == 1 {
            match spec_read_u64(s, pos + 1) {
                Some((n, p)) => Some((Some(n), p)),
                None => None,
            }
        } else {
            None
        }
    } else {
        None
    }
}

/// Reads a presence byte and, when present, a length-prefixed string.
pub open spec fn spec_read_opt_bytes(s: Seq<u8>, pos: int) -> Option<(Option<Seq<u8>>, int)> {
    if 0 <= pos < s.len() {
        if s[pos] == 0 {
            Some((None, pos + 1))
        } else if s[pos] == 1 {
            match spec_read_bytes(s, pos + 1) {
                Some((b, p)) => Some((Some(b), p)),
                None => None,
            }
        } else {
            None
        }
    } else {
        None
    }
}

/// Reads one transaction in its wire form.
pub open spec fn spec_read_tx(s: Seq<u8>, pos: int) -> Option<(TransactionView, int)> {
    match spec_read_bytes(s, pos) {
        None => None,
        Some((sender, p1)) => match spec_read_tx_type(s, p1) {
            None => None,
            Some((tx_type, p2)) => match spec_read_opt_u64(s, p2) {
                None => None,
                Some((amount, p3)) => match spec_read_opt_bytes(s, p3) {
                    None => None,
                    Some((data, p4)) => match spec_read_u64(s, p4) {
                        None => None,
                        Some((fee, p5)) => match spec_read_u64(s, p5) {
                            None => None,
                            Some((nonce, p6)) => match spec_read_u64(s, p6) {
                                None => None,
                                Some((timestamp, p7)) => match spec_read_bytes(s, p7) {
                                    None => None,
                                    Some((signature, p8)) => match spec_read_bytes(s, p8) {
                                        None => None,
                                        Some((tx_hash, p9)) => Some(
                                            (
                                                TransactionView {
                                                    data: crate::transaction::TransactionDataView {
                                                        sender,
                                                        tx_type,
                                                        amount,
                                                        data,
                                                        fee,
                                                        nonce,
                                                        timestamp,
                                                    },
                                                    signature,
                                                    tx_hash,
                                                },
                                                p9,
                                            ),
                                        ),
                                    },
                                },
                            },
                        },
                    },
                },
            },
        },
    }
}

/// Reads `n` transactions in a row.
pub open spec fn spec_read_txs(s: Seq<u8>, pos: int, n: int) -> Option<
    (Seq<TransactionView>, int),
>
    decreases n,
{
    if n <= 0 {
        Some((Seq::empty(), pos))
    } else {
        match spec_read_tx(s, pos) {
            None => None,
            Some((t, p)) => match spec_read_txs(s, p, n - 1) {
                None => None,
                Some((ts, p2)) => Some((seq![t] + ts, p2)),
            },
        }
    }
}

/// Reads one block in its wire form.
pub open spec fn spec_read_block(s: Seq<u8>, pos: int) -> Option<(BlockView, int)> {
    match spec_read_u64(s, pos) {
        None => None,
        Some((index, p1)) => match spec_read_bytes(s, p1) {
            None => None,
            Some((previous_hash, p2)) => match spec_read_u64(s, p2) {
                None => None,
                Some((timestamp, p3)) => match spec_read_u64(s, p3) {
                    None => None,
                    Some((nonce, p4)) => match spec_read_bytes(s, p4) {
                        None => None,
                        Some((hash, p5)) => match spec_read_u64(s, p5) {
                            None => None,
                            Some((ntx, p6)) => match spec_read_txs(s, p6, ntx as int) {
                                None => None,
                                Some((transactions, p7)) => Some(
                                    (
                                        BlockView {
                                            index,
                                            previous_hash,
                                            transactions,
                                            timestamp,
                                            nonce,
                                            hash,
                                        },
                                        p7,
                                    ),
                                ),
                            },
                        },
                    },
                },
            },
        },
    }
}

/// Reads `n` blocks in a row.
pub open spec fn spec_read_blocks(s: Seq<u8>, pos: int, n: int) -> Option<(Seq<BlockView>, int)>
    decreases n,
{
    if n <= 0 {
        Some((Seq::empty(), pos))
    } else {
        match spec_read_block(s, pos) {
            None => None,
            Some((b, p)) => match spec_read_blocks(s, p, n - 1) {
                None => None,
                Some((bs, p2)) => Some((seq![b] + bs, p2)),
            },
        }
    }
}

/// Decodes a hand-off message back into the chain it carries; anything
/// malformed, missing the marker, or carrying trailing bytes decodes to
/// nothing.
pub open spec fn spec_decode_chain(s: Seq<u8>) -> Option<Seq<BlockView>> {
    if s.len() < 16 || s.subrange(0, 8) != spec_chain_magic() {
        None
    } else {
        match spec_read_u64(s, 8) {
            None => None,
            Some((n, p)) => match spec_read_blocks(s, p, n as int) {
                None => None,
                Some((bs, end)) => {
                    if end == s.len() {
                        Some(bs)
                    } else {
                        None
                    }
                },
            },
        }
    }
}

fn read_tx_type(s: &Vec<u8>, pos: usize) -> (r: Option<(TransactionType, usize)>)
    ensures
        match r {
            Some(p) => spec_read_tx_type(s@, pos as int) == Some((p.0, p.1 as int)),
            None => spec_read_tx_type(s@, pos as int) is None,
        },
{
    if pos >= s.len() {
        return None;
    }
    if s[pos] == 1 {
        Some((TransactionType::Transfer, pos + 1))
    } else if s[pos] == 2 {
        Some((TransactionType::Data, pos + 1))
    } else {
        None
    }
}

fn read_opt_u64(s: &Vec<u8>, pos: usize) -> (r: Option<(Option<u64>, usize)>)
    ensures
        match r {
            Some(p) => spec_read_opt_u64(s@, pos as int) == Some((p.0, p.1 as int)),
            None => spec_read_opt_u64(s@, pos as int) is None,
        },
{
    if pos >= s.len() {
        return None;
    }
    if s[pos] == 0 {
        Some((None, pos + 1))
    } else if s[pos] == 1 {
        match read_u64(s, pos + 1) {
            Some((n, p)) => Some((Some(n), p)),
            None => None,
        }
    } else {
        None
    }
}

fn read_opt_bytes(s: &Vec<u8>, pos: usize) -> (r: Option<(Option<Vec<u8>>, usize)>)
    ensures
        match r {
            Some(p) => spec_read_opt_bytes(s@, pos as int) == Some(
                (
                    match p.0 {
                        Some(b) => Some(b@),
                        None => None,
                    },
                    p.1 as int,
                ),
            ),
            None => spec_read_opt_bytes(s@, pos as int) is None,
        },
{
    if pos >= s.len() {
        return None;
    }
    if s[pos] == 0 {
        Some((None, pos + 1))
    } else if s[pos] == 1 {
        match read_bytes(s, pos + 1) {
            Some((b, p)) => Some((Some(b), p)),
            None => None,
        }
    } else {
        None
    }
}

fn read_tx(s: &Vec<u8>, pos: usize) -> (r: Option<(Transaction, usize)>)
    ensures
        match r {
            Some(p) => spec_read_tx(s@, pos as int) == Some((p.0@, p.1 as int)),
            None => spec_read_tx(s@, pos as int) is None,
        },
{
    let (sender, p1) = match read_bytes(s, pos) {
        Some(q) => q,
        None => {
            return None;
        },
    };
    let (tx_type, p2) = match read_tx_type(s, p1) {
        Some(q) => q,
        None => {
            return None;
        },
    };
    let (amount, p3) = match read_opt_u64(s, p2) {
        Some(q) => q,
        None => {
            return None;
        },
    };
    let (data, p4) = match read_opt_bytes(s, p3) {
        Some(q) => q,
        None => {
            return None;
        },
    };
    let (fee, p5) = match read_u64(s, p4) {
        Some(q) => q,
        None => {
            return None;
        },
    };
    let (nonce, p6) = match read_u64(s, p5) {
        Some(q) => q,
        None => {
            return None;
        },
    };
    let (timestamp, p7) = match read_u64(s, p6) {
        Some(q) => q,
        None => {
            return None;
        },
    };
    let (signature, p8) = match read_bytes(s, p7) {
        Some(q) => q,
        None => {
            return None;
        },
    };
    let (tx_hash, p9) = match read_bytes(s, p8) {
        Some(q) => q,
        None => {
            return None;
        },
    };
    let tx = Transaction {
        data: TransactionData { sender, tx_type, amount, data, fee, nonce, timestamp },
        signature,
        tx_hash,
    };
    proof {
        assert(spec_read_tx(s@, pos as int) == Some((tx@, p9 as int)));
    }
    Some((tx, p9))
}

fn read_txs(s: &Vec<u8>, pos: usize, n: u64) -> (r: Option<(Vec<Transaction>, usize)>)
    ensures
        match r {
            Some(p) => spec_read_txs(s@, pos as int, n as int) == Some(
                (p.0@.map_values(|t: Transaction| t@), p.1 as int),
            ),
            None => spec_read_txs(s@, pos as int, n as int) is None,
        },
{
    let mut acc: Vec<Transaction> = Vec::new();
    let mut cur: usize = pos;
    let mut k: u64 = 0;
    proof {
        assert(acc@.map_values(|t: Transaction| t@) =~= Seq::<TransactionView>::empty());
    }
    while k < n
        invariant
            k <= n,
            match spec_read_txs(s@, cur as int, (n - k) as int) {
                Some(pr) => spec_read_txs(s@, pos as int, n as int) == Some(
                    (acc@.map_values(|t: Transaction| t@) + pr.0, pr.1),
                ),
                None => spec_read_txs(s@, pos as int, n as int) is None,
            },
        decreases n - k,
    {
        let ghost accv = acc@.map_values(|t: Transaction| t@);
        let (t, p) = match read_tx(s, cur) {
            Some(q) => q,
            None => {
                return None;
            },
        };
        acc.push(t);
        proof {
            assert(acc@.map_values(|t: Transaction| t@) =~= accv + seq![acc@.last()@]);
            match spec_read_txs(s@, p as int, (n - k - 1) as int) {
                Some(pr2) => {
                    assert(accv + (seq![acc@.last()@] + pr2.0) =~= (accv + seq![acc@.last()@])
                        + pr2.0);
                },
                None => {},
            }
        }
        cur = p;
        k += 1;
    }
    proof {
        assert(spec_read_txs(s@, cur as int, 0) == Some(
            (Seq::<TransactionView>::empty(), cur as int),
        ));
        assert(acc@.map_values(|t: Transaction| t@) + Seq::<TransactionView>::empty() =~= acc@
            .map_values(|t: Transaction| t@));
    }
    Some((acc, cur))
}

fn read_block(s: &Vec<u8>, pos: usize) -> (r: Option<(Block, usize)>)
    ensures
        match r {
            Some(p) => spec_read_block(s@, pos as int) == Some((p.0@, p.1 as int)),
            None => spec_read_block(s@, pos as int) is None,
        },
{
    let (index, p1) = match read_u64(s, pos) {
        Some(q) => q,
        None => {
            return None;
        },
    };
    let (previous_hash, p2) = match read_bytes(s, p1) {
        Some(q) => q,
        None => {
            return None;
        },
    };
    let (timestamp, p3) = match read_u64(s, p2) {
        Some(q) => q,
        None => {
            return None;
        },
    };
    let (nonce, p4) = match read_u64(s, p3) {
        Some(q) => q,
        None => {
            return None;
        },
    };
    let (hash, p5) = match read_bytes(s, p4) {
        Some(q) => q,
        None => {
            return None;
        },
    };
    let (ntx, p6) = match read_u64(s, p5) {
        Some(q) => q,
        None => {
            return None;
        },
    };
    let (transactions, p7) = match read_txs(s, p6, ntx) {
        Some(q) => q,
        None => {
            return None;
        },
    };
    let block = Block { index, previous_hash, transactions, timestamp, nonce, hash };
    proof {
        assert(spec_read_block(s@, pos as int) == Some((block@, p7 as int)));
    }
    Some((block, p7))
}

fn read_blocks(s: &Vec<u8>, pos: usize, n: u64) -> (r: Option<(Vec<Block>, usize)>)
    ensures
        match r {
            Some(p) => spec_read_blocks(s@, pos as int, n as int) == Some(
                (p.0@.map_values(|b: Block| b@), p.1 as int),
            ),
            None => spec_read_blocks(s@, pos as int, n as int) is None,
        },
{
    let mut acc: Vec<Block> = Vec::new();
    let mut cur: usize = pos;
    let mut k: u64 = 0;
    proof {
        assert(acc@.map_values(|b: Block| b@) =~= Seq::<BlockView>::empty());
    }
    while k < n
        invariant
            k <= n,
            match spec_read_blocks(s@, cur as int, (n - k) as int) {
                Some(pr) => spec_read_blocks(s@, pos as int, n as int) == Some(
                    (acc@.map_values(|b: Block| b@) + pr.0, pr.1),
                ),
                None => spec_read_blocks(s@, pos as int, n as int) is None,
            },
        decreases n - k,
    {
        let ghost accv = acc@.map_values(|b: Block| b@);
        let (b, p) = match read_block(s, cur) {
            Some(q) => q,
            None => {
                return None;
            },
        };
        acc.push(b);
        proof {
            assert(acc@.map_values(|b: Block| b@) =~= accv + seq![acc@.last()@]);
            match spec_read_blocks(s@, p as int, (n - k - 1) as int) {
                Some(pr2) => {
                    assert(accv + (seq![acc@.last()@] + pr2.0) =~= (accv + seq![acc@.last()@])
                        + pr2.0);
                },
                None => {},
            }
        }
        cur = p;
        k += 1;
    }
    proof {
        assert(spec_read_blocks(s@, cur as int, 0) == Some((Seq::<BlockView>::empty(), cur as int)));
        assert(acc@.map_values(|b: Block| b@) + Seq::<BlockView>::empty() =~= acc@.map_values(
            |b: Block| b@,
        ));
    }
    Some((acc, cur))
}

/// Decodes a hand-off message back into the chain it carries.
pub fn decode_chain(s: &Vec<u8>) -> (r: Option<Blockchain>)
    ensures
        match r {
            Some(chain) => spec_decode_chain(s@) == Some(chain.spec_chain()),
            None => spec_decode_chain(s@) is None,
        },
{
    if s.len() < 16 {
        return None;
    }
    let magic = chain_magic();
    let mut i: usize = 0;
    while i < 8
        invariant
            i <= 8,
            s@.len() >= 16,
            magic@ == spec_chain_magic(),
            forall|j: int| 0 <= j < i ==> s@[j] == spec_chain_magic()[j],
        decreases 8 - i,
    {
        if s[i] != magic[i] {
            proof {
                assert(s@.subrange(0, 8)[i as int] != spec_chain_magic()[i as int]);
            }
            return None;
        }
        i += 1;
    }
    proof {
        assert(s@.subrange(0, 8) =~= spec_chain_magic());
    }
    let (n, p) = match read_u64(s, 8) {
        Some(q) => q,
        None => {
            return None;
        },
    };
    let (blocks, end) = match read_blocks(s, p, n) {
        Some(q) => q,
        None => {
            return None;
        },
    };
    if end == s.len() {
        let chain = Blockchain { blocks };
        proof {
            assert(spec_decode_chain(s@) == Some(chain.spec_chain()));
        }
        Some(chain)
    } else {
        None
    }
}

/// Every byte string a transaction holds is short enough for its length
/// to be written as one machine word; every transaction built in
/// executable code is.
pub open spec fn spec_tx_bounded(t: TransactionView) -> bool {
    &&& t.data.sender.len() <= u64::MAX
    &&& match t.data.data {
        Some(d) => d.len() <= u64::MAX,
        None => true,
    }
    &&& t.signature.len() <= u64::MAX
    &&& t.tx_hash.len() <= u64::MAX
}

/// Every field of the block, and every transaction in it, is bounded.
pub open spec fn spec_block_bounded(b: BlockView) -> bool {
    &&& b.previous_hash.len() <= u64::MAX
    &&& b.hash.len() <= u64::MAX
    &&& b.transactions.len() <= u64::MAX
    &&& forall|i: int| 0 <= i < b.transactions.len() ==> spec_tx_bounded(#[trigger] b.transactions[i])
}

/// Every block of the chain, and the chain itself, is bounded.
pub open spec fn spec_chain_bounded(c: Seq<BlockView>) -> bool {
    &&& c.len() <= u64::MAX
    &&& forall|i: int| 0 <= i < c.len() ==> spec_block_bounded(#[trigger] c[i])
}

/// A window of `s` spelling `a + b` splits into a window spelling `a` and
/// one spelling `b`.
proof fn lemma_split_window(s: Seq<u8>, pos: int, a: Seq<u8>, b: Seq<u8>)
    requires
        0 <= pos,
        pos + a.len() + b.len() <= s.len(),
        s.subrange(pos, pos + a.len() + b.len()) =~= a + b,
    ensures
        s.subrange(pos, pos + a.len() as int) =~= a,
        s.subrange(pos + a.len() as int, pos + a.len() + b.len()) =~= b,
{
    assert forall|k: int| 0 <= k < a.len() implies s.subrange(pos, pos + a.len() as int)[k]
        == a[k] by {
        assert(s[pos + k] == s.subrange(pos, pos + a.len() + b.len())[k]);
    }
    assert forall|k: int|
        0 <= k < b.len() implies s.subrange(pos + a.len() as int, pos + a.len() + b.len())[k]
        == b[k] by {
        assert(s[pos + a.len() + k] == s.subrange(pos, pos + a.len() + b.len())[a.len() + k]);
    }
}

proof fn lemma_read_tx_type_of_written(s: Seq<u8>, pos: int, ty: TransactionType)
    requires
        0 <= pos < s.len(),
        s[pos] == crate::transaction::spec_tx_type_tag(ty),
    ensures
        spec_read_tx_type(s, pos) == Some((ty, pos + 1)),
{
}

proof fn lemma_read_opt_u64_of_written(s: Seq<u8>, pos: int, o: Option<u64>)
    requires
        0 <= pos,
        pos + crate::transaction::spec_opt_u64_bytes(o).len() <= s.len(),
        s.subrange(pos, pos + crate::transaction::spec_opt_u64_bytes(o).len() as int)
            =~= crate::transaction::spec_opt_u64_bytes(o),
    ensures
        spec_read_opt_u64(s, pos) == Some(
            (o, pos + crate::transaction::spec_opt_u64_bytes(o).len()),
        ),
{
    let w = crate::transaction::spec_opt_u64_bytes(o);
    match o {
        None => {
            assert(s[pos] == w[0]);
        },
        Some(n) => {
            assert(s[pos] == w[0]);
            assert forall|k: int| 0 <= k < 8 implies s.subrange(pos + 1, pos + 9)[k]
                == spec_u64_be(n)[k] by {
                assert(s[pos + 1 + k] == w[1 + k]);
            }
            lemma_read_u64_of_written(s, pos + 1, n);
        },
    }
}

proof fn lemma_read_opt_bytes_of_written(s: Seq<u8>, pos: int, o: Option<Seq<u8>>)
    requires
        0 <= pos,
        match o {
            Some(d) => d.len() <= u64::MAX,
            None => true,
        },
        pos + crate::transaction::spec_opt_bytes_bytes(o).len() <= s.len(),
        s.subrange(pos, pos + crate::transaction::spec_opt_bytes_bytes(o).len() as int)
            =~= crate::transaction::spec_opt_bytes_bytes(o),
    ensures
        spec_read_opt_bytes(s, pos) == Some(
            (o, pos + crate::transaction::spec_opt_bytes_bytes(o).len()),
        ),
{
    let w = crate::transaction::spec_opt_bytes_bytes(o);
    match o {
        None => {
            assert(s[pos] == w[0]);
        },
        Some(d) => {
            assert(s[pos] == w[0]);
            let wd = spec_len_prefixed(d);
            assert forall|k: int|
                0 <= k < wd.len() implies s.subrange(pos + 1, pos + 1 + wd.len() as int)[k]
                == wd[k] by {
                assert(s[pos + 1 + k] == w[1 + k]);
            }
            assert(s.subrange(pos + 1, pos + 1 + wd.len() as int) =~= wd);
            lemma_read_bytes_of_written(s, pos + 1, d);
        },
    }
}

proof fn lemma_read_tx_from_reads(
    s: Seq<u8>,
    pos: int,
    t: TransactionView,
    p1: int,
    p2: int,
    p3: int,
    p4: int,
    p5: int,
    p6: int,
    p7: int,
    p8: int,
    p9: int,
)
    requires
        spec_read_bytes(s, pos) == Some((t.data.sender, p1)),
        spec_read_tx_type(s, p1) == Some((t.data.tx_type, p2)),
        spec_read_opt_u64(s, p2) == Some((t.data.amount, p3)),
        spec_read_opt_bytes(s, p3) == Some((t.data.data, p4)),
        spec_read_u64(s, p4) == Some((t.data.fee, p5)),
        spec_read_u64(s, p5) == Some((t.data.nonce, p6)),
        spec_read_u64(s, p6) == Some((t.data.timestamp, p7)),
        spec_read_bytes(s, p7) == Some((t.signature, p8)),
        spec_read_bytes(s, p8) == Some((t.tx_hash, p9)),
    ensures
        spec_read_tx(s, pos) == Some((t, p9)),
{
    assert(t =~= TransactionView {
        data: crate::transaction::TransactionDataView {
            sender: t.data.sender,
            tx_type: t.data.tx_type,
            amount: t.data.amount,
            data: t.data.data,
            fee: t.data.fee,
            nonce: t.data.nonce,
            timestamp: t.data.timestamp,
        },
        signature: t.signature,
        tx_hash: t.tx_hash,
    });
}

/// Reading a transaction back from where its wire form was written yields
/// the transaction and the position after it.
proof fn lemma_read_tx_of_written(s: Seq<u8>, pos: int, t: TransactionView)
    requires
        spec_tx_bounded(t),
        0 <= pos,
        pos + spec_encode_tx(t).len() <= s.len(),
        s.subrange(pos, pos + spec_encode_tx(t).len() as int) =~= spec_encode_tx(t),
    ensures
        spec_read_tx(s, pos) == Some((t, pos + spec_encode_tx(t).len())),
{
    let d = t.data;
    let w1 = spec_len_prefixed(d.sender);
    let w2 = seq![crate::transaction::spec_tx_type_tag(d.tx_type)];
    let w3 = crate::transaction::spec_opt_u64_bytes(d.amount);
    let w4 = crate::transaction::spec_opt_bytes_bytes(d.data);
    let w5 = spec_u64_be(d.fee);
    let w6 = spec_u64_be(d.nonce);
    let w7 = spec_u64_be(d.timestamp);
    let w8 = spec_len_prefixed(t.signature);
    let w9 = spec_len_prefixed(t.tx_hash);
    let full = spec_encode_tx(t);
    assert(full =~= w1 + w2 + w3 + w4 + w5 + w6 + w7 + w8 + w9);
    let p1 = pos + w1.len() as int;
    let p2 = p1 + 1;
    let p3 = p2 + w3.len() as int;
    let p4 = p3 + w4.len() as int;
    let p5 = p4 + 8;
    let p6 = p5 + 8;
    let p7 = p6 + 8;
    let p8 = p7 + w8.len() as int;
    let p9 = p8 + w9.len() as int;
    assert(spec_read_bytes(s, pos) == Some((d.sender, p1))) by {
        assert forall|k: int| 0 <= k < w1.len() implies s.subrange(pos, p1)[k] == w1[k] by {
            assert(s[pos + k] == full[k]);
        }
        assert(s.subrange(pos, p1) =~= w1);
        lemma_read_bytes_of_written(s, pos, d.sender);
    }
    assert(spec_read_tx_type(s, p1) == Some((d.tx_type, p2))) by {
        assert(s[p1] == full[w1.len() as int]);
        lemma_read_tx_type_of_written(s, p1, d.tx_type);
    }
    assert(spec_read_opt_u64(s, p2) == Some((d.amount, p3))) by {
        assert forall|k: int| 0 <= k < w3.len() implies s.subrange(p2, p3)[k] == w3[k] by {
            assert(s[p2 + k] == full[w1.len() + 1 + k]);
        }
        assert(s.subrange(p2, p3) =~= w3);
        lemma_read_opt_u64_of_written(s, p2, d.amount);
    }
    assert(spec_read_opt_bytes(s, p3) == Some((d.data, p4))) by {
        assert forall|k: int| 0 <= k < w4.len() implies s.subrange(p3, p4)[k] == w4[k] by {
            assert(s[p3 + k] == full[w1.len() + 1 + w3.len() + k]);
        }
        assert(s.subrange(p3, p4) =~= w4);
        lemma_read_opt_bytes_of_written(s, p3, d.data);
    }
    assert(spec_read_u64(s, p4) == Some((d.fee, p5))) by {
        assert forall|k: int| 0 <= k < 8 implies s.subrange(p4, p5)[k] == w5[k] by {
            assert(s[p4 + k] == full[w1.len() + 1 + w3.len() + w4.len() + k]);
        }
        assert(s.subrange(p4, p5) =~= w5);
        lemma_read_u64_of_written(s, p4, d.fee);
    }
    assert(spec_read_u64(s, p5) == Some((d.nonce, p6))) by {
        assert forall|k: int| 0 <= k < 8 implies s.subrange(p5, p6)[k] == w6[k] by {
            assert(s[p5 + k] == full[w1.len() + 1 + w3.len() + w4.len() + 8 + k]);
        }
        assert(s.subrange(p5, p6) =~= w6);
        lemma_read_u64_of_written(s, p5, d.nonce);
    }
    assert(spec_read_u64(s, p6) == Some((d.timestamp, p7))) by {
        assert forall|k: int| 0 <= k < 8 implies s.subrange(p6, p7)[k] == w7[k] by {
            assert(s[p6 + k] == full[w1.len() + 1 + w3.len() + w4.len() + 16 + k]);
        }
        assert(s.subrange(p6, p7) =~= w7);
        lemma_read_u64_of_written(s, p6, d.timestamp);
    }
    assert(spec_read_bytes(s, p7) == Some((t.signature, p8))) by {
        assert forall|k: int| 0 <= k < w8.len() implies s.subrange(p7, p8)[k] == w8[k] by {
            assert(s[p7 + k] == full[w1.len() + 1 + w3.len() + w4.len() + 24 + k]);
        }
        assert(s.subrange(p7, p8) =~= w8);
        lemma_read_bytes_of_written(s, p7, t.signature);
    }
    assert(spec_read_bytes(s, p8) == Some((t.tx_hash, p9))) by {
        assert forall|k: int| 0 <= k < w9.len() implies s.subrange(p8, p9)[k] == w9[k] by {
            assert(s[p8 + k] == full[w1.len() + 1 + w3.len() + w4.len() + 24 + w8.len() + k]);
        }
        assert(s.subrange(p8, p9) =~= w9);
        lemma_read_bytes_of_written(s, p8, t.tx_hash);
    }
    lemma_read_tx_from_reads(s, pos, t, p1, p2, p3, p4, p5, p6, p7, p8, p9);
}

/// Reading `n` transactions back from where their wire forms were written,
/// `n` counting from position `from` of the list, yields the rest of the
/// list.
proof fn lemma_read_txs_of_written(s: Seq<u8>, pos: int, ts: Seq<TransactionView>, from: int)
    requires
        0 <= from <= ts.len(),
        forall|i: int| 0 <= i < ts.len() ==> spec_tx_bounded(#[trigger] ts[i]),
        0 <= pos,
        pos + spec_encode_txs_from(ts, from).len() <= s.len(),
        s.subrange(pos, pos + spec_encode_txs_from(ts, from).len() as int) =~= spec_encode_txs_from(
            ts,
            from,
        ),
    ensures
        spec_read_txs(s, pos, ts.len() - from) == Some(
            (ts.skip(from), pos + spec_encode_txs_from(ts, from).len()),
        ),
    decreases ts.len() - from,
{
    if from == ts.len() {
        assert(ts.skip(from) =~= Seq::<TransactionView>::empty());
    } else {
        let w1 = spec_encode_tx(ts[from]);
        let w2 = spec_encode_txs_from(ts, from + 1);
        assert(spec_encode_txs_from(ts, from) == w1 + w2);
        lemma_split_window(s, pos, w1, w2);
        let p = pos + w1.len() as int;
        lemma_read_tx_of_written(s, pos, ts[from]);
        lemma_read_txs_of_written(s, p, ts, from + 1);
        assert(ts.skip(from) =~= seq![ts[from]] + ts.skip(from + 1));
    }
}

proof fn lemma_read_block_from_reads(
    s: Seq<u8>,
    pos: int,
    b: BlockView,
    p1: int,
    p2: int,
    p3: int,
    p4: int,
    p5: int,
    p6: int,
    p7: int,
)
    requires
        b.transactions.len() <= u64::MAX,
        spec_read_u64(s, pos) == Some((b.index, p1)),
        spec_read_bytes(s, p1) == Some((b.previous_hash, p2)),
        spec_read_u64(s, p2) == Some((b.timestamp, p3)),
        spec_read_u64(s, p3) == Some((b.nonce, p4)),
        spec_read_bytes(s, p4) == Some((b.hash, p5)),
        spec_read_u64(s, p5) == Some((b.transactions.len() as u64, p6)),
        spec_read_txs(s, p6, b.transactions.len() as int) == Some((b.transactions, p7)),
    ensures
        spec_read_block(s, pos) == Some((b, p7)),
{
    assert(b =~= BlockView {
        index: b.index,
        previous_hash: b.previous_hash,
        transactions: b.transactions,
        timestamp: b.timestamp,
        nonce: b.nonce,
        hash: b.hash,
    });
}

/// Reading a block back from where its wire form was written yields the
/// block and the position after it.
proof fn lemma_read_block_of_written(s: Seq<u8>, pos: int, b: BlockView)
    requires
        spec_block_bounded(b),
        0 <= pos,
        pos + spec_encode_block(b).len() <= s.len(),
        s.subrange(pos, pos + spec_encode_block(b).len() as int) =~= spec_encode_block(b),
    ensures
        spec_read_block(s, pos) == Some((b, pos + spec_encode_block(b).len())),
{
    let w1 = spec_u64_be(b.index);
    let w2 = spec_len_prefixed(b.previous_hash);
    let w3 = spec_u64_be(b.timestamp);
    let w4 = spec_u64_be(b.nonce);
    let w5 = spec_len_prefixed(b.hash);
    let w6 = spec_u64_be(b.transactions.len() as u64);
    let w7 = spec_encode_txs_from(b.transactions, 0);
    let full = spec_encode_block(b);
    assert(full =~= w1 + w2 + w3 + w4 + w5 + w6 + w7);
    let p1 = pos + 8;
    let p2 = p1 + w2.len() as int;
    let p3 = p2 + 8;
    let p4 = p3 + 8;
    let p5 = p4 + w5.len() as int;
    let p6 = p5 + 8;
    let p7 = p6 + w7.len() as int;
    assert(spec_read_u64(s, pos) == Some((b.index, p1))) by {
        assert forall|k: int| 0 <= k < 8 implies s.subrange(pos, p1)[k] == w1[k] by {
            assert(s[pos + k] == full[k]);
        }
        assert(s.subrange(pos, p1) =~= w1);
        lemma_read_u64_of_written(s, pos, b.index);
    }
    assert(spec_read_bytes(s, p1) == Some((b.previous_hash, p2))) by {
        assert forall|k: int| 0 <= k < w2.len() implies s.subrange(p1, p2)[k] == w2[k] by {
            assert(s[p1 + k] == full[8 + k]);
        }
        assert(s.subrange(p1, p2) =~= w2);
        lemma_read_bytes_of_written(s, p1, b.previous_hash);
    }
    assert(spec_read_u64(s, p2) == Some((b.timestamp, p3))) by {
        assert forall|k: int| 0 <= k < 8 implies s.subrange(p2, p3)[k] == w3[k] by {
            assert(s[p2 + k] == full[8 + w2.len() + k]);
        }
        assert(s.subrange(p2, p3) =~= w3);
        lemma_read_u64_of_written(s, p2, b.timestamp);
    }
    assert(spec_read_u64(s, p3) == Some((b.nonce, p4))) by {
        assert forall|k: int| 0 <= k < 8 implies s.subrange(p3, p4)[k] == w4[k] by {
            assert(s[p3 + k] == full[16 + w2.len() + k]);
        }
        assert(s.subrange(p3, p4) =~= w4);
        lemma_read_u64_of_written(s, p3, b.nonce);
    }
    assert(spec_read_bytes(s, p4) == Some((b.hash, p5))) by {
        assert forall|k: int| 0 <= k < w5.len() implies s.subrange(p4, p5)[k] == w5[k] by {
            assert(s[p4 + k] == full[24 + w2.len() + k]);
        }
        assert(s.subrange(p4, p5) =~= w5);
        lemma_read_bytes_of_written(s, p4, b.hash);
    }
    assert(spec_read_u64(s, p5) == Some((b.transactions.len() as u64, p6))) by {
        assert forall|k: int| 0 <= k < 8 implies s.subrange(p5, p6)[k] == w6[k] by {
            assert(s[p5 + k] == full[24 + w2.len() + w5.len() + k]);
        }
        assert(s.subrange(p5, p6) =~= w6);
        lemma_read_u64_of_written(s, p5, b.transactions.len() as u64);
    }
    assert(spec_read_txs(s, p6, b.transactions.len() as int) == Some((b.transactions, p7))) by {
        assert forall|k: int| 0 <= k < w7.len() implies s.subrange(p6, p7)[k] == w7[k] by {
            assert(s[p6 + k] == full[32 + w2.len() + w5.len() + k]);
        }
        assert(s.subrange(p6, p7) =~= w7);
        lemma_read_txs_of_written(s, p6, b.transactions, 0);
        assert(b.transactions.skip(0) =~= b.transactions);
    }
    lemma_read_block_from_reads(s, pos, b, p1, p2, p3, p4, p5, p6, p7);
}

/// Reading `n` blocks back from where their wire forms were written,
/// counting from position `from` of the chain, yields the rest of the
/// chain.
proof fn lemma_read_blocks_of_written(s: Seq<u8>, pos: int, c: Seq<BlockView>, from: int)
    requires
        0 <= from <= c.len(),
        forall|i: int| 0 <= i < c.len() ==> spec_block_bounded(#[trigger] c[i]),
        0 <= pos,
        pos + spec_encode_blocks_from(c, from).len() <= s.len(),
        s.subrange(pos, pos + spec_encode_blocks_from(c, from).len() as int)
            =~= spec_encode_blocks_from(c, from),
    ensures
        spec_read_blocks(s, pos, c.len() - from) == Some(
            (c.skip(from), pos + spec_encode_blocks_from(c, from).len()),
        ),
    decreases c.len() - from,
{
    if from == c.len() {
        assert(c.skip(from) =~= Seq::<BlockView>::empty());
    } else {
        let w1 = spec_encode_block(c[from]);
        let w2 = spec_encode_blocks_from(c, from + 1);
        assert(spec_encode_blocks_from(c, from) == w1 + w2);
        lemma_split_window(s, pos, w1, w2);
        let p = pos + w1.len() as int;
        lemma_read_block_of_written(s, pos, c[from]);
        lemma_read_blocks_of_written(s, p, c, from + 1);
        assert(c.skip(from) =~= seq![c[from]] + c.skip(from + 1));
    }
}

proof fn lemma_decode_chain_from_reads(s: Seq<u8>, c: Seq<BlockView>)
    requires
        c.len() <= u64::MAX,
        s.len() >= 16,
        s.subrange(0, 8) == spec_chain_magic(),
        spec_read_u64(s, 8) == Some((c.len() as u64, 16int)),
        spec_read_blocks(s, 16, c.len() as int) == Some((c, s.len() as int)),
    ensures
        spec_decode_chain(s) == Some(c),
{
}

/// Decoding an encoded chain yields the chain back: the hand-off codec
/// round trips.
pub proof fn lemma_chain_round_trip(c: Seq<BlockView>)
    requires
        spec_chain_bounded(c),
    ensures
        spec_decode_chain(spec_encode_chain(c)) == Some(c),
{
    let s = spec_encode_chain(c);
    let w1 = spec_chain_magic();
    let w2 = spec_u64_be(c.len() as u64);
    let w3 = spec_encode_blocks_from(c, 0);
    assert(s =~= w1 + w2 + w3);
    assert(s.subrange(0, 8) =~= w1);
    assert(spec_read_u64(s, 8) == Some((c.len() as u64, 16int))) by {
        assert forall|k: int| 0 <= k < 8 implies s.subrange(8, 16)[k] == w2[k] by {
            assert(s[8 + k] == (w1 + w2 + w3)[8 + k]);
        }
        assert(s.subrange(8, 16) =~= w2);
        lemma_read_u64_of_written(s, 8, c.len() as u64);
    }
    assert(spec_read_blocks(s, 16, c.len() as int) == Some((c, s.len() as int))) by {
        assert forall|k: int| 0 <= k < w3.len() implies s.subrange(16, s.len() as int)[k]
            == w3[k] by {
            assert(s[16 + k] == (w1 + w2 + w3)[16 + k]);
        }
        assert(s.subrange(16, s.len() as int) =~= w3);
        lemma_read_blocks_of_written(s, 16, c, 0);
        assert(c.skip(0) =~= c);
    }
    lemma_decode_chain_from_reads(s, c);
}

} // verus!
