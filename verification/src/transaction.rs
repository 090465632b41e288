use vstd::prelude::*;
use crate::bytes_util::{copy_bytes, push_len_prefixed, push_u64_be, spec_len_prefixed,
    spec_u64_be};
use crate::crypto::{ed25519_public_key, ed25519_public_of, ed25519_sig_of, ed25519_sign,
    ed25519_verifies, ed25519_verify, sha256, sha256_of};

verus! {

/// The two operation kinds the ledger carries.
#[derive(Clone, Copy, PartialEq, Eq, Structural, Debug)]
pub enum TransactionType {
    Transfer,
    Data,
}

/// The signed body of an operation.
pub struct TransactionData {
    pub sender: Vec<u8>,
    pub tx_type: TransactionType,
    pub amount: Option<u64>,
    pub data: Option<Vec<u8>>,
    pub fee: u64,
    pub nonce: u64,
    pub timestamp: u64,
}

/// A fee-bearing, signed operation with its content hash.
pub struct Transaction {
    pub data: TransactionData,
    pub signature: Vec<u8>,
    pub tx_hash: Vec<u8>,
}

#[verifier::ext_equal]
pub struct TransactionDataView {
    pub sender: Seq<u8>,
    pub tx_type: TransactionType,
    pub amount: Option<u64>,
    pub data: Option<Seq<u8>>,
    pub fee: u64,
    pub nonce: u64,
    pub timestamp: u64,
}

#[verifier::ext_equal]
pub struct TransactionView {
    pub data: TransactionDataView,
    pub signature: Seq<u8>,
    pub tx_hash: Seq<u8>,
}

impl View for TransactionData {
    type V = TransactionDataView;

    open spec fn view(&self) -> TransactionDataView {
        TransactionDataView {
            sender: self.sender@,
            tx_type: self.tx_type,
            amount: self.amount,
            data: match self.data {
                Some(d) => Some(d@),
                None => None,
            },
            fee: self.fee,
            nonce: self.nonce,
            timestamp: self.timestamp,
        }
    }
}

impl View for Transaction {
    type V = TransactionView;

    open spec fn view(&self) -> TransactionView {
        TransactionView { data: self.data@, signature: self.signature@, tx_hash: self.tx_hash@ }
    }
}

/// One byte telling the two operation kinds apart in the signed encoding.
pub open spec fn spec_tx_type_tag(t: TransactionType) -> u8 {
    match t {
        TransactionType::Transfer => 1,
        TransactionType::Data => 2,
    }
}

/// Encoding of an optional amount: presence byte, then the value.
pub open spec fn spec_opt_u64_bytes(o: Option<u64>) -> Seq<u8> {
    match o {
        None => seq![0u8],
        Some(n) => seq![1u8] + spec_u64_be(n),
    }
}

/// Encoding of an optional payload: presence byte, then the length-prefixed
/// bytes.
pub open spec fn spec_opt_bytes_bytes(o: Option<Seq<u8>>) -> Seq<u8> {
    match o {
        None => seq![0u8],
        Some(b) => seq![1u8] + spec_len_prefixed(b),
    }
}

/// The deterministic byte string a transaction's content hash is computed
/// over: every field but the signature and the hash itself.
pub open spec fn spec_tx_signing_bytes(d: TransactionDataView) -> Seq<u8> {
    spec_len_prefixed(d.sender) + seq![spec_tx_type_tag(d.tx_type)] + spec_opt_u64_bytes(d.amount)
        + spec_opt_bytes_bytes(d.data) + spec_u64_be(d.fee) + spec_u64_be(d.nonce) + spec_u64_be(
        d.timestamp,
    )
}

/// A transaction's invariant: the content hash is the digest of its fields,
/// and the signature verifies against the sender key and that hash.
pub open spec fn spec_tx_valid(t: TransactionView) -> bool {
    &&& t.tx_hash == sha256_of(spec_tx_signing_bytes(t.data))
    &&& ed25519_verifies(t.data.sender, t.tx_hash, t.signature)
}

/// How many of the first `upto` transactions were sent by `sender`.
pub open spec fn spec_count_sender(ts: Seq<TransactionView>, sender: Seq<u8>, upto: int) -> int
    decreases upto,
{
    if upto <= 0 {
        0
    } else {
        spec_count_sender(ts, sender, upto - 1) + if ts[upto - 1].data.sender == sender {
            1int
        } else {
            0int
        }
    }
}

/// A sender's count over a prefix is at most the prefix length.
pub proof fn lemma_count_sender_bound(ts: Seq<TransactionView>, sender: Seq<u8>, upto: int)
    ensures
        0 <= spec_count_sender(ts, sender, upto),
        spec_count_sender(ts, sender, upto) <= (if upto < 0 {
            0int
        } else {
            upto
        }),
    decreases upto,
{
    if upto > 0 {
        lemma_count_sender_bound(ts, sender, upto - 1);
    }
}

/// The count over the first `upto` elements reads nothing past them.
pub proof fn lemma_count_sender_prefix(
    a: Seq<TransactionView>,
    b: Seq<TransactionView>,
    sender: Seq<u8>,
    upto: int,
)
    requires
        upto <= a.len(),
        upto <= b.len(),
        forall|i: int| 0 <= i < upto ==> a[i] == b[i],
    ensures
        spec_count_sender(a, sender, upto) == spec_count_sender(b, sender, upto),
    decreases upto,
{
    if upto > 0 {
        lemma_count_sender_prefix(a, b, sender, upto - 1);
    }
}

fn tx_type_tag(t: TransactionType) -> (r: u8)
    ensures
        r == spec_tx_type_tag(t),
{
    match t {
        TransactionType::Transfer => 1,
        TransactionType::Data => 2,
    }
}

/// The byte string the content hash is computed over.
pub fn tx_signing_bytes(d: &TransactionData) -> (r: Vec<u8>)
    ensures
        r@ == spec_tx_signing_bytes(d@),
{
    let mut out: Vec<u8> = Vec::new();
    push_len_prefixed(&mut out, &d.sender);
    out.push(tx_type_tag(d.tx_type));
    match d.amount {
        Some(n) => {
            out.push(1);
            push_u64_be(&mut out, n);
        },
        None => {
            out.push(0);
        },
    }
    match &d.data {
        Some(b) => {
            out.push(1);
            push_len_prefixed(&mut out, b);
        },
        None => {
            out.push(0);
        },
    }
    push_u64_be(&mut out, d.fee);
    push_u64_be(&mut out, d.nonce);
    push_u64_be(&mut out, d.timestamp);
    proof {
        assert(out@ =~= spec_tx_signing_bytes(d@));
    }
    out
}

impl TransactionData {
    /// A field-for-field copy.
    pub fn duplicate(&self) -> (r: TransactionData)
        ensures
            r@ == self@,
    {
        let r = TransactionData {
            sender: copy_bytes(&self.sender),
            tx_type: self.tx_type,
            amount: match self.amount {
                Some(n) => Some(n),
                None => None,
            },
            data: match &self.data {
                Some(d) => Some(copy_bytes(d)),
                None => None,
            },
            fee: self.fee,
            nonce: self.nonce,
            timestamp: self.timestamp,
        };
        proof {
            assert(r@ =~= self@);
        }
        r
    }
}

impl Transaction {
    /// A field-for-field copy.
    pub fn duplicate(&self) -> (r: Transaction)
        ensures
            r@ == self@,
    {
        let r = Transaction {
            data: self.data.duplicate(),
            signature: copy_bytes(&self.signature),
            tx_hash: copy_bytes(&self.tx_hash),
        };
        proof {
            assert(r@ =~= self@);
        }
        r
    }

    /// Builds and signs a transaction with the given fields. The sender is
    /// the public key of `sk`; the content hash is the digest of the fields
    /// and the signature is over that hash, so the result always passes
    /// `verify`.
    pub fn create(
        sk: &Vec<u8>,
        tx_type: TransactionType,
        amount: Option<u64>,
        data: Option<Vec<u8>>,
        fee: u64,
        nonce: u64,
        timestamp: u64,
    ) -> (r: Transaction)
        requires
            sk@.len() == 32,
        ensures
            r@.data.sender == ed25519_public_of(sk@),
            r@.data.tx_type == tx_type,
            r@.data.amount == amount,
            r@.data.data == (match data {
                Some(d) => Some::<Seq<u8>>(d@),
                None => None::<Seq<u8>>,
            }),
            r@.data.fee == fee,
            r@.data.nonce == nonce,
            r@.data.timestamp == timestamp,
            r@.tx_hash == sha256_of(spec_tx_signing_bytes(r@.data)),
            r@.signature == ed25519_sig_of(sk@, r@.tx_hash),
            spec_tx_valid(r@),
    {
        let sender = ed25519_public_key(sk);
        let tx_data = TransactionData { sender, tx_type, amount, data, fee, nonce, timestamp };
        let bytes = tx_signing_bytes(&tx_data);
        let tx_hash = sha256(&bytes);
        let signature = ed25519_sign(sk, &tx_hash);
        Transaction { data: tx_data, signature, tx_hash }
    }

    /// Recomputes the content hash and checks the signature: true exactly
    /// when both parts of the transaction invariant hold.
    pub fn verify(&self) -> (r: bool)
        ensures
            r == spec_tx_valid(self@),
    {
        let bytes = tx_signing_bytes(&self.data);
        let recomputed = sha256(&bytes);
        if !crate::bytes_util::bytes_eq(&self.tx_hash, &recomputed) {
            return false;
        }
        ed25519_verify(&self.data.sender, &self.tx_hash, &self.signature)
    }
}

} // verus!
