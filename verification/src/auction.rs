use vstd::prelude::*;
use crate::crypto::{sha256, sha256_of};
use crate::transaction::{Transaction, TransactionType, TransactionView};
use crate::bytes_util::{bytes_eq, copy_bytes, push_len_prefixed, push_u64_be, spec_len_prefixed,
    spec_u64_be, spec_u64_from_be, lemma_u64_be_round_trip};

verus! {

/// An auction operation, carried inside the payload of a Data transaction.
pub enum AuctionCommand {
    CreateAuction { title: Vec<u8>, description: Vec<u8> },
    StartAuction { id: Vec<u8> },
    Bid { id: Vec<u8>, amount: u64 },
    EndAuction { id: Vec<u8> },
}

#[verifier::ext_equal]
pub enum CommandView {
    CreateAuction { title: Seq<u8>, description: Seq<u8> },
    StartAuction { id: Seq<u8> },
    Bid { id: Seq<u8>, amount: u64 },
    EndAuction { id: Seq<u8> },
}

impl View for AuctionCommand {
    type V = CommandView;

    open spec fn view(&self) -> CommandView {
        match self {
            AuctionCommand::CreateAuction { title, description } => CommandView::CreateAuction {
                title: title@,
                description: description@,
            },
            AuctionCommand::StartAuction { id } => CommandView::StartAuction { id: id@ },
            AuctionCommand::Bid { id, amount } => CommandView::Bid { id: id@, amount: *amount },
            AuctionCommand::EndAuction { id } => CommandView::EndAuction { id: id@ },
        }
    }
}

/// The textual marker every auction payload starts with.
pub open spec fn spec_auction_prefix() -> Seq<u8> {
    seq![65u8, 85u8, 67u8, 84u8, 73u8, 79u8, 78u8, 95u8]
}

/// The marker bytes, spelling the fixed auction tag.
pub fn auction_prefix() -> (r: Vec<u8>)
    ensures
        r@ == spec_auction_prefix(),
{
    let mut r: Vec<u8> = Vec::new();
    r.push(65);
    r.push(85);
    r.push(67);
    r.push(84);
    r.push(73);
    r.push(79);
    r.push(78);
    r.push(95);
    proof {
        assert(r@ =~= spec_auction_prefix());
    }
    r
}

/// The tagged encoding of one command, after the marker.
pub open spec fn spec_encode_command(c: CommandView) -> Seq<u8> {
    match c {
        CommandView::CreateAuction { title, description } => seq![1u8] + spec_len_prefixed(title)
            + spec_len_prefixed(description),
        CommandView::StartAuction { id } => seq![2u8] + spec_len_prefixed(id),
        CommandView::Bid { id, amount } => seq![3u8] + spec_len_prefixed(id) + spec_u64_be(amount),
        CommandView::EndAuction { id } => seq![4u8] + spec_len_prefixed(id),
    }
}

/// A whole auction payload: the marker, then the tagged command.
pub open spec fn spec_encode_payload(c: CommandView) -> Seq<u8> {
    spec_auction_prefix() + spec_encode_command(c)
}

/// Reads eight big-endian bytes at `pos` as an integer.
pub open spec fn spec_read_u64(s: Seq<u8>, pos: int) -> Option<(u64, int)> {
    if 0 <= pos && pos + 8 <= s.len() {
        Some(
            (
                spec_u64_from_be(
                    s[pos],
                    s[pos + 1],
                    s[pos + 2],
                    s[pos + 3],
                    s[pos + 4],
                    s[pos + 5],
                    s[pos + 6],
                    s[pos + 7],
                ),
                pos + 8,
            ),
        )
    } else {
        None
    }
}

/// Reads a length-prefixed byte string at `pos`.
pub open spec fn spec_read_bytes(s: Seq<u8>, pos: int) -> Option<(Seq<u8>, int)> {
    match spec_read_u64(s, pos) {
        None => None,
        Some((n, p)) => {
            if p + n <= s.len() {
                Some((s.subrange(p, p + n), p + n))
            } else {
                None
            }
        },
    }
}

/// Decodes a whole auction payload; anything malformed, missing the
/// marker, or carrying trailing bytes decodes to nothing.
#[verifier::opaque]
pub open spec fn spec_decode_payload(s: Seq<u8>) -> Option<CommandView> {
    if s.len() < 9 || s.subrange(0, 8) != spec_auction_prefix() {
        None
    } else {
        let tag = s[8];
        if tag == 1 {
            match spec_read_bytes(s, 9) {
                None => None,
                Some((title, p1)) => match spec_read_bytes(s, p1) {
                    None => None,
                    Some((description, p2)) => {
                        if p2 == s.len() {
                            Some(CommandView::CreateAuction { title, description })
                        } else {
                            None
                        }
                    },
                },
            }
        } else if tag == 2 {
            match spec_read_bytes(s, 9) {
                None => None,
                Some((id, p1)) => {
                    if p1 == s.len() {
                        Some(CommandView::StartAuction { id })
                    } else {
                        None
                    }
                },
            }
        } else if tag == 3 {
            match spec_read_bytes(s, 9) {
                None => None,
                Some((id, p1)) => match spec_read_u64(s, p1) {
                    None => None,
                    Some((amount, p2)) => {
                        if p2 == s.len() {
                            Some(CommandView::Bid { id, amount })
                        } else {
                            None
                        }
                    },
                },
            }
        } else if tag == 4 {
            match spec_read_bytes(s, 9) {
                None => None,
                Some((id, p1)) => {
                    if p1 == s.len() {
                        Some(CommandView::EndAuction { id })
                    } else {
                        None
                    }
                },
            }
        } else {
            None
        }
    }
}

/// Reading an integer back from where its big-endian bytes were written
/// yields the integer and the position after it.
pub(crate) proof fn lemma_read_u64_of_written(s: Seq<u8>, pos: int, n: u64)
    requires
        0 <= pos,
        pos + 8 <= s.len(),
        s.subrange(pos, pos + 8) =~= spec_u64_be(n),
    ensures
        spec_read_u64(s, pos) == Some((n, pos + 8)),
{
    let w = spec_u64_be(n);
    assert forall|k: int| 0 <= k < 8 implies s[pos + k] == w[k] by {
        assert(s.subrange(pos, pos + 8)[k] == s[pos + k]);
    }
    assert(w[0] == (n >> 56) as u8 && w[1] == (n >> 48) as u8 && w[2] == (n >> 40) as u8 && w[3]
        == (n >> 32) as u8 && w[4] == (n >> 24) as u8 && w[5] == (n >> 16) as u8 && w[6] == (n
        >> 8) as u8 && w[7] == n as u8);
    lemma_u64_be_round_trip(n);
}

/// Reading a length-prefixed string back from where it was written yields
/// the string and the position after it.
pub(crate) proof fn lemma_read_bytes_of_written(s: Seq<u8>, pos: int, b: Seq<u8>)
    requires
        b.len() <= u64::MAX,
        0 <= pos,
        pos + spec_len_prefixed(b).len() <= s.len(),
        s.subrange(pos, pos + spec_len_prefixed(b).len()) =~= spec_len_prefixed(b),
    ensures
        spec_read_bytes(s, pos) == Some((b, pos + 8 + b.len())),
{
    let w = spec_len_prefixed(b);
    let n = b.len() as u64;
    assert(w.len() == 8 + b.len());
    assert forall|k: int| 0 <= k < w.len() implies s[pos + k] == w[k] by {
        assert(s.subrange(pos, pos + w.len() as int)[k] == s[pos + k]);
    }
    assert(w[0] == (n >> 56) as u8 && w[1] == (n >> 48) as u8 && w[2] == (n >> 40) as u8 && w[3]
        == (n >> 32) as u8 && w[4] == (n >> 24) as u8 && w[5] == (n >> 16) as u8 && w[6] == (n
        >> 8) as u8 && w[7] == n as u8);
    lemma_u64_be_round_trip(n);
    assert(spec_u64_from_be(
        s[pos],
        s[pos + 1],
        s[pos + 2],
        s[pos + 3],
        s[pos + 4],
        s[pos + 5],
        s[pos + 6],
        s[pos + 7],
    ) == n);
    assert(spec_read_u64(s, pos) == Some((n, pos + 8)));
    assert forall|k: int|
        0 <= k < b.len() implies s.subrange(pos + 8, pos + 8 + b.len() as int)[k] == b[k] by {
        assert(s[pos + 8 + k] == w[8 + k]);
    }
    assert(s.subrange(pos + 8, pos + 8 + b.len() as int) =~= b);
}

/// Every byte string a command holds is small enough for its length to be
/// written as one machine word; every command built in executable code is.
pub open spec fn spec_command_wf(c: CommandView) -> bool {
    match c {
        CommandView::CreateAuction { title, description } => title.len() <= u64::MAX
            && description.len() <= u64::MAX,
        CommandView::StartAuction { id } => id.len() <= u64::MAX,
        CommandView::Bid { id, amount } => id.len() <= u64::MAX,
        CommandView::EndAuction { id } => id.len() <= u64::MAX,
    }
}

proof fn lemma_decode_create(s: Seq<u8>, title: Seq<u8>, description: Seq<u8>, p1: int)
    requires
        s.len() >= 9,
        s.subrange(0, 8) == spec_auction_prefix(),
        s[8] == 1u8,
        spec_read_bytes(s, 9) == Some((title, p1)),
        spec_read_bytes(s, p1) == Some((description, s.len() as int)),
    ensures
        spec_decode_payload(s) == Some(CommandView::CreateAuction { title, description }),
{
    reveal(spec_decode_payload);
}

proof fn lemma_decode_start(s: Seq<u8>, id: Seq<u8>)
    requires
        s.len() >= 9,
        s.subrange(0, 8) == spec_auction_prefix(),
        s[8] == 2u8,
        spec_read_bytes(s, 9) == Some((id, s.len() as int)),
    ensures
        spec_decode_payload(s) == Some(CommandView::StartAuction { id }),
{
    reveal(spec_decode_payload);
}

proof fn lemma_decode_bid(s: Seq<u8>, id: Seq<u8>, amount: u64, p1: int)
    requires
        s.len() >= 9,
        s.subrange(0, 8) == spec_auction_prefix(),
        s[8] == 3u8,
        spec_read_bytes(s, 9) == Some((id, p1)),
        spec_read_u64(s, p1) == Some((amount, s.len() as int)),
    ensures
        spec_decode_payload(s) == Some(CommandView::Bid { id, amount }),
{
    reveal(spec_decode_payload);
}

proof fn lemma_decode_end(s: Seq<u8>, id: Seq<u8>)
    requires
        s.len() >= 9,
        s.subrange(0, 8) == spec_auction_prefix(),
        s[8] == 4u8,
        spec_read_bytes(s, 9) == Some((id, s.len() as int)),
    ensures
        spec_decode_payload(s) == Some(CommandView::EndAuction { id }),
{
    reveal(spec_decode_payload);
}

/// The marker of an encoded payload reads back as the marker.
proof fn lemma_encoded_prefix(c: CommandView)
    ensures
        spec_encode_payload(c).len() >= 9,
        spec_encode_payload(c).subrange(0, 8) == spec_auction_prefix(),
        spec_encode_payload(c)[8] == spec_encode_command(c)[0],
{
    let s = spec_encode_payload(c);
    assert(s.subrange(0, 8) =~= spec_auction_prefix());
}

proof fn lemma_create_reads(title: Seq<u8>, description: Seq<u8>)
    requires
        title.len() <= u64::MAX,
        description.len() <= u64::MAX,
    ensures
        spec_read_bytes(
            spec_encode_payload(CommandView::CreateAuction { title, description }),
            9,
        ) == Some((title, 17 + title.len() as int)),
{
    let s = spec_encode_payload(CommandView::CreateAuction { title, description });
    let w1 = spec_len_prefixed(title);
    assert forall|k: int|
        0 <= k < w1.len() implies s.subrange(9, 9 + w1.len() as int)[k] == w1[k] by {
        assert(s[9 + k] == w1[k]);
    }
    assert(s.subrange(9, 9 + w1.len() as int) =~= w1);
    lemma_read_bytes_of_written(s, 9, title);
}

proof fn lemma_create_reads_second(title: Seq<u8>, description: Seq<u8>)
    requires
        title.len() <= u64::MAX,
        description.len() <= u64::MAX,
    ensures
        spec_read_bytes(
            spec_encode_payload(CommandView::CreateAuction { title, description }),
            17 + title.len() as int,
        ) == Some(
            (
                description,
                spec_encode_payload(CommandView::CreateAuction { title, description }).len() as int,
            ),
        ),
{
    let s = spec_encode_payload(CommandView::CreateAuction { title, description });
    let w1 = spec_len_prefixed(title);
    let w2 = spec_len_prefixed(description);
    let p1 = 9 + w1.len() as int;
    assert forall|k: int|
        0 <= k < w2.len() implies s.subrange(p1, p1 + w2.len() as int)[k] == w2[k] by {
        assert(s[p1 + k] == w2[k]);
    }
    assert(s.subrange(p1, p1 + w2.len() as int) =~= w2);
    lemma_read_bytes_of_written(s, p1, description);
    assert(p1 + 8 + description.len() == s.len());
}

proof fn lemma_round_trip_create(title: Seq<u8>, description: Seq<u8>)
    requires
        title.len() <= u64::MAX,
        description.len() <= u64::MAX,
    ensures
        spec_decode_payload(
            spec_encode_payload(CommandView::CreateAuction { title, description }),
        ) == Some(CommandView::CreateAuction { title, description }),
{
    let c = CommandView::CreateAuction { title, description };
    let s = spec_encode_payload(c);
    lemma_encoded_prefix(c);
    lemma_create_reads(title, description);
    lemma_create_reads_second(title, description);
    lemma_decode_create(s, title, description, 17 + title.len() as int);
}

proof fn lemma_start_reads(id: Seq<u8>)
    requires
        id.len() <= u64::MAX,
    ensures
        spec_read_bytes(spec_encode_payload(CommandView::StartAuction { id }), 9) == Some(
            (id, spec_encode_payload(CommandView::StartAuction { id }).len() as int),
        ),
{
    let s = spec_encode_payload(CommandView::StartAuction { id });
    let w1 = spec_len_prefixed(id);
    assert forall|k: int|
        0 <= k < w1.len() implies s.subrange(9, 9 + w1.len() as int)[k] == w1[k] by {
        assert(s[9 + k] == w1[k]);
    }
    assert(s.subrange(9, 9 + w1.len() as int) =~= w1);
    lemma_read_bytes_of_written(s, 9, id);
    assert(9 + 8 + id.len() == s.len());
}

proof fn lemma_round_trip_start(id: Seq<u8>)
    requires
        id.len() <= u64::MAX,
    ensures
        spec_decode_payload(spec_encode_payload(CommandView::StartAuction { id })) == Some(
            CommandView::StartAuction { id },
        ),
{
    let c = CommandView::StartAuction { id };
    let s = spec_encode_payload(c);
    lemma_encoded_prefix(c);
    lemma_start_reads(id);
    lemma_decode_start(s, id);
}

proof fn lemma_bid_reads(id: Seq<u8>, amount: u64)
    requires
        id.len() <= u64::MAX,
    ensures
        spec_read_bytes(spec_encode_payload(CommandView::Bid { id, amount }), 9) == Some(
            (id, 17 + id.len() as int),
        ),
        spec_read_u64(spec_encode_payload(CommandView::Bid { id, amount }), 17 + id.len() as int)
            == Some(
            (amount, spec_encode_payload(CommandView::Bid { id, amount }).len() as int),
        ),
{
    let s = spec_encode_payload(CommandView::Bid { id, amount });
    let w1 = spec_len_prefixed(id);
    let p1 = 9 + w1.len() as int;
    assert forall|k: int|
        0 <= k < w1.len() implies s.subrange(9, 9 + w1.len() as int)[k] == w1[k] by {
        assert(s[9 + k] == w1[k]);
    }
    assert(s.subrange(9, 9 + w1.len() as int) =~= w1);
    lemma_read_bytes_of_written(s, 9, id);
    lemma_u64_be_round_trip(amount);
    assert(s[p1] == (amount >> 56) as u8 && s[p1 + 1] == (amount >> 48) as u8 && s[p1 + 2] == (
    amount >> 40) as u8 && s[p1 + 3] == (amount >> 32) as u8 && s[p1 + 4] == (amount >> 24) as u8
        && s[p1 + 5] == (amount >> 16) as u8 && s[p1 + 6] == (amount >> 8) as u8 && s[p1 + 7]
        == amount as u8);
    assert(p1 + 8 == s.len());
}

proof fn lemma_round_trip_bid(id: Seq<u8>, amount: u64)
    requires
        id.len() <= u64::MAX,
    ensures
        spec_decode_payload(spec_encode_payload(CommandView::Bid { id, amount })) == Some(
            CommandView::Bid { id, amount },
        ),
{
    let c = CommandView::Bid { id, amount };
    let s = spec_encode_payload(c);
    lemma_encoded_prefix(c);
    lemma_bid_reads(id, amount);
    lemma_decode_bid(s, id, amount, 17 + id.len() as int);
}

proof fn lemma_end_reads(id: Seq<u8>)
    requires
        id.len() <= u64::MAX,
    ensures
        spec_read_bytes(spec_encode_payload(CommandView::EndAuction { id }), 9) == Some(
            (id, spec_encode_payload(CommandView::EndAuction { id }).len() as int),
        ),
{
    let s = spec_encode_payload(CommandView::EndAuction { id });
    let w1 = spec_len_prefixed(id);
    assert forall|k: int|
        0 <= k < w1.len() implies s.subrange(9, 9 + w1.len() as int)[k] == w1[k] by {
        assert(s[9 + k] == w1[k]);
    }
    assert(s.subrange(9, 9 + w1.len() as int) =~= w1);
    lemma_read_bytes_of_written(s, 9, id);
    assert(9 + 8 + id.len() == s.len());
}

proof fn lemma_round_trip_end(id: Seq<u8>)
    requires
        id.len() <= u64::MAX,
    ensures
        spec_decode_payload(spec_encode_payload(CommandView::EndAuction { id })) == Some(
            CommandView::EndAuction { id },
        ),
{
    let c = CommandView::EndAuction { id };
    let s = spec_encode_payload(c);
    lemma_encoded_prefix(c);
    lemma_end_reads(id);
    lemma_decode_end(s, id);
}

/// Decoding an encoded payload yields the command back: the codec round
/// trips.
pub proof fn lemma_payload_round_trip(c: CommandView)
    requires
        spec_command_wf(c),
    ensures
        spec_decode_payload(spec_encode_payload(c)) == Some(c),
{
    match c {
        CommandView::CreateAuction { title, description } => {
            lemma_round_trip_create(title, description);
        },
        CommandView::StartAuction { id } => {
            lemma_round_trip_start(id);
        },
        CommandView::Bid { id, amount } => {
            lemma_round_trip_bid(id, amount);
        },
        CommandView::EndAuction { id } => {
            lemma_round_trip_end(id);
        },
    }
}

/// Encodes a command as an auction payload.
pub fn encode_payload(c: &AuctionCommand) -> (r: Vec<u8>)
    ensures
        r@ == spec_encode_payload(c@),
{
    let mut out = auction_prefix();
    match c {
        AuctionCommand::CreateAuction { title, description } => {
            out.push(1);
            push_len_prefixed(&mut out, title);
            push_len_prefixed(&mut out, description);
        },
        AuctionCommand::StartAuction { id } => {
            out.push(2);
            push_len_prefixed(&mut out, id);
        },
        AuctionCommand::Bid { id, amount } => {
            out.push(3);
            push_len_prefixed(&mut out, id);
            push_u64_be(&mut out, *amount);
        },
        AuctionCommand::EndAuction { id } => {
            out.push(4);
            push_len_prefixed(&mut out, id);
        },
    }
    proof {
        assert(out@ =~= spec_encode_payload(c@));
    }
    out
}

/// Reads eight big-endian bytes at `pos`.
pub(crate) fn read_u64(s: &Vec<u8>, pos: usize) -> (r: Option<(u64, usize)>)
    ensures
        match r {
            Some(p) => spec_read_u64(s@, pos as int) == Some((p.0, p.1 as int)),
            None => spec_read_u64(s@, pos as int) is None,
        },
{
    proof {
        reveal(spec_u64_from_be);
    }
    if pos >= s.len() || s.len() - pos < 8 {
        return None;
    }
    let n = ((s[pos] as u64) << 56) | ((s[pos + 1] as u64) << 48) | ((s[pos + 2] as u64) << 40) | ((
    s[pos + 3] as u64) << 32) | ((s[pos + 4] as u64) << 24) | ((s[pos + 5] as u64) << 16) | ((s[pos
        + 6] as u64) << 8) | (s[pos + 7] as u64);
    Some((n, pos + 8))
}

/// Reads a length-prefixed byte string at `pos`.
pub(crate) fn read_bytes(s: &Vec<u8>, pos: usize) -> (r: Option<(Vec<u8>, usize)>)
    ensures
        match r {
            Some(p) => spec_read_bytes(s@, pos as int) == Some((p.0@, p.1 as int)),
            None => spec_read_bytes(s@, pos as int) is None,
        },
{
    let (n, p) = match read_u64(s, pos) {
        Some(q) => q,
        None => {
            return None;
        },
    };
    if n > (s.len() - p) as u64 {
        return None;
    }
    let end = p + n as usize;
    let mut out: Vec<u8> = Vec::new();
    let mut i: usize = p;
    while i < end
        invariant
            p <= i <= end <= s@.len(),
            out@ == s@.subrange(p as int, i as int),
        decreases end - i,
    {
        out.push(s[i]);
        proof {
            assert(out@ =~= s@.subrange(p as int, i + 1));
        }
        i += 1;
    }
    Some((out, end))
}

/// Decodes an auction payload; anything malformed decodes to nothing.
pub fn decode_payload(s: &Vec<u8>) -> (r: Option<AuctionCommand>)
    ensures
        match r {
            Some(c) => spec_decode_payload(s@) == Some(c@),
            None => spec_decode_payload(s@) is None,
        },
{
    proof {
        reveal(spec_decode_payload);
    }
    if s.len() < 9 {
        return None;
    }
    let prefix = auction_prefix();
    let mut i: usize = 0;
    while i < 8
        invariant
            i <= 8,
            s@.len() >= 9,
            prefix@ == spec_auction_prefix(),
            forall|j: int| 0 <= j < i ==> s@[j] == spec_auction_prefix()[j],
        decreases 8 - i,
    {
        if s[i] != prefix[i] {
            proof {
                reveal(spec_decode_payload);
                assert(s@.subrange(0, 8)[i as int] != spec_auction_prefix()[i as int]);
            }
            return None;
        }
        i += 1;
    }
    proof {
        assert(s@.subrange(0, 8) =~= spec_auction_prefix());
    }
    let tag = s[8];
    if tag == 1 {
        let (title, p1) = match read_bytes(s, 9) {
            Some(q) => q,
            None => {
                return None;
            },
        };
        let (description, p2) = match read_bytes(s, p1) {
            Some(q) => q,
            None => {
                return None;
            },
        };
        if p2 == s.len() {
            Some(AuctionCommand::CreateAuction { title, description })
        } else {
            None
        }
    } else if tag == 2 {
        let (id, p1) = match read_bytes(s, 9) {
            Some(q) => q,
            None => {
                return None;
            },
        };
        if p1 == s.len() {
            Some(AuctionCommand::StartAuction { id })
        } else {
            None
        }
    } else if tag == 3 {
        let (id, p1) = match read_bytes(s, 9) {
            Some(q) => q,
            None => {
                return None;
            },
        };
        let (amount, p2) = match read_u64(s, p1) {
            Some(q) => q,
            None => {
                return None;
            },
        };
        if p2 == s.len() {
            Some(AuctionCommand::Bid { id, amount })
        } else {
            None
        }
    } else if tag == 4 {
        let (id, p1) = match read_bytes(s, 9) {
            Some(q) => q,
            None => {
                return None;
            },
        };
        if p1 == s.len() {
            Some(AuctionCommand::EndAuction { id })
        } else {
            None
        }
    } else {
        None
    }
}


/// The lifecycle phase of an auction.
#[derive(Clone, Copy, PartialEq, Eq, Structural, Debug)]
pub enum AuctionStatus {
    Pending,
    Active,
    Ended,
}

/// The state of one auction, derived purely by replaying the chain.
pub struct Auction {
    pub auction_id: Vec<u8>,
    pub title: Vec<u8>,
    pub description: Vec<u8>,
    pub owner: Vec<u8>,
    pub status: AuctionStatus,
    pub start_time: Option<u64>,
    pub end_time: Option<u64>,
    pub highest_bid: Option<(u64, Vec<u8>)>,
}

#[verifier::ext_equal]
pub struct AuctionView {
    pub auction_id: Seq<u8>,
    pub title: Seq<u8>,
    pub description: Seq<u8>,
    pub owner: Seq<u8>,
    pub status: AuctionStatus,
    pub start_time: Option<u64>,
    pub end_time: Option<u64>,
    pub highest_bid: Option<(u64, Seq<u8>)>,
}

impl View for Auction {
    type V = AuctionView;

    open spec fn view(&self) -> AuctionView {
        AuctionView {
            auction_id: self.auction_id@,
            title: self.title@,
            description: self.description@,
            owner: self.owner@,
            status: self.status,
            start_time: self.start_time,
            end_time: self.end_time,
            highest_bid: match self.highest_bid {
                Some((amount, bidder)) => Some((amount, bidder@)),
                None => None,
            },
        }
    }
}

impl Auction {
    /// A field-for-field copy.
    pub fn duplicate(&self) -> (r: Auction)
        ensures
            r@ == self@,
    {
        let r = Auction {
            auction_id: copy_bytes(&self.auction_id),
            title: copy_bytes(&self.title),
            description: copy_bytes(&self.description),
            owner: copy_bytes(&self.owner),
            status: self.status,
            start_time: match self.start_time {
                Some(t) => Some(t),
                None => None,
            },
            end_time: match self.end_time {
                Some(t) => Some(t),
                None => None,
            },
            highest_bid: match &self.highest_bid {
                Some((amount, bidder)) => Some((*amount, copy_bytes(bidder))),
                None => None,
            },
        };
        proof {
            assert(r@ =~= self@);
        }
        r
    }
}

/// The identifier of an auction: a digest of its creator, title,
/// description, and the nonce of the creating transaction.
pub open spec fn spec_auction_id(
    owner: Seq<u8>,
    title: Seq<u8>,
    description: Seq<u8>,
    nonce: u64,
) -> Seq<u8> {
    sha256_of(
        spec_len_prefixed(owner) + spec_len_prefixed(title) + spec_len_prefixed(description)
            + spec_u64_be(nonce),
    )
}

/// Computes the deterministic identifier of an auction.
pub fn generate_auction_id(
    owner: &Vec<u8>,
    title: &Vec<u8>,
    description: &Vec<u8>,
    nonce: u64,
) -> (r: Vec<u8>)
    ensures
        r@ == spec_auction_id(owner@, title@, description@, nonce),
        r@.len() == 32,
{
    let mut msg: Vec<u8> = Vec::new();
    push_len_prefixed(&mut msg, owner);
    push_len_prefixed(&mut msg, title);
    push_len_prefixed(&mut msg, description);
    push_u64_be(&mut msg, nonce);
    proof {
        assert(msg@ =~= spec_len_prefixed(owner@) + spec_len_prefixed(title@) + spec_len_prefixed(
            description@,
        ) + spec_u64_be(nonce));
    }
    sha256(&msg)
}

/// Index of the first auction at or after `from` with identifier `id`.
pub open spec fn spec_find_auction(s: Seq<AuctionView>, id: Seq<u8>, from: int) -> Option<int>
    decreases s.len() - from,
{
    if from < 0 || from >= s.len() {
        None
    } else if s[from].auction_id == id {
        Some(from)
    } else {
        spec_find_auction(s, id, from + 1)
    }
}

/// A freshly created auction: pending, owned by its creator, without bids.
pub open spec fn spec_new_auction(
    id: Seq<u8>,
    title: Seq<u8>,
    description: Seq<u8>,
    owner: Seq<u8>,
) -> AuctionView {
    AuctionView {
        auction_id: id,
        title: title,
        description: description,
        owner: owner,
        status: AuctionStatus::Pending,
        start_time: None,
        end_time: None,
        highest_bid: None,
    }
}

/// One transition of the replay fold. Creation of a known identifier,
/// operations on unknown identifiers, starts and ends outside the
/// expected phase, and bids that are not strictly higher than the current
/// highest are all ignored.
pub open spec fn spec_apply_command(
    s: Seq<AuctionView>,
    cmd: CommandView,
    sender: Seq<u8>,
    timestamp: u64,
    nonce: u64,
) -> Seq<AuctionView> {
    match cmd {
        CommandView::CreateAuction { title, description } => {
            let id = spec_auction_id(sender, title, description, nonce);
            if spec_find_auction(s, id, 0) is Some {
                s
            } else {
                s.push(spec_new_auction(id, title, description, sender))
            }
        },
        CommandView::StartAuction { id } => match spec_find_auction(s, id, 0) {
            Some(i) => {
                if s[i].status == AuctionStatus::Pending {
                    s.update(
                        i,
                        AuctionView {
                            status: AuctionStatus::Active,
                            start_time: Some(timestamp),
                            ..s[i]
                        },
                    )
                } else {
                    s
                }
            },
            None => s,
        },
        CommandView::Bid { id, amount } => match spec_find_auction(s, id, 0) {
            Some(i) => {
                if s[i].status == AuctionStatus::Active && (match s[i].highest_bid {
                    Some((h, _)) => amount > h,
                    None => true,
                }) {
                    s.update(i, AuctionView { highest_bid: Some((amount, sender)), ..s[i] })
                } else {
                    s
                }
            },
            None => s,
        },
        CommandView::EndAuction { id } => match spec_find_auction(s, id, 0) {
            Some(i) => {
                if s[i].status == AuctionStatus::Active {
                    s.update(
                        i,
                        AuctionView {
                            status: AuctionStatus::Ended,
                            end_time: Some(timestamp),
                            ..s[i]
                        },
                    )
                } else {
                    s
                }
            },
            None => s,
        },
    }
}

/// The effect of one confirmed transaction on the auction table: only a
/// Data transaction whose payload decodes as an auction command changes
/// anything; everything else, including malformed payloads, is a no-op,
/// so the fold is total over arbitrary chain contents.
pub open spec fn spec_apply_tx(s: Seq<AuctionView>, t: TransactionView) -> Seq<AuctionView> {
    if t.data.tx_type == TransactionType::Data {
        match t.data.data {
            Some(d) => match spec_decode_payload(d) {
                Some(cmd) => spec_apply_command(s, cmd, t.data.sender, t.data.timestamp,
                    t.data.nonce),
                None => s,
            },
            None => s,
        }
    } else {
        s
    }
}

/// The auction table after folding the first `upto` transactions, in
/// order.
pub open spec fn spec_replay(ts: Seq<TransactionView>, upto: int) -> Seq<AuctionView>
    decreases upto,
{
    if upto <= 0 {
        Seq::empty()
    } else {
        spec_apply_tx(spec_replay(ts, upto - 1), ts[upto - 1])
    }
}

/// The replay fold is a pure function of the transaction log: two replays
/// of the same log yield the same auction table.
pub proof fn lemma_replay_deterministic(
    ts: Seq<TransactionView>,
    r1: Seq<AuctionView>,
    r2: Seq<AuctionView>,
)
    requires
        r1 == spec_replay(ts, ts.len() as int),
        r2 == spec_replay(ts, ts.len() as int),
    ensures
        r1 == r2,
{
}

/// A bid that does not exceed the current highest bid is ignored: the
/// auction table, and in particular the highest bid, is left unchanged.
pub proof fn lemma_lower_bid_ignored(
    s: Seq<AuctionView>,
    id: Seq<u8>,
    amount: u64,
    sender: Seq<u8>,
    timestamp: u64,
    nonce: u64,
)
    requires
        spec_find_auction(s, id, 0) is Some,
        ({
            let i = spec_find_auction(s, id, 0)->Some_0;
            match s[i].highest_bid {
                Some(hb) => amount <= hb.0,
                None => false,
            }
        }),
    ensures
        spec_apply_command(s, CommandView::Bid { id, amount }, sender, timestamp, nonce) == s,
{
}

/// Index of the auction with identifier `id`, if any.
fn find_auction_index(auctions: &Vec<Auction>, id: &Vec<u8>) -> (r: Option<usize>)
    ensures
        ({
            let s = auctions@.map_values(|a: Auction| a@);
            match r {
                Some(i) => i < auctions@.len() && spec_find_auction(s, id@, 0) == Some(i as int),
                None => spec_find_auction(s, id@, 0) is None,
            }
        }),
{
    let ghost s = auctions@.map_values(|a: Auction| a@);
    let mut i: usize = 0;
    while i < auctions.len()
        invariant
            s == auctions@.map_values(|a: Auction| a@),
            i <= auctions@.len(),
            spec_find_auction(s, id@, 0) == spec_find_auction(s, id@, i as int),
        decreases auctions@.len() - i,
    {
        if bytes_eq(&auctions[i].auction_id, id) {
            proof {
                assert(s[i as int].auction_id == id@);
            }
            return Some(i);
        }
        proof {
            assert(s[i as int].auction_id != id@);
        }
        i += 1;
    }
    None
}

/// Applies one confirmed transaction to the auction table, exactly as the
/// replay fold says.
fn apply_tx(auctions: &mut Vec<Auction>, tx: &Transaction)
    ensures
        final(auctions)@.map_values(|a: Auction| a@) == spec_apply_tx(
            old(auctions)@.map_values(|a: Auction| a@),
            tx@,
        ),
{
    let ghost s = auctions@.map_values(|a: Auction| a@);
    if !matches!(tx.data.tx_type, TransactionType::Data) {
        return ;
    }
    let payload = match &tx.data.data {
        Some(d) => d,
        None => {
            return ;
        },
    };
    let cmd = match decode_payload(payload) {
        Some(c) => c,
        None => {
            return ;
        },
    };
    match cmd {
        AuctionCommand::CreateAuction { title, description } => {
            let id = generate_auction_id(&tx.data.sender, &title, &description, tx.data.nonce);
            let found = find_auction_index(auctions, &id);
            match found {
                Some(_) => {},
                None => {
                    let a = Auction {
                        auction_id: id,
                        title,
                        description,
                        owner: copy_bytes(&tx.data.sender),
                        status: AuctionStatus::Pending,
                        start_time: None,
                        end_time: None,
                        highest_bid: None,
                    };
                    auctions.push(a);
                    proof {
                        assert(auctions@.map_values(|a: Auction| a@) =~= spec_apply_tx(s, tx@));
                    }
                },
            }
        },
        AuctionCommand::StartAuction { id } => {
            let found = find_auction_index(auctions, &id);
            match found {
                Some(i) => {
                    if matches!(auctions[i].status, AuctionStatus::Pending) {
                        let mut updated = auctions[i].duplicate();
                        updated.status = AuctionStatus::Active;
                        updated.start_time = Some(tx.data.timestamp);
                        auctions.set(i, updated);
                        proof {
                            assert(auctions@.map_values(|a: Auction| a@) =~= spec_apply_tx(
                                s,
                                tx@,
                            ));
                        }
                    }
                },
                None => {},
            }
        },
        AuctionCommand::Bid { id, amount } => {
            let found = find_auction_index(auctions, &id);
            match found {
                Some(i) => {
                    if matches!(auctions[i].status, AuctionStatus::Active) {
                        let higher = match &auctions[i].highest_bid {
                            Some((h, _)) => amount > *h,
                            None => true,
                        };
                        if higher {
                            let mut updated = auctions[i].duplicate();
                            updated.highest_bid = Some((amount, copy_bytes(&tx.data.sender)));
                            auctions.set(i, updated);
                            proof {
                                assert(auctions@.map_values(|a: Auction| a@) =~= spec_apply_tx(
                                    s,
                                    tx@,
                                ));
                            }
                        }
                    }
                },
                None => {},
            }
        },
        AuctionCommand::EndAuction { id } => {
            let found = find_auction_index(auctions, &id);
            match found {
                Some(i) => {
                    if matches!(auctions[i].status, AuctionStatus::Active) {
                        let mut updated = auctions[i].duplicate();
                        updated.status = AuctionStatus::Ended;
                        updated.end_time = Some(tx.data.timestamp);
                        auctions.set(i, updated);
                        proof {
                            assert(auctions@.map_values(|a: Auction| a@) =~= spec_apply_tx(
                                s,
                                tx@,
                            ));
                        }
                    }
                },
                None => {},
            }
        },
    }
}

/// Replays an ordered transaction log into the auction table it derives:
/// a pure fold, so two replays of the same log give identical tables.
pub fn collect_auctions(txs: &Vec<Transaction>) -> (r: Vec<Auction>)
    ensures
        r@.map_values(|a: Auction| a@) == spec_replay(
            txs@.map_values(|t: Transaction| t@),
            txs@.len() as int,
        ),
{
    let ghost ts = txs@.map_values(|t: Transaction| t@);
    let mut auctions: Vec<Auction> = Vec::new();
    proof {
        assert(auctions@.map_values(|a: Auction| a@) =~= spec_replay(ts, 0));
    }
    let mut p: usize = 0;
    while p < txs.len()
        invariant
            ts == txs@.map_values(|t: Transaction| t@),
            p <= txs@.len(),
            auctions@.map_values(|a: Auction| a@) == spec_replay(ts, p as int),
        decreases txs@.len() - p,
    {
        apply_tx(&mut auctions, &txs[p]);
        proof {
            assert(txs@[p as int]@ == ts[p as int]);
        }
        p += 1;
    }
    auctions
}

/// Whether a confirmed transaction carries an auction payload: a Data
/// transaction whose payload starts with the auction marker.
pub open spec fn spec_is_auction_tx(t: TransactionView) -> bool {
    &&& t.data.tx_type == TransactionType::Data
    &&& match t.data.data {
        Some(d) => d.len() >= 8 && d.subrange(0, 8) == spec_auction_prefix(),
        None => false,
    }
}

/// The subsequence of the first `upto` transactions that carry auction
/// payloads, in order.
pub open spec fn spec_filter_auction_txs(ts: Seq<TransactionView>, upto: int) -> Seq<
    TransactionView,
>
    decreases upto,
{
    if upto <= 0 {
        Seq::empty()
    } else {
        spec_filter_auction_txs(ts, upto - 1) + if spec_is_auction_tx(ts[upto - 1]) {
            seq![ts[upto - 1]]
        } else {
            Seq::empty()
        }
    }
}

/// Whether this transaction carries an auction payload.
fn is_auction_tx(tx: &Transaction) -> (r: bool)
    ensures
        r == spec_is_auction_tx(tx@),
{
    if !matches!(tx.data.tx_type, TransactionType::Data) {
        return false;
    }
    let payload = match &tx.data.data {
        Some(d) => d,
        None => {
            return false;
        },
    };
    if payload.len() < 8 {
        return false;
    }
    let prefix = auction_prefix();
    let mut i: usize = 0;
    while i < 8
        invariant
            i <= 8,
            tx@.data.tx_type == TransactionType::Data,
            tx@.data.data == Some(payload@),
            payload@.len() >= 8,
            prefix@ == spec_auction_prefix(),
            forall|j: int| 0 <= j < i ==> payload@[j] == spec_auction_prefix()[j],
        decreases 8 - i,
    {
        if payload[i] != prefix[i] {
            proof {
                assert(payload@.subrange(0, 8)[i as int] != spec_auction_prefix()[i as int]);
            }
            return false;
        }
        i += 1;
    }
    proof {
        assert(payload@.subrange(0, 8) =~= spec_auction_prefix());
    }
    true
}

/// A copy of the confirmed transactions that carry auction payloads, in
/// chain order.
pub fn find_auction_transactions(chain: &crate::blockchain::Blockchain) -> (r: Vec<Transaction>)
    ensures
        r@.map_values(|t: Transaction| t@) == spec_filter_auction_txs(
            crate::blockchain::spec_chain_txs(chain.spec_chain()),
            crate::blockchain::spec_chain_txs(chain.spec_chain()).len() as int,
        ),
{
    let ghost ts = crate::blockchain::spec_chain_txs(chain.spec_chain());
    let txs = chain.collect_txs();
    let mut out: Vec<Transaction> = Vec::new();
    let mut p: usize = 0;
    while p < txs.len()
        invariant
            ts == crate::blockchain::spec_chain_txs(chain.spec_chain()),
            txs@.map_values(|t: Transaction| t@) == ts,
            p <= txs@.len(),
            out@.map_values(|t: Transaction| t@) == spec_filter_auction_txs(ts, p as int),
        decreases txs@.len() - p,
    {
        proof {
            assert(txs@[p as int]@ == ts[p as int]);
        }
        if is_auction_tx(&txs[p]) {
            let d = txs[p].duplicate();
            out.push(d);
            proof {
                assert(out@.map_values(|t: Transaction| t@) =~= spec_filter_auction_txs(
                    ts,
                    p + 1,
                ));
            }
        } else {
            proof {
                assert(out@.map_values(|t: Transaction| t@) =~= spec_filter_auction_txs(
                    ts,
                    p + 1,
                ));
            }
        }
        p += 1;
    }
    out
}

/// The flat fee every transaction of this library carries.
pub const DEFAULT_FEE: u64 = 1;

/// Builds and signs a transaction creating an auction.
pub fn tx_create_auction(
    sk: &Vec<u8>,
    title: Vec<u8>,
    description: Vec<u8>,
    nonce: u64,
    timestamp: u64,
) -> (r: Transaction)
    requires
        sk@.len() == 32,
    ensures
        r@.data.sender == crate::crypto::ed25519_public_of(sk@),
        r@.data.tx_type == TransactionType::Data,
        r@.data.data == Some(
            spec_encode_payload(
                CommandView::CreateAuction { title: title@, description: description@ },
            ),
        ),
        r@.data.amount is None,
        r@.data.fee == DEFAULT_FEE,
        r@.data.nonce == nonce,
        r@.data.timestamp == timestamp,
        crate::transaction::spec_tx_valid(r@),
{
    let cmd = AuctionCommand::CreateAuction { title, description };
    let payload = encode_payload(&cmd);
    Transaction::create(
        sk,
        TransactionType::Data,
        None,
        Some(payload),
        DEFAULT_FEE,
        nonce,
        timestamp,
    )
}

/// Builds and signs a transaction starting an auction.
pub fn tx_start_auction(sk: &Vec<u8>, id: Vec<u8>, nonce: u64, timestamp: u64) -> (r: Transaction)
    requires
        sk@.len() == 32,
    ensures
        r@.data.sender == crate::crypto::ed25519_public_of(sk@),
        r@.data.tx_type == TransactionType::Data,
        r@.data.data == Some(spec_encode_payload(CommandView::StartAuction { id: id@ })),
        r@.data.amount is None,
        r@.data.fee == DEFAULT_FEE,
        r@.data.nonce == nonce,
        r@.data.timestamp == timestamp,
        crate::transaction::spec_tx_valid(r@),
{
    let cmd = AuctionCommand::StartAuction { id };
    let payload = encode_payload(&cmd);
    Transaction::create(
        sk,
        TransactionType::Data,
        None,
        Some(payload),
        DEFAULT_FEE,
        nonce,
        timestamp,
    )
}

/// Builds and signs a transaction bidding on an auction.
pub fn tx_bid(sk: &Vec<u8>, id: Vec<u8>, amount: u64, nonce: u64, timestamp: u64) -> (r:
    Transaction)
    requires
        sk@.len() == 32,
    ensures
        r@.data.sender == crate::crypto::ed25519_public_of(sk@),
        r@.data.tx_type == TransactionType::Data,
        r@.data.data == Some(spec_encode_payload(CommandView::Bid { id: id@, amount })),
        r@.data.amount is None,
        r@.data.fee == DEFAULT_FEE,
        r@.data.nonce == nonce,
        r@.data.timestamp == timestamp,
        crate::transaction::spec_tx_valid(r@),
{
    let cmd = AuctionCommand::Bid { id, amount };
    let payload = encode_payload(&cmd);
    Transaction::create(
        sk,
        TransactionType::Data,
        None,
        Some(payload),
        DEFAULT_FEE,
        nonce,
        timestamp,
    )
}

/// Builds and signs a transaction ending an auction.
pub fn tx_end_auction(sk: &Vec<u8>, id: Vec<u8>, nonce: u64, timestamp: u64) -> (r: Transaction)
    requires
        sk@.len() == 32,
    ensures
        r@.data.sender == crate::crypto::ed25519_public_of(sk@),
        r@.data.tx_type == TransactionType::Data,
        r@.data.data == Some(spec_encode_payload(CommandView::EndAuction { id: id@ })),
        r@.data.amount is None,
        r@.data.fee == DEFAULT_FEE,
        r@.data.nonce == nonce,
        r@.data.timestamp == timestamp,
        crate::transaction::spec_tx_valid(r@),
{
    let cmd = AuctionCommand::EndAuction { id };
    let payload = encode_payload(&cmd);
    Transaction::create(
        sk,
        TransactionType::Data,
        None,
        Some(payload),
        DEFAULT_FEE,
        nonce,
        timestamp,
    )
}

} // verus!
