use vstd::prelude::*;
use vstd::multiset::Multiset;
use crate::ids::{ID_LENGTH, spec_xor_bytes};
use crate::kbucket::{K, KBucket, spec_find_id, lemma_find_id_some};
use crate::node::Node;

verus! {

/// One bucket per possible shared-prefix length of a 160-bit identifier.
pub const N_BUCKETS: usize = 160;

/// Two bytes agree exactly when their exclusive or is zero.
pub proof fn lemma_xor_zero_iff(a: u8, b: u8)
    ensures
        (a ^ b == 0) <==> (a == b),
{
    assert((a ^ b == 0) <==> (a == b)) by (bit_vector);
}

/// Number of leading zero bits of a byte, 8 for zero itself.
pub open spec fn spec_leading_zeros(x: u8) -> int {
    if x >= 128 {
        0
    } else if x >= 64 {
        1
    } else if x >= 32 {
        2
    } else if x >= 16 {
        3
    } else if x >= 8 {
        4
    } else if x >= 4 {
        5
    } else if x >= 2 {
        6
    } else if x >= 1 {
        7
    } else {
        8
    }
}

fn leading_zeros_u8(x: u8) -> (r: usize)
    ensures
        r as int == spec_leading_zeros(x),
{
    if x >= 128 {
        0
    } else if x >= 64 {
        1
    } else if x >= 32 {
        2
    } else if x >= 16 {
        3
    } else if x >= 8 {
        4
    } else if x >= 4 {
        5
    } else if x >= 2 {
        6
    } else if x >= 1 {
        7
    } else {
        8
    }
}

/// Index of the first byte at or after `from` where the two identifiers
/// differ.
pub open spec fn spec_first_diff(a: Seq<u8>, b: Seq<u8>, from: int) -> Option<int>
    decreases a.len() - from,
{
    if from < 0 || from >= a.len() {
        None
    } else if a[from] != b[from] {
        Some(from)
    } else {
        spec_first_diff(a, b, from + 1)
    }
}

/// The distance class of `peer` seen from `local`: the bit position of the
/// first set bit of their exclusive or, or nothing when the identifiers are
/// equal.
pub open spec fn spec_bucket_index(local: Seq<u8>, peer: Seq<u8>) -> Option<int> {
    match spec_first_diff(local, peer, 0) {
        Some(i) => Some(8 * i + spec_leading_zeros(local[i] ^ peer[i])),
        None => None,
    }
}

proof fn lemma_first_diff_some(a: Seq<u8>, b: Seq<u8>, from: int)
    requires
        0 <= from,
        spec_first_diff(a, b, from) is Some,
    ensures
        ({
            let i = spec_first_diff(a, b, from)->Some_0;
            &&& from <= i < a.len()
            &&& a[i] != b[i]
            &&& forall|j: int| from <= j < i ==> a[j] == b[j]
        }),
    decreases a.len() - from,
{
    if from < a.len() && a[from] == b[from] {
        lemma_first_diff_some(a, b, from + 1);
    }
}

proof fn lemma_bucket_index_in_range(local: Seq<u8>, peer: Seq<u8>)
    requires
        local.len() == ID_LENGTH,
        spec_bucket_index(local, peer) is Some,
    ensures
        0 <= spec_bucket_index(local, peer)->Some_0 < N_BUCKETS,
{
    let i = spec_first_diff(local, peer, 0)->Some_0;
    lemma_first_diff_some(local, peer, 0);
    lemma_xor_zero_iff(local[i], peer[i]);
}

/// Byte-wise lexicographic order; the order of XOR distances.
pub open spec fn spec_lex_le(a: Seq<u8>, b: Seq<u8>) -> bool
    decreases a.len(),
{
    if a.len() == 0 || b.len() == 0 {
        true
    } else if a[0] < b[0] {
        true
    } else if a[0] > b[0] {
        false
    } else {
        spec_lex_le(a.drop_first(), b.drop_first())
    }
}

/// `x` is at least as close to `t` as `y` is, in the XOR metric.
pub open spec fn spec_dist_le(t: Seq<u8>, x: Seq<u8>, y: Seq<u8>) -> bool {
    spec_lex_le(spec_xor_bytes(t, x), spec_xor_bytes(t, y))
}

pub proof fn lemma_lex_le_total(a: Seq<u8>, b: Seq<u8>)
    ensures
        spec_lex_le(a, b) || spec_lex_le(b, a),
    decreases a.len(),
{
    if a.len() != 0 && b.len() != 0 && a[0] == b[0] {
        lemma_lex_le_total(a.drop_first(), b.drop_first());
    }
}

pub proof fn lemma_lex_le_trans(a: Seq<u8>, b: Seq<u8>, c: Seq<u8>)
    requires
        a.len() == b.len(),
        b.len() == c.len(),
        spec_lex_le(a, b),
        spec_lex_le(b, c),
    ensures
        spec_lex_le(a, c),
    decreases a.len(),
{
    if a.len() != 0 && a[0] == b[0] && b[0] == c[0] {
        lemma_lex_le_trans(a.drop_first(), b.drop_first(), c.drop_first());
    }
}

proof fn lemma_lex_le_skip(a: Seq<u8>, b: Seq<u8>, i: int)
    requires
        a.len() == b.len(),
        0 <= i <= a.len(),
        forall|j: int| 0 <= j < i ==> a[j] == b[j],
    ensures
        spec_lex_le(a, b) == spec_lex_le(a.skip(i), b.skip(i)),
    decreases i,
{
    if i == 0 {
        assert(a.skip(0) =~= a);
        assert(b.skip(0) =~= b);
    } else {
        assert(a.drop_first() =~= a.skip(1));
        assert(b.drop_first() =~= b.skip(1));
        assert forall|j: int| 0 <= j < i - 1 implies a.skip(1)[j] == b.skip(1)[j] by {
            assert(a.skip(1)[j] == a[j + 1]);
            assert(b.skip(1)[j] == b[j + 1]);
        }
        lemma_lex_le_skip(a.skip(1), b.skip(1), i - 1);
        assert(a.skip(1).skip(i - 1) =~= a.skip(i));
        assert(b.skip(1).skip(i - 1) =~= b.skip(i));
    }
}

/// Decides `spec_dist_le(t@, x@, y@)` without materialising the distances.
pub fn dist_le(t: &Vec<u8>, x: &[u8; ID_LENGTH], y: &[u8; ID_LENGTH]) -> (r: bool)
    requires
        t@.len() == ID_LENGTH,
    ensures
        r == spec_dist_le(t@, x@, y@),
{
    let ghost dx = spec_xor_bytes(t@, x@);
    let ghost dy = spec_xor_bytes(t@, y@);
    let mut i: usize = 0;
    while i < ID_LENGTH
        invariant
            t@.len() == ID_LENGTH,
            i <= ID_LENGTH,
            dx == spec_xor_bytes(t@, x@),
            dy == spec_xor_bytes(t@, y@),
            forall|j: int| 0 <= j < i ==> dx[j] == dy[j],
        decreases ID_LENGTH - i,
    {
        let ax = t[i] ^ x[i];
        let ay = t[i] ^ y[i];
        if ax < ay {
            proof {
                lemma_lex_le_skip(dx, dy, i as int);
                assert(dx.skip(i as int)[0] == ax && dy.skip(i as int)[0] == ay);
            }
            return true;
        }
        if ax > ay {
            proof {
                lemma_lex_le_skip(dx, dy, i as int);
                assert(dx.skip(i as int)[0] == ax && dy.skip(i as int)[0] == ay);
            }
            return false;
        }
        i += 1;
    }
    proof {
        lemma_lex_le_skip(dx, dy, ID_LENGTH as int);
    }
    true
}

/// `s` is ordered by non-decreasing XOR distance to `t`.
pub open spec fn spec_sorted_by_dist(t: Seq<u8>, s: Seq<Node>) -> bool {
    forall|i: int, j: int| 0 <= i < j < s.len() ==> spec_dist_le(t, s[i].id@, s[j].id@)
}

/// All peers of the buckets from position `from` on, in bucket order and
/// stored order.
pub open spec fn spec_all_from(bs: Seq<KBucket>, from: int) -> Seq<Node>
    decreases bs.len() - from,
{
    if from < 0 || from >= bs.len() {
        Seq::empty()
    } else {
        bs[from].spec_nodes() + spec_all_from(bs, from + 1)
    }
}

proof fn lemma_all_from_empty(bs: Seq<KBucket>, from: int)
    requires
        0 <= from,
        forall|b: int| from <= b < bs.len() ==> (#[trigger] bs[b]).spec_nodes().len() == 0,
    ensures
        spec_all_from(bs, from) == Seq::<Node>::empty(),
    decreases bs.len() - from,
{
    if from < bs.len() {
        lemma_all_from_empty(bs, from + 1);
        assert(spec_all_from(bs, from) =~= Seq::<Node>::empty());
    }
}

/// A mutable borrow of one bucket, with the final table value tied to the
/// final bucket value.
fn bucket_mut(v: &mut Vec<KBucket>, i: usize) -> (b: &mut KBucket)
    requires
        i < old(v).len(),
    ensures
        *b == old(v)@[i as int],
        final(v)@ == old(v)@.update(i as int, *final(b)),
{
    &mut v[i]
}

/// What one `update` call does to the table: nothing when `node` is the
/// local identifier; otherwise, in the one bucket of `node`'s distance
/// class, a present peer is refreshed to the most recently seen end, a new
/// peer is appended if a slot is free, and into a full bucket nothing is
/// inserted: the membership stays unchanged and the bucket's least
/// recently seen entry comes back as the eviction candidate.
pub open spec fn spec_update_relation(
    pre: RoutingTable,
    post: RoutingTable,
    node: Node,
    r: Option<Node>,
) -> bool {
    &&& post.local_id() == pre.local_id()
    &&& match spec_bucket_index(pre.local_id(), node.id@) {
        None => r is None && post.spec_buckets() == pre.spec_buckets(),
        Some(b) => {
            let bucket = pre.spec_buckets()[b];
            &&& forall|c: int|
                0 <= c < N_BUCKETS && c != b ==> post.spec_buckets()[c] == pre.spec_buckets()[c]
            &&& match spec_find_id(bucket.spec_nodes(), node.id@) {
                Some(i) => r is None && post.spec_buckets()[b].spec_nodes()
                    == bucket.spec_nodes().remove(i).push(node),
                None => {
                    if bucket.spec_nodes().len() < K {
                        r is None && post.spec_buckets()[b].spec_nodes()
                            == bucket.spec_nodes().push(node)
                    } else {
                        r == Some(bucket.spec_nodes()[0]) && post.spec_buckets()[b].spec_nodes()
                            == bucket.spec_nodes()
                    }
                },
            }
        },
    }
}

/// What one `replace_node` call does to the table: when candidate and
/// replacement share a distance class, that bucket drops its least
/// recently seen entry and appends the replacement (unless already
/// present); in every other case the table is unchanged.
pub open spec fn spec_replace_relation(
    pre: RoutingTable,
    post: RoutingTable,
    lru: Node,
    node: Node,
) -> bool {
    &&& post.local_id() == pre.local_id()
    &&& match spec_bucket_index(pre.local_id(), lru.id@) {
        None => post.spec_buckets() == pre.spec_buckets(),
        Some(b) => {
            if spec_bucket_index(pre.local_id(), node.id@) == Some(b) {
                let bucket = pre.spec_buckets()[b];
                &&& forall|c: int|
                    0 <= c < N_BUCKETS && c != b ==> post.spec_buckets()[c]
                        == pre.spec_buckets()[c]
                &&& ({
                    let s = bucket.spec_nodes();
                    if s.len() == 0 {
                        post.spec_buckets()[b].spec_nodes() == s
                    } else if spec_find_id(s.drop_first(), node.id@) is Some {
                        post.spec_buckets()[b].spec_nodes() == s.drop_first()
                    } else {
                        post.spec_buckets()[b].spec_nodes() == s.drop_first().push(node)
                    }
                })
            } else {
                post.spec_buckets() == pre.spec_buckets()
            }
        },
    }
}

/// What `find_closest_nodes` returns: a prefix of some distance-ordered
/// arrangement of everything the table knows, so no returned peer is
/// farther from the target than any peer left out.
pub open spec fn spec_closest_result(
    table: RoutingTable,
    target: Seq<u8>,
    k: int,
    r: Seq<Node>,
) -> bool {
    &&& r.len() == vstd::math::min(k, table.all_nodes().len() as int)
    &&& spec_sorted_by_dist(target, r)
    &&& exists|s: Seq<Node>|
        {
            &&& s.to_multiset() == table.all_nodes().to_multiset()
            &&& spec_sorted_by_dist(target, s)
            &&& r == s.take(r.len() as int)
        }
}

/// The Kademlia routing table: one bounded bucket per distance class, and
/// the local identifier the classes are measured from.
pub struct RoutingTable {
    pub id: [u8; ID_LENGTH],
    pub buckets: Vec<KBucket>,
}

impl RoutingTable {
    /// Every bucket is well formed and every stored peer sits in exactly the
    /// bucket its distance class names.
    pub open spec fn wf(self) -> bool {
        &&& self.buckets@.len() == N_BUCKETS
        &&& forall|b: int| 0 <= b < N_BUCKETS ==> (#[trigger] self.buckets@[b]).wf()
        &&& forall|b: int, n: int|
            0 <= b < N_BUCKETS && 0 <= n < self.buckets@[b].spec_nodes().len()
                ==> spec_bucket_index(
                    self.id@,
                    (#[trigger] self.buckets@[b].spec_nodes()[n]).id@,
                ) == Some(b)
    }

    pub open spec fn local_id(self) -> Seq<u8> {
        self.id@
    }

    pub open spec fn spec_buckets(self) -> Seq<KBucket> {
        self.buckets@
    }

    pub open spec fn all_nodes(self) -> Seq<Node> {
        spec_all_from(self.buckets@, 0)
    }

    pub fn new(id: [u8; ID_LENGTH]) -> (r: RoutingTable)
        ensures
            r.wf(),
            r.local_id() == id@,
            r.all_nodes() == Seq::<Node>::empty(),
    {
        let mut buckets: Vec<KBucket> = Vec::new();
        let mut i: usize = 0;
        while i < N_BUCKETS
            invariant
                i <= N_BUCKETS,
                buckets@.len() == i,
                forall|b: int|
                    0 <= b < i ==> (#[trigger] buckets@[b]).wf() && buckets@[b].spec_nodes().len()
                        == 0,
            decreases N_BUCKETS - i,
        {
            buckets.push(KBucket::new());
            i += 1;
        }
        let r = RoutingTable { id, buckets };
        proof {
            lemma_all_from_empty(r.buckets@, 0);
        }
        r
    }

    /// The distance class of `id`, or nothing when `id` is the local
    /// identifier.
    fn index(&self, id: &[u8; ID_LENGTH]) -> (r: Option<usize>)
        ensures
            match r {
                Some(b) => spec_bucket_index(self.id@, id@) == Some(b as int) && b < N_BUCKETS,
                None => spec_bucket_index(self.id@, id@) is None,
            },
    {
        let mut i: usize = 0;
        while i < ID_LENGTH
            invariant
                i <= ID_LENGTH,
                spec_first_diff(self.id@, id@, 0) == spec_first_diff(self.id@, id@, i as int),
            decreases ID_LENGTH - i,
        {
            let x = self.id[i] ^ id[i];
            proof {
                lemma_xor_zero_iff(self.id@[i as int], id@[i as int]);
            }
            if x != 0 {
                let lz = leading_zeros_u8(x);
                proof {
                    lemma_bucket_index_in_range(self.id@, id@);
                }
                return Some(i * 8 + lz);
            }
            i += 1;
        }
        None
    }

    /// Records or refreshes `node` in its distance class. Returns no
    /// candidate when the peer was recorded (its bucket had room, or the
    /// peer was already present and is refreshed); when its bucket is full,
    /// leaves the table unchanged and returns the least recently seen entry
    /// of that bucket as the eviction candidate, for the caller to probe.
    /// The local identifier itself is never stored.
    pub fn update(&mut self, node: Node) -> (r: Option<Node>)
        requires
            old(self).wf(),
        ensures
            final(self).wf(),
            spec_update_relation(*old(self), *final(self), node, r),
    {
        let idx = self.index(&node.id);
        match idx {
            None => None,
            Some(b) => {
                let bucket = bucket_mut(&mut self.buckets, b);
                let recorded = bucket.update(node);
                let r = if recorded {
                    None
                } else {
                    bucket.get_lru()
                };
                proof {
                    let s = old(self).buckets@[b as int].spec_nodes();
                    let t = self.buckets@[b as int].spec_nodes();
                    assert forall|n: int|
                        0 <= n < t.len() implies spec_bucket_index(self.id@, t[n].id@) == Some(
                        b as int,
                    ) by {
                        match spec_find_id(s, node.id@) {
                            Some(i) => {
                                lemma_find_id_some(s, node.id@, 0);
                                if n < t.len() - 1 {
                                    assert(t[n] == (if n < i {
                                        s[n]
                                    } else {
                                        s[n + 1]
                                    }));
                                } else {
                                    assert(t[n] == node);
                                }
                            },
                            None => {
                                if s.len() < K {
                                    if n < t.len() - 1 {
                                        assert(t[n] == s[n]);
                                    } else {
                                        assert(t[n] == node);
                                    }
                                } else {
                                    assert(t[n] == s[n]);
                                }
                            },
                        }
                    }
                }
                r
            },
        }
    }

    /// Swaps a previously returned eviction candidate for `node`, after a
    /// failed liveness probe. The swap happens only inside the candidate's
    /// own bucket; when `node` belongs to a different distance class, or
    /// either identifier is the local one, the table is left unchanged.
    pub fn replace_node(&mut self, lru: Node, node: Node)
        requires
            old(self).wf(),
        ensures
            final(self).wf(),
            spec_replace_relation(*old(self), *final(self), lru, node),
    {
        let idx = self.index(&lru.id);
        match idx {
            None => {},
            Some(b) => {
                let node_idx = self.index(&node.id);
                match node_idx {
                    Some(nb) => {
                        if nb == b {
                            let bucket = bucket_mut(&mut self.buckets, b);
                            bucket.replace_lru(node);
                            proof {
                                let s = old(self).buckets@[b as int].spec_nodes();
                                let t = self.buckets@[b as int].spec_nodes();
                                assert forall|n: int|
                                    0 <= n < t.len() implies spec_bucket_index(self.id@, t[n].id@)
                                    == Some(b as int) by {
                                    if s.len() > 0 {
                                        if spec_find_id(s.drop_first(), node.id@) is Some {
                                            assert(t[n] == s[n + 1]);
                                        } else {
                                            if n < t.len() - 1 {
                                                assert(t[n] == s[n + 1]);
                                            } else {
                                                assert(t[n] == node);
                                            }
                                        }
                                    }
                                }
                            }
                        }
                    },
                    None => {},
                }
            },
        }
    }
}

/// Index of a pool entry closest to `target`; every entry is at least as
/// far.
fn min_dist_index(target: &Vec<u8>, pool: &Vec<Node>) -> (m: usize)
    requires
        target@.len() == ID_LENGTH,
        pool@.len() > 0,
    ensures
        m < pool@.len(),
        forall|j: int|
            0 <= j < pool@.len() ==> spec_dist_le(target@, pool@[m as int].id@, pool@[j].id@),
{
    let mut m: usize = 0;
    let mut j: usize = 1;
    proof {
        lemma_lex_le_total(
            spec_xor_bytes(target@, pool@[0].id@),
            spec_xor_bytes(target@, pool@[0].id@),
        );
    }
    while j < pool.len()
        invariant
            target@.len() == ID_LENGTH,
            pool@.len() > 0,
            m < pool@.len(),
            j <= pool@.len(),
            forall|j2: int|
                0 <= j2 < j ==> spec_dist_le(target@, pool@[m as int].id@, pool@[j2].id@),
        decreases pool@.len() - j,
    {
        if !dist_le(target, &pool[m].id, &pool[j].id) {
            proof {
                let t = target@;
                lemma_lex_le_total(
                    spec_xor_bytes(t, pool@[m as int].id@),
                    spec_xor_bytes(t, pool@[j as int].id@),
                );
                assert forall|j2: int|
                    0 <= j2 <= j implies spec_dist_le(t, pool@[j as int].id@, pool@[j2].id@) by {
                    if j2 < j {
                        lemma_lex_le_trans(
                            spec_xor_bytes(t, pool@[j as int].id@),
                            spec_xor_bytes(t, pool@[m as int].id@),
                            spec_xor_bytes(t, pool@[j2].id@),
                        );
                    } else {
                        lemma_lex_le_total(
                            spec_xor_bytes(t, pool@[j as int].id@),
                            spec_xor_bytes(t, pool@[j as int].id@),
                        );
                    }
                }
            }
            m = j;
        }
        j += 1;
    }
    m
}

/// Orders the given peers by non-decreasing XOR distance to `target`,
/// keeping exactly the given multiset of peers.
fn sort_by_distance(target: &Vec<u8>, nodes: Vec<Node>) -> (r: Vec<Node>)
    requires
        target@.len() == ID_LENGTH,
    ensures
        r@.len() == nodes@.len(),
        r@.to_multiset() == nodes@.to_multiset(),
        spec_sorted_by_dist(target@, r@),
{
    broadcast use vstd::seq_lib::group_to_multiset_ensures;

    let mut pool = nodes;
    let mut out: Vec<Node> = Vec::new();
    while pool.len() > 0
        invariant
            target@.len() == ID_LENGTH,
            out@.len() + pool@.len() == nodes@.len(),
            out@.to_multiset().add(pool@.to_multiset()) == nodes@.to_multiset(),
            spec_sorted_by_dist(target@, out@),
            forall|oi: int, pj: int|
                0 <= oi < out@.len() && 0 <= pj < pool@.len() ==> spec_dist_le(
                    target@,
                    out@[oi].id@,
                    pool@[pj].id@,
                ),
        decreases pool@.len(),
    {
        let ghost p0 = pool@;
        let ghost o0 = out@;
        let m = min_dist_index(target, &pool);
        let chosen = pool.remove(m);
        out.push(chosen);
        proof {
            broadcast use vstd::multiset::group_multiset_axioms;
            broadcast use vstd::seq_lib::group_to_multiset_ensures;

            p0.remove_ensures(m as int);
            assert(p0[m as int] == chosen);
            assert(p0.contains(chosen));
            assert(out@ == o0.push(chosen));
            assert(pool@ == p0.remove(m as int));
            assert(o0.push(chosen).to_multiset() =~= o0.to_multiset().insert(chosen));
            assert(p0.remove(m as int).to_multiset() =~= p0.to_multiset().remove(p0[m as int]));
            assert(p0.to_multiset().count(chosen) > 0);
            assert(out@.to_multiset().add(pool@.to_multiset()) =~= o0.to_multiset().add(
                p0.to_multiset(),
            ));
            assert forall|i: int, j2: int|
                0 <= i < j2 < out@.len() implies spec_dist_le(
                target@,
                out@[i].id@,
                out@[j2].id@,
            ) by {
                if j2 < out@.len() - 1 {
                    assert(out@[i] == o0[i] && out@[j2] == o0[j2]);
                } else {
                    assert(out@[j2] == chosen && out@[i] == o0[i]);
                }
            }
            assert forall|oi: int, pj: int|
                0 <= oi < out@.len() && 0 <= pj < pool@.len() implies spec_dist_le(
                target@,
                out@[oi].id@,
                pool@[pj].id@,
            ) by {
                assert(pool@[pj] == (if pj < m { p0[pj] } else { p0[pj + 1] }));
                if oi < out@.len() - 1 {
                    assert(out@[oi] == o0[oi]);
                } else {
                    assert(out@[oi] == chosen);
                }
            }
        }
    }
    proof {
        assert forall|a: Node| pool@.to_multiset().count(a) == 0 by {
            assert(!pool@.contains(a));
        }
        assert(pool@.to_multiset() =~= Multiset::empty());
        assert(out@.to_multiset().add(Multiset::empty()) =~= out@.to_multiset());
    }
    out
}

impl RoutingTable {
    /// The XOR distance between two identifiers.
    pub fn xor_distance(a: &[u8; ID_LENGTH], b: &[u8; ID_LENGTH]) -> (r: Vec<u8>)
        ensures
            r@ == spec_xor_bytes(a@, b@),
    {
        let mut r: Vec<u8> = Vec::new();
        let mut i: usize = 0;
        while i < ID_LENGTH
            invariant
                i <= ID_LENGTH,
                r@ == spec_xor_bytes(a@, b@).take(i as int),
            decreases ID_LENGTH - i,
        {
            r.push(a[i] ^ b[i]);
            proof {
                assert(r@ =~= spec_xor_bytes(a@, b@).take(i + 1));
            }
            i += 1;
        }
        proof {
            assert(r@ =~= spec_xor_bytes(a@, b@));
        }
        r
    }

    /// Every peer the table stores, in bucket order.
    fn collect_all(&self) -> (r: Vec<Node>)
        requires
            self.wf(),
        ensures
            r@ == self.all_nodes(),
    {
        let mut acc: Vec<Node> = Vec::new();
        let mut i: usize = 0;
        proof {
            assert(acc@ + spec_all_from(self.buckets@, 0) =~= spec_all_from(self.buckets@, 0));
        }
        while i < self.buckets.len()
            invariant
                self.wf(),
                i <= self.buckets@.len(),
                acc@ + spec_all_from(self.buckets@, i as int) == self.all_nodes(),
            decreases self.buckets@.len() - i,
        {
            let ghost acc0 = acc@;
            let nodes = self.buckets[i].get_nodes();
            let mut j: usize = 0;
            while j < nodes.len()
                invariant
                    j <= nodes@.len(),
                    nodes@ == self.buckets@[i as int].spec_nodes(),
                    acc@ == acc0 + nodes@.take(j as int),
                decreases nodes@.len() - j,
            {
                acc.push(nodes[j]);
                proof {
                    assert(acc@ =~= acc0 + nodes@.take(j + 1));
                }
                j += 1;
            }
            proof {
                assert(acc@ =~= acc0 + self.buckets@[i as int].spec_nodes());
                assert(spec_all_from(self.buckets@, i as int) == self.buckets@[i as int].spec_nodes()
                    + spec_all_from(self.buckets@, i + 1));
                assert(acc@ + spec_all_from(self.buckets@, i + 1) =~= acc0 + spec_all_from(
                    self.buckets@,
                    i as int,
                ));
            }
            i += 1;
        }
        proof {
            assert(spec_all_from(self.buckets@, self.buckets@.len() as int) =~= Seq::<
                Node,
            >::empty());
            assert(acc@ + Seq::<Node>::empty() =~= acc@);
        }
        acc
    }

    /// Up to `k` known peers, ordered by non-decreasing XOR distance to
    /// `target`: a prefix of some distance-ordered arrangement of everything
    /// the table knows, so no returned peer is farther from `target` than
    /// any peer left out.
    pub fn find_closest_nodes(&self, target: &Vec<u8>, k: usize) -> (r: Vec<Node>)
        requires
            self.wf(),
            target@.len() == ID_LENGTH,
        ensures
            spec_closest_result(*self, target@, k as int, r@),
    {
        let all = self.collect_all();
        let mut sorted = sort_by_distance(target, all);
        let ghost s0 = sorted@;
        if sorted.len() > k {
            sorted.truncate(k);
        }
        proof {
            assert(sorted@ =~= s0.take(sorted@.len() as int));
            assert forall|i: int, j: int|
                0 <= i < j < sorted@.len() implies spec_dist_le(
                target@,
                sorted@[i].id@,
                sorted@[j].id@,
            ) by {
                assert(sorted@[i] == s0[i] && sorted@[j] == s0[j]);
            }
        }
        sorted
    }
}

} // verus!
