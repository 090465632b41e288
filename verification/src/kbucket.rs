use vstd::prelude::*;
use crate::ids::ID_LENGTH;
use crate::node::{Node, id_eq};

verus! {

/// Capacity of one distance class: at most this many peers are remembered.
pub const K: usize = 20;

/// Index of the first entry at or after `from` whose identifier is `id`.
pub open spec fn spec_find_id_from(s: Seq<Node>, id: Seq<u8>, from: int) -> Option<int>
    decreases s.len() - from,
{
    if from < 0 || from >= s.len() {
        None
    } else if s[from].id@ == id {
        Some(from)
    } else {
        spec_find_id_from(s, id, from + 1)
    }
}

/// Index of the first entry whose identifier is `id`.
pub open spec fn spec_find_id(s: Seq<Node>, id: Seq<u8>) -> Option<int> {
    spec_find_id_from(s, id, 0)
}

pub proof fn lemma_find_id_none(s: Seq<Node>, id: Seq<u8>, from: int)
    requires
        0 <= from,
        spec_find_id_from(s, id, from) is None,
    ensures
        forall|j: int| from <= j < s.len() ==> s[j].id@ != id,
    decreases s.len() - from,
{
    if from < s.len() {
        lemma_find_id_none(s, id, from + 1);
    }
}

pub proof fn lemma_find_id_some(s: Seq<Node>, id: Seq<u8>, from: int)
    requires
        0 <= from,
        spec_find_id_from(s, id, from) is Some,
    ensures
        ({
            let i = spec_find_id_from(s, id, from)->Some_0;
            &&& from <= i < s.len()
            &&& s[i].id@ == id
            &&& forall|j: int| from <= j < i ==> s[j].id@ != id
        }),
    decreases s.len() - from,
{
    if from < s.len() && s[from].id@ != id {
        lemma_find_id_some(s, id, from + 1);
    }
}

/// A well-formed bucket never holds more than `K` entries.
pub proof fn lemma_bucket_bounded(b: KBucket)
    requires
        b.wf(),
    ensures
        b.spec_nodes().len() <= K,
{
}

/// One distance class of the routing table: an ordered list of at most `K`
/// peers, least recently seen first, with pairwise distinct identifiers.
pub struct KBucket {
    pub nodes: Vec<Node>,
}

impl KBucket {
    /// The bucket's bound and the uniqueness of its entries.
    pub open spec fn wf(self) -> bool {
        &&& self.nodes@.len() <= K
        &&& forall|i: int, j: int|
            0 <= i < j < self.nodes@.len() ==> self.nodes@[i].id@ != self.nodes@[j].id@
    }

    pub open spec fn spec_nodes(self) -> Seq<Node> {
        self.nodes@
    }

    /// Whether a peer with identifier `id` is stored here.
    pub open spec fn contains_id(self, id: Seq<u8>) -> bool {
        spec_find_id(self.nodes@, id) is Some
    }

    pub fn new() -> (r: KBucket)
        ensures
            r.wf(),
            r.spec_nodes() == Seq::<Node>::empty(),
    {
        let r = KBucket { nodes: Vec::new() };
        proof {
            assert(r.nodes@ =~= Seq::<Node>::empty());
        }
        r
    }

    /// The stored peers, least recently seen first.
    pub fn get_nodes(&self) -> (r: &Vec<Node>)
        ensures
            r@ == self.spec_nodes(),
    {
        &self.nodes
    }

    /// Index of the entry with identifier `id`, if any.
    fn find_index(&self, id: &[u8; ID_LENGTH]) -> (r: Option<usize>)
        ensures
            match r {
                Some(i) => spec_find_id(self.nodes@, id@) == Some(i as int),
                None => spec_find_id(self.nodes@, id@) is None,
            },
    {
        let mut i: usize = 0;
        while i < self.nodes.len()
            invariant
                i <= self.nodes@.len(),
                spec_find_id(self.nodes@, id@) == spec_find_id_from(self.nodes@, id@, i as int),
            decreases self.nodes@.len() - i,
        {
            if id_eq(&self.nodes[i].id, id) {
                return Some(i);
            }
            i += 1;
        }
        None
    }

    /// Records or refreshes `node`. A peer already present is moved to the
    /// most recently seen end with its fresh address; a new peer is appended
    /// if a slot is free. Into a full bucket nothing is inserted and the
    /// membership is left unchanged.
    pub fn update(&mut self, node: Node) -> (r: bool)
        requires
            old(self).wf(),
        ensures
            final(self).wf(),
            match spec_find_id(old(self).spec_nodes(), node.id@) {
                Some(i) => r && final(self).spec_nodes() == old(self).spec_nodes().remove(i).push(
                    node,
                ),
                None => {
                    if old(self).spec_nodes().len() < K {
                        r && final(self).spec_nodes() == old(self).spec_nodes().push(node)
                    } else {
                        !r && final(self).spec_nodes() == old(self).spec_nodes()
                    }
                },
            },
    {
        let found = self.find_index(&node.id);
        match found {
            Some(i) => {
                proof {
                    lemma_find_id_some(self.nodes@, node.id@, 0);
                }
                self.nodes.remove(i);
                self.nodes.push(node);
                proof {
                    let s = old(self).nodes@;
                    let t = s.remove(i as int).push(node);
                    assert forall|p: int, q: int|
                        0 <= p < q < t.len() implies t[p].id@ != t[q].id@ by {
                        if q < t.len() - 1 {
                            assert(t[p] == (if p < i { s[p] } else { s[p + 1] }));
                            assert(t[q] == (if q < i { s[q] } else { s[q + 1] }));
                        } else {
                            assert(t[q] == node);
                            assert(t[p] == (if p < i { s[p] } else { s[p + 1] }));
                        }
                    }
                }
                true
            },
            None => {
                proof {
                    lemma_find_id_none(self.nodes@, node.id@, 0);
                }
                if self.nodes.len() < K {
                    self.nodes.push(node);
                    proof {
                        let s = old(self).nodes@;
                        let t = s.push(node);
                        assert forall|p: int, q: int|
                            0 <= p < q < t.len() implies t[p].id@ != t[q].id@ by {
                            if q < t.len() - 1 {
                                assert(t[p] == s[p] && t[q] == s[q]);
                            } else {
                                assert(t[q] == node && t[p] == s[p]);
                            }
                        }
                    }
                    true
                } else {
                    false
                }
            },
        }
    }

    /// The least recently seen entry, the eviction candidate of a full
    /// bucket.
    pub fn get_lru(&self) -> (r: Option<Node>)
        ensures
            match r {
                Some(n) => self.spec_nodes().len() > 0 && n == self.spec_nodes()[0],
                None => self.spec_nodes().len() == 0,
            },
    {
        if self.nodes.len() > 0 {
            Some(self.nodes[0])
        } else {
            None
        }
    }

    /// Drops the least recently seen entry and appends `node` in its place.
    /// An empty bucket is left empty; if `node` is already among the
    /// remaining entries it is not inserted twice.
    pub fn replace_lru(&mut self, node: Node) -> (r: bool)
        requires
            old(self).wf(),
        ensures
            final(self).wf(),
            ({
                let s = old(self).spec_nodes();
                if s.len() == 0 {
                    !r && final(self).spec_nodes() == s
                } else if spec_find_id(s.drop_first(), node.id@) is Some {
                    !r && final(self).spec_nodes() == s.drop_first()
                } else {
                    r && final(self).spec_nodes() == s.drop_first().push(node)
                }
            }),
    {
        if self.nodes.len() == 0 {
            return false;
        }
        self.nodes.remove(0);
        proof {
            assert(self.nodes@ =~= old(self).nodes@.drop_first());
        }
        let found = self.find_index(&node.id);
        match found {
            Some(_) => false,
            None => {
                proof {
                    lemma_find_id_none(self.nodes@, node.id@, 0);
                }
                self.nodes.push(node);
                proof {
                    let s = old(self).nodes@.drop_first();
                    let t = s.push(node);
                    assert forall|p: int, q: int|
                        0 <= p < q < t.len() implies t[p].id@ != t[q].id@ by {
                        if q < t.len() - 1 {
                            assert(t[p] == s[p] && t[q] == s[q]);
                        } else {
                            assert(t[q] == node && t[p] == s[p]);
                        }
                    }
                }
                true
            },
        }
    }
}

} // verus!
