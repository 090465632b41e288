use vstd::prelude::*;
use crate::bytes_util::bytes_eq;

verus! {

/// One stored pair of the content store.
pub struct StorageEntry {
    pub key: Vec<u8>,
    pub value: Vec<u8>,
}

/// No two entries share a key.
pub open spec fn spec_unique_keys(s: Seq<StorageEntry>) -> bool {
    forall|i: int, j: int| 0 <= i < j < s.len() ==> s[i].key@ != s[j].key@
}

/// Whether some entry holds the key `k`.
pub open spec fn spec_has_key(s: Seq<StorageEntry>, k: Seq<u8>) -> bool {
    exists|i: int| 0 <= i < s.len() && s[i].key@ == k
}

/// The mapping the entries spell out, later entries overriding earlier
/// ones (with unique keys nothing is overridden).
pub open spec fn spec_map_of(s: Seq<StorageEntry>) -> Map<Seq<u8>, Seq<u8>>
    decreases s.len(),
{
    if s.len() == 0 {
        Map::empty()
    } else {
        spec_map_of(s.drop_last()).insert(s.last().key@, s.last().value@)
    }
}

pub proof fn lemma_map_of_props(s: Seq<StorageEntry>)
    requires
        spec_unique_keys(s),
    ensures
        forall|k: Seq<u8>| spec_map_of(s).contains_key(k) <==> spec_has_key(s, k),
        forall|i: int|
            0 <= i < s.len() ==> spec_map_of(s).contains_key((#[trigger] s[i]).key@)
                && spec_map_of(s)[s[i].key@] == s[i].value@,
    decreases s.len(),
{
    if s.len() > 0 {
        let prefix = s.drop_last();
        lemma_map_of_props(prefix);
        assert forall|k: Seq<u8>| spec_map_of(s).contains_key(k) implies spec_has_key(s, k) by {
            if k == s.last().key@ {
                assert(s[s.len() - 1].key@ == k);
            } else {
                assert(spec_map_of(s) == spec_map_of(prefix).insert(
                    s.last().key@,
                    s.last().value@,
                ));
                assert(spec_map_of(prefix).contains_key(k));
                assert(spec_has_key(prefix, k));
                let i = choose|i: int| 0 <= i < prefix.len() && prefix[i].key@ == k;
                assert(prefix[i] == s[i]);
                assert(s[i].key@ == k);
            }
        }
        assert forall|k: Seq<u8>| spec_has_key(s, k) implies spec_map_of(s).contains_key(k) by {
            let i = choose|i: int| 0 <= i < s.len() && s[i].key@ == k;
            if i < s.len() - 1 {
                assert(prefix[i].key@ == k);
            }
        }
        assert forall|i: int|
            0 <= i < s.len() implies spec_map_of(s).contains_key((#[trigger] s[i]).key@)
            && spec_map_of(s)[s[i].key@] == s[i].value@ by {
            if i < s.len() - 1 {
                assert(prefix[i] == s[i]);
                assert(s[i].key@ != s.last().key@);
            }
        }
    }
}

/// The content store: a key of fixed length names an opaque byte value;
/// insertion overwrites.
pub struct Storage {
    pub entries: Vec<StorageEntry>,
}

impl Storage {
    pub open spec fn wf(self) -> bool {
        spec_unique_keys(self.entries@)
    }

    /// The mapping currently stored.
    pub open spec fn contents(self) -> Map<Seq<u8>, Seq<u8>> {
        spec_map_of(self.entries@)
    }

    pub fn new() -> (r: Storage)
        ensures
            r.wf(),
            r.contents() == Map::<Seq<u8>, Seq<u8>>::empty(),
    {
        Storage { entries: Vec::new() }
    }

    /// Index of the entry holding `key`, if any.
    fn find(&self, key: &Vec<u8>) -> (r: Option<usize>)
        ensures
            match r {
                Some(i) => i < self.entries@.len() && self.entries@[i as int].key@ == key@,
                None => !spec_has_key(self.entries@, key@),
            },
    {
        let mut i: usize = 0;
        while i < self.entries.len()
            invariant
                i <= self.entries@.len(),
                forall|j: int| 0 <= j < i ==> self.entries@[j].key@ != key@,
            decreases self.entries@.len() - i,
        {
            if bytes_eq(&self.entries[i].key, key) {
                return Some(i);
            }
            i += 1;
        }
        None
    }

    /// The value stored under `key`, if any.
    pub fn get(&self, key: &Vec<u8>) -> (r: Option<&Vec<u8>>)
        requires
            self.wf(),
        ensures
            match r {
                Some(v) => self.contents().contains_key(key@) && v@ == self.contents()[key@],
                None => !self.contents().contains_key(key@),
            },
    {
        proof {
            lemma_map_of_props(self.entries@);
        }
        let found = self.find(key);
        match found {
            Some(i) => Some(&self.entries[i].value),
            None => None,
        }
    }

    /// Stores `value` under `key`, overwriting any previous value.
    pub fn insert(&mut self, key: Vec<u8>, value: Vec<u8>)
        requires
            old(self).wf(),
        ensures
            final(self).wf(),
            final(self).contents() == old(self).contents().insert(key@, value@),
    {
        proof {
            lemma_map_of_props(self.entries@);
        }
        let found = self.find(&key);
        let ghost s = self.entries@;
        match found {
            Some(i) => {
                self.entries.set(i, StorageEntry { key, value });
                proof {
                    let t = self.entries@;
                    assert forall|p: int, q: int|
                        0 <= p < q < t.len() implies t[p].key@ != t[q].key@ by {
                        assert(t[p] == (if p == i {
                            t[i as int]
                        } else {
                            s[p]
                        }));
                        assert(t[q] == (if q == i {
                            t[i as int]
                        } else {
                            s[q]
                        }));
                    }
                    lemma_map_of_props(t);
                    assert(t[i as int].key@ == key@ && t[i as int].value@ == value@);
                    assert forall|k: Seq<u8>|
                        spec_map_of(t).contains_key(k) == spec_map_of(s).insert(
                            key@,
                            value@,
                        ).contains_key(k) by {
                        if spec_map_of(t).contains_key(k) {
                            assert(spec_has_key(t, k));
                            let w = choose|w: int| 0 <= w < t.len() && t[w].key@ == k;
                            if w != i {
                                assert(s[w].key@ == k);
                                assert(spec_has_key(s, k));
                            }
                        }
                        if spec_map_of(s).insert(key@, value@).contains_key(k) {
                            if k == key@ {
                                assert(t[i as int].key@ == k);
                                assert(spec_has_key(t, k));
                            } else {
                                assert(spec_map_of(s).contains_key(k));
                                assert(spec_has_key(s, k));
                                let w = choose|w: int| 0 <= w < s.len() && s[w].key@ == k;
                                assert(w != i);
                                assert(t[w].key@ == k);
                                assert(spec_has_key(t, k));
                            }
                        }
                    }
                    assert forall|k: Seq<u8>|
                        spec_map_of(t).contains_key(k) implies spec_map_of(t)[k] == spec_map_of(
                        s,
                    ).insert(key@, value@)[k] by {
                        if k == key@ {
                            assert(spec_map_of(t)[t[i as int].key@] == t[i as int].value@);
                        } else {
                            assert(spec_has_key(t, k));
                            let w = choose|w: int| 0 <= w < t.len() && t[w].key@ == k;
                            assert(w != i);
                            assert(s[w].key@ == k && s[w].value@ == t[w].value@);
                            assert(spec_map_of(s)[s[w].key@] == s[w].value@);
                            assert(spec_map_of(t)[t[w].key@] == t[w].value@);
                        }
                    }
                    assert(spec_map_of(t) =~= spec_map_of(s).insert(key@, value@));
                }
            },
            None => {
                self.entries.push(StorageEntry { key, value });
                proof {
                    let t = self.entries@;
                    assert(t.drop_last() =~= s);
                    assert forall|p: int, q: int|
                        0 <= p < q < t.len() implies t[p].key@ != t[q].key@ by {
                        if q == t.len() - 1 {
                            assert(t[p] == s[p]);
                        } else {
                            assert(t[p] == s[p] && t[q] == s[q]);
                        }
                    }
                }
            },
        }
    }
}

} // verus!
