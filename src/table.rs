//! Tables of values indexed by a 32-bit id, kept in ascending id order.
use vstd::prelude::*;

verus! {

/// The map that a list of entries describes; a later entry for an id
/// replaces an earlier one.
pub open spec fn map_of<V>(s: Seq<(u32, V)>) -> Map<u32, V>
    decreases s.len(),
{
    if s.len() == 0 {
        Map::empty()
    } else {
        map_of(s.drop_last()).insert(s.last().0, s.last().1)
    }
}

/// Whether the ids of `s` are strictly increasing.
pub open spec fn ids_ascending<V>(s: Seq<(u32, V)>) -> bool {
    forall|i: int, j: int| 0 <= i < j < s.len() ==> s[i].0 < s[j].0
}

/// Every id of `s` is in its map, with the value of that entry, and the
/// map holds no other id.
pub proof fn lemma_map_of<V>(s: Seq<(u32, V)>)
    requires
        ids_ascending(s),
    ensures
        forall|i: int|
            0 <= i < s.len() ==> #[trigger] map_of(s).contains_key(s[i].0) && map_of(s)[s[i].0]
                == s[i].1,
        forall|k: u32| #[trigger]
            map_of(s).contains_key(k) ==> exists|i: int| 0 <= i < s.len() && s[i].0 == k,
    decreases s.len(),
{
    if s.len() > 0 {
        let t = s.drop_last();
        lemma_map_of(t);
        assert forall|i: int| 0 <= i < s.len() implies #[trigger] map_of(s).contains_key(s[i].0)
            && map_of(s)[s[i].0] == s[i].1 by {
            if i < s.len() - 1 {
                assert(t[i] == s[i]);
                assert(map_of(t).contains_key(t[i].0));
                assert(s[i].0 < s.last().0);
            }
        }
        assert forall|k: u32| #[trigger] map_of(s).contains_key(k) implies exists|i: int|
            0 <= i < s.len() && s[i].0 == k by {
            if k != s.last().0 {
                assert(map_of(t).contains_key(k));
                let i = choose|i: int| 0 <= i < t.len() && t[i].0 == k;
                assert(s[i] == t[i]);
            } else {
                assert(s[s.len() - 1].0 == k);
            }
        }
    }
}

/// A table from 32-bit ids to values.
#[derive(Debug)]
pub struct IndexTable<V> {
    entries: Vec<(u32, V)>,
}

impl<V> View for IndexTable<V> {
    type V = Map<u32, V>;

    open spec fn view(&self) -> Map<u32, V> {
        map_of(self.spec_entries())
    }
}

impl<V> IndexTable<V> {
    /// The entries, in ascending id order.
    pub closed spec fn spec_entries(&self) -> Seq<(u32, V)> {
        self.entries@
    }

    /// The entries are in strictly ascending id order.
    pub open spec fn wf(&self) -> bool {
        ids_ascending(self.spec_entries())
    }

    /// An empty table.
    pub fn new() -> (t: Self)
        ensures
            t.wf(),
            t@ == Map::<u32, V>::empty(),
            t.spec_entries().len() == 0,
    {
        IndexTable { entries: Vec::new() }
    }

    /// The number of entries.
    pub fn len(&self) -> (n: usize)
        ensures
            n == self.spec_entries().len(),
    {
        self.entries.len()
    }

    /// The id of the entry at position `i`.
    pub fn id_at(&self, i: usize) -> (k: u32)
        requires
            i < self.spec_entries().len(),
        ensures
            k == self.spec_entries()[i as int].0,
    {
        self.entries[i].0
    }

    /// The value of the entry at position `i`.
    pub fn value_at(&self, i: usize) -> (v: &V)
        requires
            i < self.spec_entries().len(),
        ensures
            *v == self.spec_entries()[i as int].1,
    {
        &self.entries[i].1
    }

    /// The value stored for `id`, if any.
    pub fn get(&self, id: u32) -> (r: Option<&V>)
        requires
            self.wf(),
        ensures
            match r {
                Some(v) => self@.contains_key(id) && *v == self@[id],
                None => !self@.contains_key(id),
            },
    {
        let mut i: usize = 0;
        while i < self.entries.len()
            invariant
                self.wf(),
                i <= self.entries@.len(),
                forall|j: int| 0 <= j < i ==> self.entries@[j].0 != id,
            decreases self.entries@.len() - i,
        {
            if self.entries[i].0 == id {
                proof {
                    lemma_map_of(self.entries@);
                    assert(map_of(self.entries@).contains_key(self.entries@[i as int].0));
                }
                return Some(&self.entries[i].1);
            }
            i = i + 1;
        }
        proof {
            lemma_map_of(self.entries@);
        }
        None
    }

    /// Stores `value` for `id`, replacing any value stored before.
    pub fn insert(&mut self, id: u32, value: V)
        requires
            old(self).wf(),
        ensures
            final(self).wf(),
            final(self)@ == old(self)@.insert(id, value),
    {
        let ghost s = self.entries@;
        proof {
            lemma_map_of(s);
        }
        let mut p: usize = 0;
        while p < self.entries.len() && self.entries[p].0 < id
            invariant
                self.entries@ == s,
                p <= s.len(),
                forall|j: int| 0 <= j < p ==> s[j].0 < id,
            decreases s.len() - p,
        {
            p = p + 1;
        }
        if p < self.entries.len() && self.entries[p].0 == id {
            self.entries.set(p, (id, value));
        } else {
            self.entries.insert(p, (id, value));
        }
        let ghost t = self.entries@;
        proof {
            assert(ids_ascending(t));
            lemma_map_of(t);
            assert forall|k: u32| #[trigger]
                map_of(t).contains_key(k) == map_of(s).insert(id, value).contains_key(k) by {
                if map_of(t).contains_key(k) {
                    let i = choose|i: int| 0 <= i < t.len() && t[i].0 == k;
                    if k != id {
                        if i < p {
                            assert(s[i] == t[i]);
                        } else if t.len() == s.len() {
                            assert(s[i] == t[i]);
                        } else {
                            assert(s[i - 1] == t[i]);
                        }
                    }
                }
                if map_of(s).contains_key(k) && k != id {
                    let i = choose|i: int| 0 <= i < s.len() && s[i].0 == k;
                    if i < p || t.len() == s.len() {
                        assert(s[i] == t[i]);
                    } else {
                        assert(s[i] == t[i + 1]);
                    }
                }
                if k == id {
                    assert(t[p as int].0 == id);
                }
            }
            assert forall|k: u32| #[trigger] map_of(t).contains_key(k) implies map_of(t)[k]
                == map_of(s).insert(id, value)[k] by {
                let i = choose|i: int| 0 <= i < t.len() && t[i].0 == k;
                if k == id {
                    assert(t[p as int].0 == id);
                } else if i < p || t.len() == s.len() {
                    assert(s[i] == t[i]);
                } else {
                    assert(s[i - 1] == t[i]);
                }
            }
            assert(map_of(t) =~= map_of(s).insert(id, value));
        }
    }
}

} // verus!
