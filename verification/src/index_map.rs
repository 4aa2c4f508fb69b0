use vstd::prelude::*;
use std::collections::HashMap;
use crate::block::BlockId;

verus! {

broadcast use vstd::std_specs::hash::group_hash_axioms;

/// An insertion-ordered bijection between block identifiers and dense
/// palette indices: a dictionary from raw identifier to index beside
/// the list of identifiers in insertion order, kept in lockstep.
pub struct IndexMap {
    pub(crate) map: HashMap<u32, u32>,
    pub(crate) list: Vec<BlockId>,
}

impl View for IndexMap {
    type V = Seq<BlockId>;

    /// The identifiers in insertion order; the index of an identifier
    /// is its position here.
    open spec fn view(&self) -> Seq<BlockId> {
        self.spec_list()
    }
}

impl IndexMap {
    /// The identifiers in insertion order.
    pub closed spec fn spec_list(&self) -> Seq<BlockId> {
        self.list@
    }

    /// The dictionary from raw identifier to index.
    pub closed spec fn spec_map(&self) -> Map<u32, u32> {
        self.map@
    }

    /// Well-formed: dictionary and list are inverse to one another,
    /// and every index is dense.
    pub open spec fn wf(&self) -> bool {
        &&& self@.len() <= u32::MAX
        &&& forall|i: int|
            0 <= i < self@.len() ==> #[trigger] self.spec_map().contains_key(self@[i].0)
                && self.spec_map()[self@[i].0] == i
        &&& forall|k: u32|
            #[trigger] self.spec_map().contains_key(k) ==> self.spec_map()[k] < self@.len()
                && self@[self.spec_map()[k] as int].0 == k
    }

    /// An empty map.
    pub fn new() -> (r: Self)
        ensures
            r.wf(),
            r@ =~= Seq::<BlockId>::empty(),
    {
        IndexMap { map: HashMap::new(), list: Vec::new() }
    }

    /// How many identifiers the map holds.
    pub fn len(&self) -> (r: usize)
        ensures
            r == self@.len(),
    {
        self.list.len()
    }

    /// The index of an identifier: present exactly when the identifier
    /// was added before.
    pub fn index(&self, value: &BlockId) -> (r: Option<u32>)
        requires
            self.wf(),
        ensures
            match r {
                Some(i) => i < self@.len() && self@[i as int] == *value,
                None => forall|j: int| 0 <= j < self@.len() ==> self@[j] != *value,
            },
    {
        match self.map.get(&value.0) {
            Some(i) => {
                let idx: u32 = *i;
                proof {
                    assert(self.spec_map().contains_key(value.0));
                }
                Some(idx)
            },
            None => {
                proof {
                    assert forall|j: int| 0 <= j < self@.len() implies self@[j] != *value by {
                        if self@[j] == *value {
                            assert(self.spec_map().contains_key(self@[j].0));
                        }
                    }
                }
                None
            },
        }
    }

    /// The identifier at an index: present exactly when the index is
    /// below the map's length.
    pub fn value(&self, index: u32) -> (r: Option<BlockId>)
        ensures
            index < self@.len() ==> r == Some(self@[index as int]),
            index >= self@.len() ==> r is None,
    {
        if (index as usize) < self.list.len() {
            Some(self.list[index as usize])
        } else {
            None
        }
    }

    /// The index the next added identifier will receive: the count of
    /// identifiers held so far.
    pub fn get_next_index(&self) -> (r: u32)
        requires
            self@.len() <= u32::MAX,
        ensures
            r == self@.len(),
    {
        self.list.len() as u32
    }

    /// Bijection law: a well-formed map never holds an identifier
    /// twice, so its entries are pairwise distinct.
    pub proof fn lemma_entries_distinct(&self)
        requires
            self.wf(),
        ensures
            forall|i: int, j: int| 0 <= i < j < self@.len() ==> self@[i] != self@[j],
    {
        assert forall|i: int, j: int| 0 <= i < j < self@.len() implies self@[i] != self@[j] by {
            if self@[i] == self@[j] {
                assert(self.spec_map().contains_key(self@[i].0));
                assert(self.spec_map()[self@[i].0] == i);
                assert(self.spec_map().contains_key(self@[j].0));
                assert(self.spec_map()[self@[j].0] == j);
            }
        }
    }

    /// The index of the identifier, adding it at the next dense index
    /// when absent; the flag tells whether it was added.
    pub fn index_or_add(&mut self, key: BlockId) -> (r: (u32, bool))
        requires
            old(self).wf(),
            old(self)@.len() < u32::MAX,
        ensures
            final(self).wf(),
            r.1 == !old(self)@.contains(key),
            !r.1 ==> final(self)@ == old(self)@ && old(self)@[r.0 as int] == key && r.0 < old(
                self,
            )@.len(),
            r.1 ==> final(self)@ =~= old(self)@.push(key) && r.0 == old(self)@.len(),
    {
        let next_index: u32 = self.get_next_index();
        match self.map.get(&key.0) {
            Some(i) => {
                let idx: u32 = *i;
                proof {
                    assert(self.spec_map().contains_key(key.0));
                    assert(self@[idx as int].0 == key.0);
                    assert(self@[idx as int] == key);
                    assert(self@.contains(key));
                }
                (idx, false)
            },
            None => {
                proof {
                    if old(self)@.contains(key) {
                        let j = choose|j: int|
                            0 <= j < old(self)@.len() && old(self)@[j] == key;
                        assert(self.spec_map().contains_key(old(self)@[j].0));
                    }
                }
                self.map.insert(key.0, next_index);
                self.list.push(key);
                proof {
                    assert forall|i: int| 0 <= i < self@.len() implies #[trigger] self.spec_map()
                        .contains_key(self@[i].0) && self.spec_map()[self@[i].0] == i by {
                        if i < old(self)@.len() {
                            assert(old(self).spec_map().contains_key(old(self)@[i].0));
                            assert(self@[i] == old(self)@[i]);
                        }
                    }
                    assert forall|k: u32| #[trigger] self.spec_map().contains_key(k) implies self
                        .spec_map()[k] < self@.len() && self@[self.spec_map()[k] as int].0
                        == k by {
                        if k != key.0 {
                            assert(old(self).spec_map().contains_key(k));
                            assert(old(self)@[old(self).spec_map()[k] as int].0 == k);
                        }
                    }
                }
                (next_index, true)
            },
        }
    }
}

} // verus!
