use vstd::prelude::*;

verus! {

/// An insertion-ordered map from `u64` identifiers to values, backed by a pair
/// of parallel vectors. The domain routing code keys everything by node
/// indices, which are plain integers, so this small verified map stands in for
/// a hash map; iteration visits keys in the order they were first inserted,
/// which gives "the first queue encountered" a definite meaning.
pub struct IdMap<V> {
    keys: Vec<u64>,
    vals: Vec<V>,
}

impl<V> IdMap<V> {
    /// The keys, in insertion order.
    pub closed spec fn key_seq(self) -> Seq<u64> {
        self.keys@
    }

    /// The values, in key order.
    pub closed spec fn val_seq(self) -> Seq<V> {
        self.vals@
    }

    /// Well-formed: parallel vectors of equal length, no duplicate key.
    pub open spec fn wf(self) -> bool {
        &&& self.key_seq().len() == self.val_seq().len()
        &&& forall|i: int, j: int|
            0 <= i < j < self.key_seq().len() ==> self.key_seq()[i] != self.key_seq()[j]
    }

    pub open spec fn contains_spec(self, k: u64) -> bool {
        self.key_seq().contains(k)
    }

    pub open spec fn spec_len(self) -> nat {
        self.key_seq().len()
    }

    /// The position of `k` among the keys (meaningful when `contains_spec(k)`).
    pub open spec fn index_of(self, k: u64) -> int {
        choose|i: int| 0 <= i < self.key_seq().len() && self.key_seq()[i] == k
    }

    /// The value stored under `k` (meaningful when `contains_spec(k)`).
    pub open spec fn spec_at(self, k: u64) -> V {
        self.val_seq()[self.index_of(k)]
    }

    /// The map abstraction that the contracts of this type speak of.
    pub open spec fn as_map(self) -> Map<u64, V> {
        Map::new(|k: u64| self.contains_spec(k), |k: u64| self.spec_at(k))
    }

    /// In a well-formed map, a key occurs at exactly one position.
    pub proof fn lemma_index_unique(self, i: int)
        requires
            self.wf(),
            0 <= i < self.spec_len(),
        ensures
            self.index_of(self.key_seq()[i]) == i,
            self.contains_spec(self.key_seq()[i]),
            self.as_map()[self.key_seq()[i]] == self.val_seq()[i],
    {
        assert(self.key_seq().contains(self.key_seq()[i]));
        let j = self.index_of(self.key_seq()[i]);
        assert(0 <= j < self.key_seq().len() && self.key_seq()[j] == self.key_seq()[i]);
    }

    pub fn new() -> (r: IdMap<V>)
        ensures
            r.wf(),
            r.key_seq() == Seq::<u64>::empty(),
            r.as_map() == Map::<u64, V>::empty(),
    {
        let r = IdMap { keys: Vec::new(), vals: Vec::new() };
        proof {
            assert(r.as_map() =~= Map::<u64, V>::empty());
        }
        r
    }

    /// The position of `k` among the keys, if present.
    fn position(&self, k: u64) -> (r: Option<usize>)
        requires
            self.wf(),
        ensures
            match r {
                Some(i) => self.contains_spec(k) && i == self.index_of(k)
                    && 0 <= i < self.spec_len() && self.key_seq()[i as int] == k,
                None => !self.contains_spec(k),
            },
    {
        let mut i: usize = 0;
        while i < self.keys.len()
            invariant
                self.wf(),
                0 <= i <= self.spec_len(),
                forall|j: int| 0 <= j < i ==> self.key_seq()[j] != k,
            decreases self.spec_len() - i,
        {
            if self.keys[i] == k {
                proof {
                    self.lemma_index_unique(i as int);
                }
                return Some(i);
            }
            i = i + 1;
        }
        None
    }

    pub fn contains_key(&self, k: u64) -> (r: bool)
        requires
            self.wf(),
        ensures
            r == self.contains_spec(k),
            r == self.as_map().dom().contains(k),
    {
        self.position(k).is_some()
    }

    pub fn len(&self) -> (r: usize)
        ensures
            r == self.spec_len(),
    {
        self.keys.len()
    }

    pub fn get(&self, k: u64) -> (r: Option<&V>)
        requires
            self.wf(),
        ensures
            match r {
                Some(v) => self.contains_spec(k) && *v == self.as_map()[k],
                None => !self.contains_spec(k),
            },
    {
        match self.position(k) {
            Some(i) => Some(&self.vals[i]),
            None => None,
        }
    }

    /// Insert `k -> v`, replacing any previous binding. A fresh key goes to
    /// the back of the iteration order; an existing key keeps its place.
    pub fn insert(&mut self, k: u64, v: V)
        requires
            old(self).wf(),
        ensures
            final(self).wf(),
            final(self).as_map() == old(self).as_map().insert(k, v),
            old(self).contains_spec(k) ==> final(self).key_seq() == old(self).key_seq(),
            !old(self).contains_spec(k) ==> final(self).key_seq() == old(self).key_seq().push(k),
            final(self).contains_spec(k),
    {
        match self.position(k) {
            Some(i) => {
                self.vals.set(i, v);
                proof {
                    assert forall|k2: u64| #[trigger] self.contains_spec(k2)
                        == old(self).contains_spec(k2) by {}
                    assert forall|k2: u64| self.contains_spec(k2)
                        implies self.as_map()[k2] == old(self).as_map().insert(k, v)[k2] by {
                        let j = old(self).index_of(k2);
                        old(self).lemma_index_unique(j);
                        self.lemma_index_unique(j);
                    }
                    assert(self.as_map() =~= old(self).as_map().insert(k, v));
                }
            }
            None => {
                self.keys.push(k);
                self.vals.push(v);
                proof {
                    assert forall|k2: u64| #[trigger] self.contains_spec(k2)
                        implies (old(self).contains_spec(k2) || k2 == k) by {
                        let j = self.index_of(k2);
                        if j < old(self).key_seq().len() {
                            assert(old(self).key_seq()[j] == k2);
                        }
                    }
                    assert forall|k2: u64| old(self).contains_spec(k2)
                        implies #[trigger] self.contains_spec(k2) by {
                        let j = old(self).index_of(k2);
                        assert(self.key_seq()[j] == k2);
                    }
                    assert(self.contains_spec(k)) by {
                        assert(self.key_seq()[old(self).spec_len() as int] == k);
                    }
                    assert forall|k2: u64| self.contains_spec(k2)
                        implies self.as_map()[k2] == old(self).as_map().insert(k, v)[k2] by {
                        if k2 == k {
                            self.lemma_index_unique(old(self).spec_len() as int);
                        } else {
                            let j = old(self).index_of(k2);
                            old(self).lemma_index_unique(j);
                            self.lemma_index_unique(j);
                        }
                    }
                    assert(self.as_map() =~= old(self).as_map().insert(k, v));
                }
            }
        }
    }

    /// Remove the binding for `k`, returning its value. The remaining keys
    /// keep their relative order.
    pub fn remove(&mut self, k: u64) -> (r: Option<V>)
        requires
            old(self).wf(),
        ensures
            final(self).wf(),
            final(self).as_map() == old(self).as_map().remove(k),
            !final(self).contains_spec(k),
            match r {
                Some(v) => old(self).contains_spec(k) && v == old(self).as_map()[k]
                    && final(self).key_seq() == old(self).key_seq().remove(old(self).index_of(k)),
                None => !old(self).contains_spec(k) && final(self).key_seq() == old(self).key_seq(),
            },
    {
        match self.position(k) {
            Some(i) => {
                let v = self.vals.remove(i);
                self.keys.remove(i);
                proof {
                    let oks = old(self).key_seq();
                    let i_ = i as int;
                    assert forall|k2: u64| #[trigger] self.contains_spec(k2)
                        implies old(self).contains_spec(k2) && k2 != k by {
                        let j = self.index_of(k2);
                        if j < i_ {
                            assert(oks[j] == k2);
                            if k2 == k {
                                old(self).lemma_index_unique(j);
                            }
                        } else {
                            assert(oks[j + 1] == k2);
                            if k2 == k {
                                old(self).lemma_index_unique(j + 1);
                            }
                        }
                    }
                    assert forall|k2: u64| old(self).contains_spec(k2) && k2 != k
                        implies #[trigger] self.contains_spec(k2) by {
                        let j = old(self).index_of(k2);
                        if j < i_ {
                            assert(self.key_seq()[j] == k2);
                        } else {
                            assert(oks[j] == k2);
                            old(self).lemma_index_unique(j);
                            assert(j != i_);
                            assert(self.key_seq()[j - 1] == k2);
                        }
                    }
                    assert forall|k2: u64| self.contains_spec(k2)
                        implies self.as_map()[k2] == old(self).as_map().remove(k)[k2] by {
                        let j = self.index_of(k2);
                        let oj = old(self).index_of(k2);
                        old(self).lemma_index_unique(oj);
                        if j < i_ {
                            self.lemma_index_unique(j);
                            assert(oks[j] == k2);
                        } else {
                            self.lemma_index_unique(j);
                            assert(oks[j + 1] == k2);
                        }
                    }
                    assert(self.as_map() =~= old(self).as_map().remove(k));
                }
                Some(v)
            }
            None => {
                proof {
                    assert(self.as_map() =~= old(self).as_map().remove(k));
                }
                None
            }
        }
    }

    /// The key at position `i` of the iteration order.
    pub fn key_at(&self, i: usize) -> (r: u64)
        requires
            self.wf(),
            i < self.spec_len(),
        ensures
            r == self.key_seq()[i as int],
            self.contains_spec(r),
            self.index_of(r) == i,
            self.as_map()[r] == self.val_seq()[i as int],
    {
        proof {
            self.lemma_index_unique(i as int);
        }
        self.keys[i]
    }

    /// The value at position `i` of the iteration order.
    pub fn val_at(&self, i: usize) -> (r: &V)
        requires
            self.wf(),
            i < self.spec_len(),
        ensures
            *r == self.val_seq()[i as int],
            *r == self.as_map()[self.key_seq()[i as int]],
    {
        proof {
            self.lemma_index_unique(i as int);
        }
        &self.vals[i]
    }
}

/// A small set of `u64` identifiers, backed by a vector without duplicates.
/// It records the destination nodes of one buffered packet.
pub struct IndexSet {
    items: Vec<u64>,
}

impl IndexSet {
    /// The elements, in insertion order.
    pub closed spec fn item_seq(self) -> Seq<u64> {
        self.items@
    }

    /// Well-formed: no duplicate element.
    pub open spec fn wf(self) -> bool {
        forall|i: int, j: int|
            0 <= i < j < self.item_seq().len() ==> self.item_seq()[i] != self.item_seq()[j]
    }

    /// The set abstraction that the contracts of this type speak of.
    pub open spec fn as_set(self) -> Set<u64> {
        self.item_seq().to_set()
    }

    pub fn new() -> (r: IndexSet)
        ensures
            r.wf(),
            r.as_set() == Set::<u64>::empty(),
            r.item_seq() == Seq::<u64>::empty(),
    {
        let r = IndexSet { items: Vec::new() };
        proof {
            assert(r.as_set() =~= Set::<u64>::empty());
        }
        r
    }

    pub fn singleton(k: u64) -> (r: IndexSet)
        ensures
            r.wf(),
            r.as_set() == Set::<u64>::empty().insert(k),
            r.item_seq() == seq![k],
    {
        let mut items: Vec<u64> = Vec::new();
        items.push(k);
        let r = IndexSet { items };
        proof {
            assert(r.item_seq() =~= seq![k]);
            assert forall|a: u64| r.as_set().contains(a) implies a == k by {
                let i = choose|i: int| 0 <= i < r.item_seq().len() && r.item_seq()[i] == a;
                assert(r.item_seq()[i] == a);
            }
            assert(r.item_seq()[0] == k);
            assert(r.as_set() =~= Set::<u64>::empty().insert(k));
        }
        r
    }

    pub fn len(&self) -> (r: usize)
        ensures
            r == self.item_seq().len(),
    {
        self.items.len()
    }

    pub fn contains(&self, k: u64) -> (r: bool)
        ensures
            r == self.as_set().contains(k),
    {
        let mut i: usize = 0;
        while i < self.items.len()
            invariant
                0 <= i <= self.item_seq().len(),
                forall|j: int| 0 <= j < i ==> self.item_seq()[j] != k,
            decreases self.item_seq().len() - i,
        {
            if self.items[i] == k {
                return true;
            }
            i = i + 1;
        }
        false
    }

    /// Add `k` to the set.
    pub fn insert(&mut self, k: u64)
        requires
            old(self).wf(),
        ensures
            final(self).wf(),
            final(self).as_set() == old(self).as_set().insert(k),
            old(self).as_set().contains(k) ==> final(self).item_seq() == old(self).item_seq(),
            !old(self).as_set().contains(k) ==> final(self).item_seq() == old(self).item_seq().push(
                k,
            ),
    {
        if !self.contains(k) {
            self.items.push(k);
            proof {
                let os = old(self).item_seq();
                assert forall|a: u64| self.as_set().contains(a) implies old(self).as_set().insert(
                    k,
                ).contains(a) by {
                    let i = choose|i: int|
                        0 <= i < self.item_seq().len() && self.item_seq()[i] == a;
                    if i < os.len() {
                        assert(os[i] == a);
                    }
                }
                assert forall|a: u64| old(self).as_set().insert(k).contains(a)
                    implies self.as_set().contains(a) by {
                    if old(self).as_set().contains(a) {
                        let i = choose|i: int| 0 <= i < os.len() && os[i] == a;
                        assert(self.item_seq()[i] == a);
                    } else {
                        assert(self.item_seq()[os.len() as int] == k);
                    }
                }
                assert(self.as_set() =~= old(self).as_set().insert(k));
            }
        } else {
            proof {
                assert(self.as_set() =~= old(self).as_set().insert(k));
            }
        }
    }

    /// A copy of this set with `k` added.
    pub fn with_inserted(&self, k: u64) -> (r: IndexSet)
        requires
            self.wf(),
        ensures
            r.wf(),
            r.as_set() == self.as_set().insert(k),
    {
        let mut r = self.duplicate();
        r.insert(k);
        r
    }

    /// An element-wise copy of this set.
    pub fn duplicate(&self) -> (r: IndexSet)
        ensures
            r.item_seq() == self.item_seq(),
            r.as_set() == self.as_set(),
            r.wf() == self.wf(),
    {
        let mut items: Vec<u64> = Vec::new();
        let mut i: usize = 0;
        while i < self.items.len()
            invariant
                0 <= i <= self.item_seq().len(),
                items@ == self.item_seq().subrange(0, i as int),
            decreases self.item_seq().len() - i,
        {
            items.push(self.items[i]);
            proof {
                assert(items@ =~= self.item_seq().subrange(0, i + 1 as int));
            }
            i = i + 1;
        }
        let r = IndexSet { items };
        proof {
            assert(r.item_seq() =~= self.item_seq());
        }
        r
    }
}

} // verus!
