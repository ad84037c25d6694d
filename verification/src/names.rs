use vstd::prelude::*;

verus! {

/// A map from names to values that remembers the order in which names were added.
pub struct NameMap<V> {
    keys: Vec<String>,
    vals: Vec<V>,
}

impl<V> NameMap<V> {
    #[verifier::type_invariant]
    pub closed spec fn wf(self) -> bool {
        &&& self.keys@.len() == self.vals@.len()
        &&& forall|i: int, j: int|
            0 <= i < j < self.keys@.len() ==> self.keys@[i]@ != self.keys@[j]@
    }

    /// The names, in iteration order.
    pub closed spec fn key_seq(self) -> Seq<Seq<char>> {
        self.keys@.map_values(|k: String| k@)
    }

    /// The values, in iteration order.
    pub closed spec fn value_seq(self) -> Seq<V> {
        self.vals@
    }

    pub closed spec fn as_map(self) -> Map<Seq<char>, V> {
        Map::new(
            |k: Seq<char>| self.key_seq().contains(k),
            |k: Seq<char>| self.value_seq()[self.key_seq().index_of(k)],
        )
    }

    pub broadcast proof fn lemma_dom(self, k: Seq<char>)
        ensures
            #[trigger] self.as_map().contains_key(k) == self.key_seq().contains(k),
    {
    }

    pub broadcast proof fn lemma_wf(self)
        requires
            #[trigger] self.wf(),
        ensures
            self.key_seq().len() == self.value_seq().len(),
            self.key_seq().no_duplicates(),
            self.as_map().dom() == self.key_seq().to_set(),
            forall|i: int|
                0 <= i < self.key_seq().len() ==> #[trigger] self.as_map()[self.key_seq()[i]]
                    == self.value_seq()[i],
    {
        assert forall|i: int| 0 <= i < self.key_seq().len() implies #[trigger] self.as_map()[self.key_seq()[i]]
            == self.value_seq()[i] by {
            let k = self.key_seq()[i];
            assert(self.key_seq().contains(k));
            let j = self.key_seq().index_of(k);
            assert(self.key_seq()[j] == k);
            if j != i {
                if j < i {
                    assert(self.keys@[j]@ != self.keys@[i]@);
                } else {
                    assert(self.keys@[i]@ != self.keys@[j]@);
                }
            }
        }
        assert(self.as_map().dom() =~= self.key_seq().to_set());
    }

    pub fn new() -> (m: Self)
        ensures
            m.key_seq() == Seq::<Seq<char>>::empty(),
            m.value_seq() == Seq::<V>::empty(),
    {
        NameMap { keys: Vec::new(), vals: Vec::new() }
    }

    pub fn len(&self) -> (n: usize)
        ensures
            n == self.key_seq().len(),
    {
        proof { use_type_invariant(self); }
        self.keys.len()
    }

    pub fn key_at(&self, i: usize) -> (k: &String)
        requires
            i < self.key_seq().len(),
        ensures
            k@ == self.key_seq()[i as int],
    {
        &self.keys[i]
    }

    pub fn value_at(&self, i: usize) -> (v: &V)
        requires
            i < self.key_seq().len(),
        ensures
            *v == self.value_seq()[i as int],
    {
        proof { use_type_invariant(self); }
        &self.vals[i]
    }

    fn find(&self, k: &str) -> (r: Option<usize>)
        ensures
            match r {
                Some(i) => i < self.key_seq().len() && self.key_seq()[i as int] == k@,
                None => !self.key_seq().contains(k@),
            },
    {
        let key = k.to_owned();
        let mut i: usize = 0;
        while i < self.keys.len()
            invariant
                i <= self.keys@.len(),
                key@ == k@,
                forall|j: int| 0 <= j < i ==> self.key_seq()[j] != k@,
            decreases self.keys@.len() - i,
        {
            if self.keys[i] == key {
                return Some(i);
            }
            i += 1;
        }
        None
    }

    pub fn contains_key(&self, k: &str) -> (b: bool)
        ensures
            b == self.key_seq().contains(k@),
    {
        self.find(k).is_some()
    }

    pub fn get(&self, k: &str) -> (r: Option<&V>)
        ensures
            match r {
                Some(v) => self.key_seq().contains(k@) && *v == self.as_map()[k@],
                None => !self.key_seq().contains(k@),
            },
    {
        proof { use_type_invariant(self); }
        match self.find(k) {
            Some(i) => Some(&self.vals[i]),
            None => None,
        }
    }

    /// Sets the value of `k`, keeping its position when it is present and
    /// appending it otherwise.
    pub fn insert(&mut self, k: String, v: V)
        ensures
            final(self).as_map() == old(self).as_map().insert(k@, v),
            old(self).key_seq().contains(k@) ==> final(self).key_seq() == old(self).key_seq(),
            !old(self).key_seq().contains(k@) ==> final(self).key_seq() == old(self).key_seq().push(k@),
            final(self).value_seq().len() == final(self).key_seq().len(),
            forall|i: int| 0 <= i < old(self).key_seq().len() && old(self).key_seq()[i] != k@
                ==> #[trigger] final(self).value_seq()[i] == old(self).value_seq()[i],
    {
        proof { use_type_invariant(&*self); }
        let found = self.find(k.as_str());
        let mut tmp: NameMap<V> = NameMap::new();
        std::mem::swap(self, &mut tmp);
        proof { use_type_invariant(&tmp); }
        let ghost old_keys = tmp.key_seq();
        let ghost old_vals = tmp.value_seq();
        let NameMap { mut keys, mut vals } = tmp;
        match found {
            Some(i) => {
                vals.set(i, v);
            },
            None => {
                keys.push(k);
                vals.push(v);
            },
        }
        let ghost new_keys = keys@.map_values(|k: String| k@);
        proof {
            assert(forall|i: int| 0 <= i < keys@.len() ==> #[trigger] new_keys[i] == keys@[i]@);
            if found is None {
                assert(new_keys =~= old_keys.push(k@));
                assert forall|a: int, b: int| 0 <= a < b < keys@.len() implies keys@[a]@ != keys@[b]@ by {
                    if b == keys@.len() - 1 {
                        assert(old_keys[a] == keys@[a]@);
                    }
                }
            } else {
                assert(new_keys =~= old_keys);
            }
        }
        *self = NameMap { keys, vals };
        proof {
            use_type_invariant(&*self);
            assert(self.key_seq() == new_keys);
            assert(self.as_map() =~= old(self).as_map().insert(k@, v)) by {
                assert forall|q: Seq<char>| #[trigger] self.key_seq().contains(q) <==> (old_keys.contains(q) || q == k@) by {
                    if found is None {
                        if q == k@ { assert(self.key_seq()[old_keys.len() as int] == q); }
                        if old_keys.contains(q) {
                            let j = old_keys.index_of(q);
                            assert(self.key_seq()[j] == q);
                        }
                    }
                }
                assert forall|q: Seq<char>| self.key_seq().contains(q) implies #[trigger] self.as_map()[q]
                    == old(self).as_map().insert(k@, v)[q] by {
                    let j = self.key_seq().index_of(q);
                    assert(self.as_map()[self.key_seq()[j]] == self.value_seq()[j]);
                    if q != k@ {
                        let oj = old_keys.index_of(q);
                        assert(old(self).as_map()[old_keys[oj]] == old_vals[oj]);
                        assert(self.key_seq()[oj] == q);
                    } else {
                        assert(self.key_seq()[j] == k@);
                    }
                }
            }
        }
    }

    /// Removes `k` if it is present; the other names keep their order.
    pub fn remove(&mut self, k: &str)
        ensures
            final(self).as_map() == old(self).as_map().remove(k@),
            !old(self).key_seq().contains(k@) ==> final(self).key_seq() == old(self).key_seq(),
            old(self).key_seq().contains(k@) ==> final(self).key_seq() == old(self).key_seq().remove(
                old(self).key_seq().index_of(k@),
            ),
            old(self).key_seq().contains(k@) ==> final(self).value_seq() == old(self).value_seq().remove(
                old(self).key_seq().index_of(k@),
            ),
            !old(self).key_seq().contains(k@) ==> final(self).value_seq() == old(self).value_seq(),
    {
        proof { use_type_invariant(&*self); }
        match self.find(k) {
            None => {},
            Some(i) => {
                let mut tmp: NameMap<V> = NameMap::new();
                std::mem::swap(self, &mut tmp);
                proof { use_type_invariant(&tmp); }
                let ghost old_keys = tmp.key_seq();
                let ghost old_vals = tmp.value_seq();
                let NameMap { mut keys, mut vals } = tmp;
                proof {
                    assert(old_keys.index_of(k@) == i) by {
                        let j = old_keys.index_of(k@);
                        assert(old_keys[j] == k@);
                        if j < i { assert(keys@[j as int]@ != keys@[i as int]@); }
                        if j > i { assert(keys@[i as int]@ != keys@[j as int]@); }
                    }
                }
                keys.remove(i);
                vals.remove(i);
                let ghost new_keys = keys@.map_values(|k: String| k@);
                proof {
                    assert(new_keys =~= old_keys.remove(i as int));
                    assert forall|a: int, b: int| 0 <= a < b < keys@.len() implies keys@[a]@ != keys@[b]@ by {
                        assert(new_keys[a] == keys@[a]@);
                        assert(new_keys[b] == keys@[b]@);
                    }
                }
                *self = NameMap { keys, vals };
                proof {
                    use_type_invariant(&*self);
                    assert(self.key_seq() =~= old_keys.remove(i as int));
                    assert(self.as_map() =~= old(self).as_map().remove(k@)) by {
                        assert forall|q: Seq<char>| #[trigger] self.key_seq().contains(q) <==> (old_keys.contains(q) && q != k@) by {
                            if old_keys.contains(q) && q != k@ {
                                let j = old_keys.index_of(q);
                                if j < i { assert(self.key_seq()[j] == q); } else { assert(self.key_seq()[j - 1] == q); }
                            }
                            if self.key_seq().contains(q) {
                                let j = self.key_seq().index_of(q);
                                if j < i { assert(old_keys[j] == q); } else { assert(old_keys[j + 1] == q); }
                                if q == k@ {
                                    if j < i { assert(keys@[j]@ == old_keys[j as int]); } else { assert(old_keys[j + 1] == q); }
                                }
                            }
                        }
                        assert forall|q: Seq<char>| self.key_seq().contains(q) implies #[trigger] self.as_map()[q]
                            == old(self).as_map()[q] by {
                            let j = self.key_seq().index_of(q);
                            assert(self.as_map()[self.key_seq()[j]] == self.value_seq()[j]);
                            if j < i {
                                assert(old(self).as_map()[old_keys[j]] == old_vals[j]);
                            } else {
                                assert(old(self).as_map()[old_keys[j + 1]] == old_vals[j + 1]);
                            }
                        }
                    }
                }
            },
        }
    }

    pub fn get_mut(&mut self, k: &str) -> (r: Option<&mut V>)
        ensures
            match r {
                Some(v) => old(self).key_seq().contains(k@) && *v == old(self).as_map()[k@]
                    && final(self).key_seq() == old(self).key_seq()
                    && final(self).as_map() == old(self).as_map().insert(k@, *final(v)),
                None => !old(self).key_seq().contains(k@) && *final(self) == *old(self),
            },
    {
        proof { use_type_invariant(&*self); }
        match self.find(k) {
            Some(i) => Some(&mut self.vals[i]),
            None => None,
        }
    }
}

} // verus!
