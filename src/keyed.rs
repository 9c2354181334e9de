use vstd::prelude::*;

verus! {

/// One row of a [`KeyedTable`].
pub struct Entry<V> {
    pub key: String,
    pub value: V,
}

/// A table with at most one row per key, the storage primitive behind the
/// single-row-per-key stores. Its model is a map from key text to value.
pub struct KeyedTable<V> {
    entries: Vec<Entry<V>>,
    contents: Ghost<Map<Seq<char>, V>>,
}

/// The map after an insert-or-replace of `v` under `k`.
pub open spec fn upserted<V>(m: Map<Seq<char>, V>, k: Seq<char>, v: V) -> Map<Seq<char>, V> {
    m.insert(k, v)
}

/// What a read of `k` yields: the value under it, if any.
pub open spec fn fetched<V>(m: Map<Seq<char>, V>, k: Seq<char>) -> Option<V> {
    if m.contains_key(k) {
        Some(m[k])
    } else {
        None
    }
}

impl<V> View for KeyedTable<V> {
    type V = Map<Seq<char>, V>;

    closed spec fn view(&self) -> Map<Seq<char>, V> {
        self.contents@
    }
}

impl<V> KeyedTable<V> {
    /// Rows have distinct keys, and the model holds exactly the rows.
    pub closed spec fn wf(&self) -> bool {
        &&& forall|i: int, j: int|
            0 <= i < self.entries@.len() && 0 <= j < self.entries@.len() && i != j
                ==> self.entries@[i].key@ != self.entries@[j].key@
        &&& forall|i: int|
            0 <= i < self.entries@.len() ==> #[trigger] self.contents@.contains_key(
                self.entries@[i].key@,
            ) && self.contents@[self.entries@[i].key@] == self.entries@[i].value
        &&& forall|k: Seq<char>|
            #[trigger] self.contents@.contains_key(k) ==> exists|i: int|
                0 <= i < self.entries@.len() && self.entries@[i].key@ == k
    }

    /// An empty table.
    pub fn new() -> (r: Self)
        ensures
            r.wf(),
            r@ == Map::<Seq<char>, V>::empty(),
    {
        KeyedTable { entries: Vec::new(), contents: Ghost(Map::empty()) }
    }

    /// The row index that holds `key`, if any.
    fn position(&self, key: &String) -> (r: Option<usize>)
        requires
            self.wf(),
        ensures
            match r {
                Some(i) => i < self.entries@.len() && self.entries@[i as int].key@ == key@,
                None => !self@.contains_key(key@),
            },
    {
        let mut i: usize = 0;
        while i < self.entries.len()
            invariant
                self.wf(),
                i <= self.entries@.len(),
                forall|j: int| 0 <= j < i ==> self.entries@[j].key@ != key@,
            decreases self.entries@.len() - i,
        {
            if self.entries[i].key == *key {
                return Some(i);
            }
            i = i + 1;
        }
        None
    }

    /// Whether a row with `key` exists.
    pub fn contains(&self, key: &String) -> (r: bool)
        requires
            self.wf(),
        ensures
            r == self@.contains_key(key@),
    {
        match self.position(key) {
            Some(i) => {
                assert(self.contents@.contains_key(self.entries@[i as int].key@));
                true
            },
            None => false,
        }
    }

    /// The value under `key`, if any.
    pub fn get(&self, key: &String) -> (r: Option<&V>)
        requires
            self.wf(),
        ensures
            match r {
                Some(v) => fetched(self@, key@) == Some(*v),
                None => fetched(self@, key@) == None::<V>,
            },
    {
        match self.position(key) {
            Some(i) => {
                assert(self.contents@.contains_key(self.entries@[i as int].key@));
                Some(&self.entries[i].value)
            },
            None => None,
        }
    }

    /// Insert-or-replace: afterwards `key` holds `value`, whatever it held
    /// before; no other key changes.
    pub fn upsert(&mut self, key: String, value: V)
        requires
            old(self).wf(),
        ensures
            final(self).wf(),
            final(self)@ == upserted(old(self)@, key@, value),
    {
        let ghost k = key@;
        let ghost v = value;
        let ghost idx: int;
        match self.position(&key) {
            Some(i) => {
                self.entries.set(i, Entry { key, value });
                proof {
                    idx = i as int;
                }
            },
            None => {
                self.entries.push(Entry { key, value });
                proof {
                    idx = self.entries@.len() - 1;
                }
            },
        }
        self.contents = Ghost(self.contents@.insert(k, v));
        assert(self.entries@[idx].key@ == k);
        assert forall|k2: Seq<char>| #[trigger] self.contents@.contains_key(k2) implies exists|
            i: int,
        | 0 <= i < self.entries@.len() && self.entries@[i].key@ == k2 by {
            if k2 != k {
                let i = choose|i: int|
                    0 <= i < old(self).entries@.len() && old(self).entries@[i].key@ == k2;
                assert(self.entries@[i].key@ == k2);
            } else {
                assert(self.entries@[idx].key@ == k2);
            }
        }
    }

    /// Deletes the row under `key`, if there is one; no other key changes.
    pub fn remove(&mut self, key: &String)
        requires
            old(self).wf(),
        ensures
            final(self).wf(),
            final(self)@ == old(self)@.remove(key@),
    {
        match self.position(key) {
            Some(i) => {
                let ghost old_entries = self.entries@;
                self.entries.remove(i);
                self.contents = Ghost(self.contents@.remove(key@));
                assert forall|k2: Seq<char>| #[trigger]
                    self.contents@.contains_key(k2) implies exists|j: int|
                    0 <= j < self.entries@.len() && self.entries@[j].key@ == k2 by {
                    let j = choose|j: int|
                        0 <= j < old_entries.len() && old_entries[j].key@ == k2;
                    if j < i {
                        assert(self.entries@[j].key@ == k2);
                    } else {
                        assert(j != i);
                        assert(self.entries@[j - 1].key@ == k2);
                    }
                }
            },
            None => {
                assert(self.contents@.remove(key@) =~= self.contents@);
            },
        }
    }
}

} // verus!
