use vstd::prelude::*;

verus! {

/// Whether no two entries share a key.
pub open spec fn keys_unique<V>(s: Seq<(String, V)>) -> bool {
    forall|i: int, j: int|
        0 <= i < s.len() && 0 <= j < s.len() && i != j ==> #[trigger] s[i].0@ != #[trigger] s[j].0@
}

/// Whether some entry has this key.
pub open spec fn has_key<V>(s: Seq<(String, V)>, k: Seq<char>) -> bool {
    exists|i: int| 0 <= i < s.len() && #[trigger] s[i].0@ == k
}

/// The map from key to value that a list of entries with unique keys
/// stands for.
pub open spec fn entries_map<V>(s: Seq<(String, V)>) -> Map<Seq<char>, V> {
    Map::new(
        |k: Seq<char>| has_key(s, k),
        |k: Seq<char>| s[choose|i: int| 0 <= i < s.len() && #[trigger] s[i].0@ == k].1,
    )
}

/// Entry `i` of a list with unique keys is what the map holds for its key.
pub proof fn lemma_entry_in_map<V>(s: Seq<(String, V)>, i: int)
    requires
        keys_unique(s),
        0 <= i < s.len(),
    ensures
        entries_map(s).contains_key(s[i].0@),
        entries_map(s)[s[i].0@] == s[i].1,
{
    let k = s[i].0@;
    assert(has_key(s, k));
    let j = choose|j: int| 0 <= j < s.len() && #[trigger] s[j].0@ == k;
    assert(s[j].0@ == k);
}

/// A map from text keys to values, kept as a list of entries in which no
/// key occurs twice.
#[verifier::reject_recursive_types(V)]
#[derive(Debug)]
pub struct Table<V> {
    entries: Vec<(String, V)>,
}

impl<V> Table<V> {
    /// The entries, in the order in which the table keeps them.
    pub closed spec fn spec_entries(&self) -> Seq<(String, V)> {
        self.entries@
    }

    /// No key occurs twice among the entries.
    #[verifier::type_invariant]
    pub open spec fn well_formed(&self) -> bool {
        keys_unique(self.spec_entries())
    }
}

impl<V: Clone> Clone for Table<V> {
    /// A table with the same keys, in the same order, each with a clone of
    /// its value.
    fn clone(&self) -> (r: Self)
        ensures
            r.spec_entries().len() == self.spec_entries().len(),
            forall|i: int|
                0 <= i < self.spec_entries().len() ==> (#[trigger] r.spec_entries()[i]).0 == self.spec_entries()[i].0
                    && vstd::pervasive::cloned::<V>(self.spec_entries()[i].1, r.spec_entries()[i].1),
            r@.dom() == self@.dom(),
    {
        proof {
            use_type_invariant(self);
        }
        let mut entries: Vec<(String, V)> = Vec::new();
        let mut i: usize = 0;
        while i < self.entries.len()
            invariant
                i <= self.entries@.len(),
                keys_unique(self.entries@),
                entries@.len() == i,
                forall|j: int|
                    0 <= j < i ==> (#[trigger] entries@[j]).0 == self.entries@[j].0
                        && vstd::pervasive::cloned::<V>(self.entries@[j].1, entries@[j].1),
            decreases self.entries@.len() - i,
        {
            let e = &self.entries[i];
            entries.push((e.0.clone(), e.1.clone()));
            i = i + 1;
        }
        assert(keys_unique(entries@)) by {
            assert forall|a: int, b: int|
                0 <= a < entries@.len() && 0 <= b < entries@.len() && a != b
                implies #[trigger] entries@[a].0@ != #[trigger] entries@[b].0@
            by {
                assert(self.entries@[a].0@ != self.entries@[b].0@);
            }
        }
        let r = Table { entries };
        assert forall|k: Seq<char>| has_key(r.entries@, k) == has_key(self.entries@, k) by {
            if has_key(r.entries@, k) {
                let j = choose|j: int| 0 <= j < r.entries@.len() && #[trigger] r.entries@[j].0@ == k;
                assert(self.entries@[j].0@ == k);
            }
            if has_key(self.entries@, k) {
                let j = choose|j: int| 0 <= j < self.entries@.len() && #[trigger] self.entries@[j].0@ == k;
                assert(r.entries@[j].0@ == k);
            }
        }
        assert(r@.dom() =~= self@.dom());
        r
    }
}

impl<V> View for Table<V> {
    type V = Map<Seq<char>, V>;

    open spec fn view(&self) -> Map<Seq<char>, V> {
        entries_map(self.spec_entries())
    }
}

impl<V> Table<V> {
    /// An empty table.
    pub fn new() -> (t: Self)
        ensures
            t@ == Map::<Seq<char>, V>::empty(),
            t.spec_entries().len() == 0,
    {
        let t = Table { entries: Vec::new() };
        assert(t@ =~= Map::<Seq<char>, V>::empty());
        t
    }

    /// The number of entries.
    pub fn len(&self) -> (n: usize)
        ensures
            n == self.spec_entries().len(),
    {
        self.entries.len()
    }

    /// Whether the table holds no entry.
    pub fn is_empty(&self) -> (b: bool)
        ensures
            b == (self@ == Map::<Seq<char>, V>::empty()),
            b == (self.spec_entries().len() == 0),
    {
        proof {
            use_type_invariant(self);
        }
        if self.entries.len() == 0 {
            assert(self@ =~= Map::<Seq<char>, V>::empty());
            true
        } else {
            proof {
                lemma_entry_in_map(self.entries@, 0);
            }
            false
        }
    }

    /// The position of the entry with this key, if any.
    fn find(&self, key: &String) -> (r: Option<usize>)
        ensures
            match r {
                Some(i) => i < self.spec_entries().len() && self.spec_entries()[i as int].0@ == key@,
                None => !has_key(self.spec_entries(), key@),
            },
    {
        let mut i: usize = 0;
        while i < self.entries.len()
            invariant
                i <= self.entries@.len(),
                forall|j: int| 0 <= j < i ==> #[trigger] self.entries@[j].0@ != key@,
            decreases self.entries@.len() - i,
        {
            if self.entries[i].0 == *key {
                return Some(i);
            }
            i = i + 1;
        }
        None
    }

    /// Whether some entry has this key.
    pub fn contains_key(&self, key: &str) -> (b: bool)
        ensures
            b == self@.contains_key(key@),
    {
        let k = key.to_owned();
        match self.find(&k) {
            Some(_) => true,
            None => false,
        }
    }

    /// The value held under this key, if any.
    pub fn get(&self, key: &str) -> (r: Option<&V>)
        ensures
            match r {
                Some(v) => self@.contains_key(key@) && *v == self@[key@],
                None => !self@.contains_key(key@),
            },
    {
        proof {
            use_type_invariant(self);
        }
        let k = key.to_owned();
        match self.find(&k) {
            Some(i) => {
                proof {
                    lemma_entry_in_map(self.entries@, i as int);
                }
                Some(&self.entries[i].1)
            },
            None => None,
        }
    }

    /// Entry `i`, in the order in which the table keeps its entries.
    pub fn entry_at(&self, i: usize) -> (r: (&String, &V))
        requires
            i < self.spec_entries().len(),
        ensures
            *r.0 == self.spec_entries()[i as int].0,
            *r.1 == self.spec_entries()[i as int].1,
    {
        let e = &self.entries[i];
        (&e.0, &e.1)
    }

    /// Puts `value` under `key`, in place of any value held there before.
    pub fn insert(&mut self, key: String, value: V)
        ensures
            final(self)@ == old(self)@.insert(key@, value),
    {
        proof {
            use_type_invariant(&*self);
        }
        let ghost old_entries = self.entries@;
        let ghost k = key@;
        let ghost mut pos: int = 0;
        match self.find(&key) {
            Some(i) => {
                let mut entries: Vec<(String, V)> = Vec::new();
                std::mem::swap(&mut entries, &mut self.entries);
                let _ = entries.remove(i);
                entries.insert(i, (key, value));
                assert(entries@ == old_entries.update(i as int, (key, value)));
                proof {
                    pos = i as int;
                }
                assert forall|a: int, b: int|
                    0 <= a < entries@.len() && 0 <= b < entries@.len() && a != b
                    implies #[trigger] entries@[a].0@ != #[trigger] entries@[b].0@
                by {
                    if a != i && b != i {
                        assert(old_entries[a].0@ != old_entries[b].0@);
                    } else if a == i {
                        assert(old_entries[i as int].0@ != old_entries[b].0@);
                    } else {
                        assert(old_entries[a].0@ != old_entries[i as int].0@);
                    }
                }
                self.entries = entries;
            },
            None => {
                let mut entries: Vec<(String, V)> = Vec::new();
                std::mem::swap(&mut entries, &mut self.entries);
                entries.push((key, value));
                assert(entries@ == old_entries.push((key, value)));
                proof {
                    pos = old_entries.len() as int;
                }
                assert forall|a: int, b: int|
                    0 <= a < entries@.len() && 0 <= b < entries@.len() && a != b
                    implies #[trigger] entries@[a].0@ != #[trigger] entries@[b].0@
                by {
                    if a < old_entries.len() && b < old_entries.len() {
                        assert(old_entries[a].0@ != old_entries[b].0@);
                    } else if a < old_entries.len() {
                        assert(old_entries[a].0@ == entries@[a].0@);
                    } else {
                        assert(old_entries[b].0@ == entries@[b].0@);
                    }
                }
                self.entries = entries;
            },
        }
        proof {
            let s = self.entries@;
            assert(0 <= pos < s.len() && s[pos].0@ == k && s[pos].1 == value);
            assert(forall|j: int| 0 <= j < old_entries.len() && j != pos ==> s[j] == old_entries[j]);
            let m = old(self)@.insert(k, value);
            assert forall|q: Seq<char>| #[trigger] m.contains_key(q) implies entries_map(s).contains_key(q)
                && entries_map(s)[q] == m[q] by {
                if q == k {
                    lemma_entry_in_map(s, pos);
                } else {
                    let j = choose|j: int| 0 <= j < old_entries.len() && #[trigger] old_entries[j].0@ == q;
                    lemma_entry_in_map(old_entries, j);
                    assert(s[j].0@ == q);
                    lemma_entry_in_map(s, j);
                }
            }
            assert forall|q: Seq<char>| #[trigger] entries_map(s).contains_key(q) implies m.contains_key(q) by {
                let j = choose|j: int| 0 <= j < s.len() && #[trigger] s[j].0@ == q;
                if q != k {
                    assert(old_entries[j].0@ == q);
                }
            }
            assert(entries_map(s) =~= m);
        }
    }

    /// Takes out the value held under `key`, if any.
    pub fn remove(&mut self, key: &str) -> (r: Option<V>)
        ensures
            match r {
                Some(v) => old(self)@.contains_key(key@) && v == old(self)@[key@]
                    && final(self)@ == old(self)@.remove(key@),
                None => !old(self)@.contains_key(key@) && final(self)@ == old(self)@,
            },
    {
        proof {
            use_type_invariant(&*self);
        }
        let ghost old_entries = self.entries@;
        let k = key.to_owned();
        match self.find(&k) {
            Some(i) => {
                proof {
                    lemma_entry_in_map(old_entries, i as int);
                }
                let mut entries: Vec<(String, V)> = Vec::new();
                std::mem::swap(&mut entries, &mut self.entries);
                let (_, v) = entries.remove(i);
                assert(entries@ == old_entries.remove(i as int));
                assert forall|a: int, b: int|
                    0 <= a < entries@.len() && 0 <= b < entries@.len() && a != b
                    implies #[trigger] entries@[a].0@ != #[trigger] entries@[b].0@
                by {
                    let a2 = if a < i { a } else { a + 1 };
                    let b2 = if b < i { b } else { b + 1 };
                    assert(old_entries[a2].0@ != old_entries[b2].0@);
                }
                self.entries = entries;
                proof {
                    let s = self.entries@;
                    assert(s == old_entries.remove(i as int));
                    let m = old(self)@.remove(key@);
                    assert forall|q: Seq<char>| #[trigger] m.contains_key(q) implies entries_map(s).contains_key(q)
                        && entries_map(s)[q] == m[q] by {
                        let j = choose|j: int| 0 <= j < old_entries.len() && #[trigger] old_entries[j].0@ == q;
                        lemma_entry_in_map(old_entries, j);
                        if j < i {
                            assert(s[j].0@ == q);
                            lemma_entry_in_map(s, j);
                        } else {
                            assert(j != i);
                            assert(s[j - 1].0@ == q);
                            lemma_entry_in_map(s, j - 1);
                        }
                    }
                    assert forall|q: Seq<char>| #[trigger] entries_map(s).contains_key(q) implies m.contains_key(q) by {
                        let j = choose|j: int| 0 <= j < s.len() && #[trigger] s[j].0@ == q;
                        if j < i {
                            assert(old_entries[j].0@ == q);
                            assert(old_entries[i as int].0@ != old_entries[j].0@);
                        } else {
                            assert(old_entries[j + 1].0@ == q);
                            assert(old_entries[i as int].0@ != old_entries[j + 1].0@);
                        }
                    }
                    assert(entries_map(s) =~= m);
                }
                Some(v)
            },
            None => None,
        }
    }

    /// Hands out the entries, in the order in which the table kept them.
    pub fn into_entries(self) -> (r: Vec<(String, V)>)
        ensures
            r@ == self.spec_entries(),
            keys_unique(r@),
    {
        proof {
            use_type_invariant(&self);
        }
        self.entries
    }
}

} // verus!
