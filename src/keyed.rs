//! Values of any type under text keys, kept as a vector of pairs with
//! unique keys.
use vstd::prelude::*;

verus! {

/// The key of the pair at position `i`.
pub open spec fn key_at<V>(s: Seq<(String, V)>, i: int) -> Seq<char> {
    s[i].0@
}

/// No key occurs twice.
pub open spec fn keys_unique<V>(s: Seq<(String, V)>) -> bool {
    forall|i: int, j: int|
        0 <= i < s.len() && 0 <= j < s.len() && i != j ==> key_at(s, i) != key_at(s, j)
}

/// The map that a sequence of pairs with unique keys stands for.
pub open spec fn pairs_view<V>(s: Seq<(String, V)>) -> Map<Seq<char>, V> {
    Map::new(
        |k: Seq<char>| exists|i: int| 0 <= i < s.len() && key_at(s, i) == k,
        |k: Seq<char>| s[choose|i: int| 0 <= i < s.len() && key_at(s, i) == k].1,
    )
}

pub proof fn lemma_view_at<V>(s: Seq<(String, V)>, i: int)
    requires
        keys_unique(s),
        0 <= i < s.len(),
    ensures
        pairs_view(s).contains_key(key_at(s, i)),
        pairs_view(s)[key_at(s, i)] == s[i].1,
{
    let k = key_at(s, i);
    assert(exists|j: int| 0 <= j < s.len() && key_at(s, j) == k);
    let j = choose|j: int| 0 <= j < s.len() && key_at(s, j) == k;
    assert(j == i);
}

pub proof fn lemma_view_absent<V>(s: Seq<(String, V)>, k: Seq<char>)
    requires
        forall|i: int| 0 <= i < s.len() ==> key_at(s, i) != k,
    ensures
        !pairs_view(s).contains_key(k),
{
}

/// Values of any type under text keys.
pub struct KeyedList<V> {
    entries: Vec<(String, V)>,
}

impl<V> KeyedList<V> {
    pub closed spec fn view(&self) -> Map<Seq<char>, V> {
        pairs_view(self.entries@)
    }

    #[verifier::type_invariant]
    closed spec fn wf(&self) -> bool {
        keys_unique(self.entries@)
    }

    pub fn new() -> (r: KeyedList<V>)
        ensures
            r@ == Map::<Seq<char>, V>::empty(),
    {
        let r = KeyedList { entries: Vec::new() };
        assert(r@ =~= Map::<Seq<char>, V>::empty());
        r
    }

    fn find(&self, key: &str) -> (r: Option<usize>)
        ensures
            r matches Some(i) ==> i < self.entries@.len() && key_at(self.entries@, i as int)
                == key@,
            r is None ==> forall|i: int|
                0 <= i < self.entries@.len() ==> key_at(self.entries@, i) != key@,
    {
        let k = String::from_str(key);
        let mut i: usize = 0;
        while i < self.entries.len()
            invariant
                k@ == key@,
                0 <= i <= self.entries@.len(),
                forall|j: int| 0 <= j < i ==> key_at(self.entries@, j) != key@,
            decreases self.entries@.len() - i,
        {
            if self.entries[i].0 == k {
                return Some(i);
            }
            i = i + 1;
        }
        None
    }

    /// The value stored under `key`, if any.
    pub fn get(&self, key: &str) -> (r: Option<&V>)
        ensures
            r is Some <==> self@.contains_key(key@),
            r matches Some(v) ==> *v == self@[key@],
    {
        proof {
            use_type_invariant(self);
        }
        match self.find(key) {
            Some(i) => {
                proof {
                    lemma_view_at(self.entries@, i as int);
                }
                Some(&self.entries[i].1)
            },
            None => {
                proof {
                    lemma_view_absent(self.entries@, key@);
                }
                None
            },
        }
    }

    /// Whether `key` is present.
    pub fn contains(&self, key: &str) -> (r: bool)
        ensures
            r == self@.contains_key(key@),
    {
        proof {
            use_type_invariant(self);
        }
        match self.find(key) {
            Some(i) => {
                proof {
                    lemma_view_at(self.entries@, i as int);
                }
                true
            },
            None => {
                proof {
                    lemma_view_absent(self.entries@, key@);
                }
                false
            },
        }
    }

    /// Stores `value` under `key`, replacing what was there.
    pub fn insert(&mut self, key: &str, value: V)
        ensures
            final(self)@ == old(self)@.insert(key@, value),
    {
        proof {
            use_type_invariant(&*self);
        }
        let ghost s0 = self.entries@;
        let ghost v = value;
        let pair = (String::from_str(key), value);
        let found = self.find(key);
        let mut entries: Vec<(String, V)> = Vec::new();
        std::mem::swap(&mut entries, &mut self.entries);
        match found {
            Some(i) => {
                entries[i] = pair;
                let ghost s1 = entries@;
                assert(s1 == s0.update(i as int, pair));
                assert(keys_unique(s1)) by {
                    assert forall|a: int, b: int|
                        0 <= a < s1.len() && 0 <= b < s1.len() && a != b implies key_at(s1, a)
                        != key_at(s1, b) by {
                        assert(key_at(s1, a) == key_at(s0, a));
                        assert(key_at(s1, b) == key_at(s0, b));
                    }
                }
                assert forall|q: Seq<char>| #[trigger]
                    pairs_view(s1).contains_key(q) == pairs_view(s0).insert(
                        key@,
                        v,
                    ).contains_key(q) by {
                    if q == key@ {
                        lemma_view_at(s1, i as int);
                    } else if pairs_view(s0).contains_key(q) {
                        let j = choose|j: int| 0 <= j < s0.len() && key_at(s0, j) == q;
                        lemma_view_at(s1, j);
                    } else {
                        assert forall|j: int| 0 <= j < s1.len() implies key_at(s1, j) != q by {
                            if j != i {
                                assert(key_at(s1, j) == key_at(s0, j));
                            }
                        }
                    }
                }
                assert forall|q: Seq<char>| #[trigger]
                    pairs_view(s1).contains_key(q) implies pairs_view(s1)[q] == pairs_view(
                    s0,
                ).insert(key@, v)[q] by {
                    let j = choose|j: int| 0 <= j < s1.len() && key_at(s1, j) == q;
                    lemma_view_at(s1, j);
                    if j != i {
                        lemma_view_at(s0, j);
                    }
                }
                assert(pairs_view(s1) =~= pairs_view(s0).insert(key@, v));
            },
            None => {
                entries.push(pair);
                let ghost s1 = entries@;
                let ghost n = s0.len() as int;
                assert(keys_unique(s1)) by {
                    assert forall|a: int, b: int|
                        0 <= a < s1.len() && 0 <= b < s1.len() && a != b implies key_at(s1, a)
                        != key_at(s1, b) by {
                        if a < n {
                            assert(key_at(s1, a) == key_at(s0, a));
                        }
                        if b < n {
                            assert(key_at(s1, b) == key_at(s0, b));
                        }
                    }
                }
                assert forall|q: Seq<char>| #[trigger]
                    pairs_view(s1).contains_key(q) == pairs_view(s0).insert(
                        key@,
                        v,
                    ).contains_key(q) by {
                    if q == key@ {
                        lemma_view_at(s1, n);
                    } else if pairs_view(s0).contains_key(q) {
                        let j = choose|j: int| 0 <= j < s0.len() && key_at(s0, j) == q;
                        lemma_view_at(s1, j);
                    } else {
                        assert forall|j: int| 0 <= j < s1.len() implies key_at(s1, j) != q by {
                            if j < n {
                                assert(key_at(s1, j) == key_at(s0, j));
                            }
                        }
                    }
                }
                assert forall|q: Seq<char>| #[trigger]
                    pairs_view(s1).contains_key(q) implies pairs_view(s1)[q] == pairs_view(
                    s0,
                ).insert(key@, v)[q] by {
                    let j = choose|j: int| 0 <= j < s1.len() && key_at(s1, j) == q;
                    lemma_view_at(s1, j);
                    if j < n {
                        lemma_view_at(s0, j);
                    }
                }
                assert(pairs_view(s1) =~= pairs_view(s0).insert(key@, v));
            },
        }
        self.entries = entries;
    }

    /// How many keys there are; each key is listed once in the storage order.
    pub fn len(&self) -> (r: usize)
        ensures
            r == self.keys_seq().len(),
            forall|k: Seq<char>| self@.contains_key(k) <==> exists|i: int| 0 <= i < self.keys_seq().len() && #[trigger] self.keys_seq()[i] == k,
            forall|i: int, j: int| 0 <= i < self.keys_seq().len() && 0 <= j < self.keys_seq().len() && i != j ==> self.keys_seq()[i] != self.keys_seq()[j],
    {
        proof {
            use_type_invariant(self);
            assert forall|k: Seq<char>| self@.contains_key(k) implies exists|i: int| 0 <= i < self.keys_seq().len() && #[trigger] self.keys_seq()[i] == k by {
                let i = choose|i: int| 0 <= i < self.entries@.len() && key_at(self.entries@, i) == k;
                assert(self.keys_seq()[i] == k);
            }
            assert forall|k: Seq<char>| (exists|i: int| 0 <= i < self.keys_seq().len() && #[trigger] self.keys_seq()[i] == k) implies self@.contains_key(k) by {
                let i = choose|i: int| 0 <= i < self.keys_seq().len() && #[trigger] self.keys_seq()[i] == k;
                assert(key_at(self.entries@, i) == k);
            }
            assert forall|i: int, j: int| 0 <= i < self.keys_seq().len() && 0 <= j < self.keys_seq().len() && i != j implies self.keys_seq()[i] != self.keys_seq()[j] by {
                assert(key_at(self.entries@, i) == self.keys_seq()[i]);
                assert(key_at(self.entries@, j) == self.keys_seq()[j]);
            }
        }
        self.entries.len()
    }

    /// The keys in storage order.
    pub closed spec fn keys_seq(&self) -> Seq<Seq<char>> {
        self.entries@.map_values(|p: (String, V)| p.0@)
    }

    /// The key and value at position `i` of the storage order.
    pub fn entry_at(&self, i: usize) -> (r: (&String, &V))
        requires
            i < self.keys_seq().len(),
        ensures
            r.0@ == self.keys_seq()[i as int],
            self@.contains_key(r.0@),
            *r.1 == self@[r.0@],
    {
        proof {
            use_type_invariant(self);
            lemma_view_at(self.entries@, i as int);
        }
        (&self.entries[i].0, &self.entries[i].1)
    }

    /// Removes `key` and its value; nothing happens when it is absent.
    pub fn remove(&mut self, key: &str)
        ensures
            final(self)@ == old(self)@.remove(key@),
    {
        proof {
            use_type_invariant(&*self);
        }
        let ghost s0 = self.entries@;
        let found = self.find(key);
        let mut entries: Vec<(String, V)> = Vec::new();
        std::mem::swap(&mut entries, &mut self.entries);
        match found {
            Some(i) => {
                entries.remove(i);
                let ghost s1 = entries@;
                let ghost ii = i as int;
                assert forall|j: int| 0 <= j < s1.len() implies #[trigger] key_at(s1, j) == key_at(
                    s0,
                    if j < ii {
                        j
                    } else {
                        j + 1
                    },
                ) by {}
                assert(keys_unique(s1)) by {
                    assert forall|a: int, b: int|
                        0 <= a < s1.len() && 0 <= b < s1.len() && a != b implies key_at(s1, a)
                        != key_at(s1, b) by {
                        assert(key_at(s1, a) == key_at(s0, if a < ii { a } else { a + 1 }));
                        assert(key_at(s1, b) == key_at(s0, if b < ii { b } else { b + 1 }));
                    }
                }
                assert forall|q: Seq<char>| #[trigger]
                    pairs_view(s1).contains_key(q) == pairs_view(s0).remove(key@).contains_key(
                        q,
                    ) by {
                    if q == key@ {
                        assert forall|j: int| 0 <= j < s1.len() implies key_at(s1, j) != q by {
                            assert(key_at(s1, j) == key_at(s0, if j < ii { j } else { j + 1 }));
                        }
                    } else if pairs_view(s0).contains_key(q) {
                        let j = choose|j: int| 0 <= j < s0.len() && key_at(s0, j) == q;
                        assert(j != ii);
                        let j1 = if j < ii { j } else { j - 1 };
                        assert(key_at(s1, j1) == q);
                    } else {
                        assert forall|j: int| 0 <= j < s1.len() implies key_at(s1, j) != q by {
                            assert(key_at(s1, j) == key_at(s0, if j < ii { j } else { j + 1 }));
                        }
                    }
                }
                assert forall|q: Seq<char>| #[trigger]
                    pairs_view(s1).contains_key(q) implies pairs_view(s1)[q] == pairs_view(
                    s0,
                ).remove(key@)[q] by {
                    let j = choose|j: int| 0 <= j < s1.len() && key_at(s1, j) == q;
                    lemma_view_at(s1, j);
                    let j0 = if j < ii { j } else { j + 1 };
                    assert(s1[j] == s0[j0]);
                    lemma_view_at(s0, j0);
                }
                assert(pairs_view(s1) =~= pairs_view(s0).remove(key@));
            },
            None => {
                proof {
                    lemma_view_absent(s0, key@);
                }
                assert(pairs_view(s0) =~= pairs_view(s0).remove(key@));
            },
        }
        self.entries = entries;
    }
}

} // verus!
