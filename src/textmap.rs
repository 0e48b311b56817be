//! A map from text keys to text values, kept as a vector of pairs with
//! unique keys, and the text helpers that key lookups need.
use vstd::prelude::*;

verus! {

/// The key of the pair at position `i`.
pub open spec fn key_at(s: Seq<(String, String)>, i: int) -> Seq<char> {
    s[i].0@
}

/// No key occurs twice.
pub open spec fn keys_unique(s: Seq<(String, String)>) -> bool {
    forall|i: int, j: int|
        0 <= i < s.len() && 0 <= j < s.len() && i != j ==> key_at(s, i) != key_at(s, j)
}

/// The map that a sequence of pairs with unique keys stands for.
pub open spec fn pairs_view(s: Seq<(String, String)>) -> Map<Seq<char>, Seq<char>> {
    Map::new(
        |k: Seq<char>| exists|i: int| 0 <= i < s.len() && key_at(s, i) == k,
        |k: Seq<char>| s[choose|i: int| 0 <= i < s.len() && key_at(s, i) == k].1@,
    )
}

/// Every listed key is in `m` and starts with `prefix`, every such key of `m`
/// is listed, and none is listed twice.
pub open spec fn lists_prefixed_keys(
    ks: Seq<String>,
    m: Map<Seq<char>, Seq<char>>,
    prefix: Seq<char>,
) -> bool {
    &&& forall|i: int|
        0 <= i < ks.len() ==> m.contains_key(#[trigger] ks[i]@) && prefix.is_prefix_of(ks[i]@)
    &&& forall|k: Seq<char>|
        #[trigger] m.contains_key(k) && prefix.is_prefix_of(k) ==> exists|i: int|
            0 <= i < ks.len() && ks[i]@ == k
    &&& forall|i: int, j: int| 0 <= i < ks.len() && 0 <= j < ks.len() && i != j ==> ks[i]@ != ks[j]@
}

pub proof fn lemma_view_at(s: Seq<(String, String)>, i: int)
    requires
        keys_unique(s),
        0 <= i < s.len(),
    ensures
        pairs_view(s).contains_key(key_at(s, i)),
        pairs_view(s)[key_at(s, i)] == s[i].1@,
{
    let k = key_at(s, i);
    assert(exists|j: int| 0 <= j < s.len() && key_at(s, j) == k);
    let j = choose|j: int| 0 <= j < s.len() && key_at(s, j) == k;
    assert(j == i);
}

pub proof fn lemma_view_absent(s: Seq<(String, String)>, k: Seq<char>)
    requires
        forall|i: int| 0 <= i < s.len() ==> key_at(s, i) != k,
    ensures
        !pairs_view(s).contains_key(k),
{
}

/// Whether `p` is a prefix of `s`.
pub fn has_prefix(s: &str, p: &str) -> (r: bool)
    ensures
        r == p@.is_prefix_of(s@),
{
    let n = p.unicode_len();
    let m = s.unicode_len();
    if n > m {
        return false;
    }
    let mut i: usize = 0;
    while i < n
        invariant
            n == p@.len(),
            m == s@.len(),
            n <= m,
            0 <= i <= n,
            forall|j: int| 0 <= j < i ==> s@[j] == p@[j],
        decreases n - i,
    {
        if s.get_char(i) != p.get_char(i) {
            return false;
        }
        i = i + 1;
    }
    assert(p@ =~= s@.subrange(0, p@.len() as int));
    true
}

/// Whether `p` is a suffix of `s`.
pub fn has_suffix(s: &str, p: &str) -> (r: bool)
    ensures
        r == (p@.len() <= s@.len() && s@.subrange(s@.len() - p@.len(), s@.len() as int) == p@),
{
    let n = p.unicode_len();
    let m = s.unicode_len();
    if n > m {
        return false;
    }
    let off = m - n;
    let mut i: usize = 0;
    while i < n
        invariant
            n == p@.len(),
            m == s@.len(),
            n <= m,
            off == m - n,
            0 <= i <= n,
            forall|j: int| 0 <= j < i ==> s@[off + j] == p@[j],
        decreases n - i,
    {
        if s.get_char(off + i) != p.get_char(i) {
            assert(s@.subrange(off as int, m as int)[i as int] != p@[i as int]);
            return false;
        }
        i = i + 1;
    }
    assert(s@.subrange(off as int, m as int) =~= p@);
    true
}

/// Text keys mapped to text values.
pub struct TextMap {
    entries: Vec<(String, String)>,
}

impl TextMap {
    pub closed spec fn view(&self) -> Map<Seq<char>, Seq<char>> {
        pairs_view(self.entries@)
    }

    #[verifier::type_invariant]
    closed spec fn wf(&self) -> bool {
        keys_unique(self.entries@)
    }

    pub fn new() -> (r: TextMap)
        ensures
            r@ == Map::<Seq<char>, Seq<char>>::empty(),
    {
        let r = TextMap { entries: Vec::new() };
        assert(r@ =~= Map::<Seq<char>, Seq<char>>::empty());
        r
    }

    fn find(&self, key: &str) -> (r: Option<usize>)
        ensures
            r matches Some(i) ==> i < self.entries@.len() && key_at(self.entries@, i as int)
                == key@,
            r is None ==> forall|i: int|
                0 <= i < self.entries@.len() ==> key_at(self.entries@, i) != key@,
    {
        let k = String::from_str(key);
        let mut i: usize = 0;
        while i < self.entries.len()
            invariant
                k@ == key@,
                0 <= i <= self.entries@.len(),
                forall|j: int| 0 <= j < i ==> key_at(self.entries@, j) != key@,
            decreases self.entries@.len() - i,
        {
            if self.entries[i].0 == k {
                return Some(i);
            }
            i = i + 1;
        }
        None
    }

    /// The value stored under `key`, if any.
    pub fn get(&self, key: &str) -> (r: Option<String>)
        ensures
            r is Some <==> self@.contains_key(key@),
            r matches Some(v) ==> v@ == self@[key@],
    {
        proof {
            use_type_invariant(self);
        }
        match self.find(key) {
            Some(i) => {
                proof {
                    lemma_view_at(self.entries@, i as int);
                }
                Some(self.entries[i].1.clone())
            },
            None => {
                proof {
                    lemma_view_absent(self.entries@, key@);
                }
                None
            },
        }
    }

    /// Whether `key` is present.
    pub fn contains(&self, key: &str) -> (r: bool)
        ensures
            r == self@.contains_key(key@),
    {
        proof {
            use_type_invariant(self);
        }
        match self.find(key) {
            Some(i) => {
                proof {
                    lemma_view_at(self.entries@, i as int);
                }
                true
            },
            None => {
                proof {
                    lemma_view_absent(self.entries@, key@);
                }
                false
            },
        }
    }

    /// Stores `value` under `key`, replacing what was there.
    pub fn insert(&mut self, key: &str, value: &str)
        ensures
            final(self)@ == old(self)@.insert(key@, value@),
    {
        proof {
            use_type_invariant(&*self);
        }
        let ghost s0 = self.entries@;
        let pair = (String::from_str(key), String::from_str(value));
        let found = self.find(key);
        let mut entries: Vec<(String, String)> = Vec::new();
        std::mem::swap(&mut entries, &mut self.entries);
        match found {
            Some(i) => {
                entries[i] = pair;
                let ghost s1 = entries@;
                assert(s1 == s0.update(i as int, pair));
                assert(keys_unique(s1)) by {
                    assert forall|a: int, b: int|
                        0 <= a < s1.len() && 0 <= b < s1.len() && a != b implies key_at(s1, a)
                        != key_at(s1, b) by {
                        assert(key_at(s1, a) == key_at(s0, a));
                        assert(key_at(s1, b) == key_at(s0, b));
                    }
                }
                assert forall|q: Seq<char>| #[trigger]
                    pairs_view(s1).contains_key(q) == pairs_view(s0).insert(
                        key@,
                        value@,
                    ).contains_key(q) by {
                    if q == key@ {
                        lemma_view_at(s1, i as int);
                    } else if pairs_view(s0).contains_key(q) {
                        let j = choose|j: int| 0 <= j < s0.len() && key_at(s0, j) == q;
                        lemma_view_at(s1, j);
                    } else {
                        assert forall|j: int| 0 <= j < s1.len() implies key_at(s1, j) != q by {
                            if j != i {
                                assert(key_at(s1, j) == key_at(s0, j));
                            }
                        }
                    }
                }
                assert forall|q: Seq<char>| #[trigger]
                    pairs_view(s1).contains_key(q) implies pairs_view(s1)[q] == pairs_view(
                    s0,
                ).insert(key@, value@)[q] by {
                    let j = choose|j: int| 0 <= j < s1.len() && key_at(s1, j) == q;
                    lemma_view_at(s1, j);
                    if j != i {
                        lemma_view_at(s0, j);
                    }
                }
                assert(pairs_view(s1) =~= pairs_view(s0).insert(key@, value@));
            },
            None => {
                entries.push(pair);
                let ghost s1 = entries@;
                let ghost n = s0.len() as int;
                assert(keys_unique(s1)) by {
                    assert forall|a: int, b: int|
                        0 <= a < s1.len() && 0 <= b < s1.len() && a != b implies key_at(s1, a)
                        != key_at(s1, b) by {
                        if a < n {
                            assert(key_at(s1, a) == key_at(s0, a));
                        }
                        if b < n {
                            assert(key_at(s1, b) == key_at(s0, b));
                        }
                    }
                }
                assert forall|q: Seq<char>| #[trigger]
                    pairs_view(s1).contains_key(q) == pairs_view(s0).insert(
                        key@,
                        value@,
                    ).contains_key(q) by {
                    if q == key@ {
                        lemma_view_at(s1, n);
                    } else if pairs_view(s0).contains_key(q) {
                        let j = choose|j: int| 0 <= j < s0.len() && key_at(s0, j) == q;
                        lemma_view_at(s1, j);
                    } else {
                        assert forall|j: int| 0 <= j < s1.len() implies key_at(s1, j) != q by {
                            if j < n {
                                assert(key_at(s1, j) == key_at(s0, j));
                            }
                        }
                    }
                }
                assert forall|q: Seq<char>| #[trigger]
                    pairs_view(s1).contains_key(q) implies pairs_view(s1)[q] == pairs_view(
                    s0,
                ).insert(key@, value@)[q] by {
                    let j = choose|j: int| 0 <= j < s1.len() && key_at(s1, j) == q;
                    lemma_view_at(s1, j);
                    if j < n {
                        lemma_view_at(s0, j);
                    }
                }
                assert(pairs_view(s1) =~= pairs_view(s0).insert(key@, value@));
            },
        }
        self.entries = entries;
    }

    /// Removes `key` and its value; nothing happens when it is absent.
    pub fn remove(&mut self, key: &str)
        ensures
            final(self)@ == old(self)@.remove(key@),
    {
        proof {
            use_type_invariant(&*self);
        }
        let ghost s0 = self.entries@;
        let found = self.find(key);
        let mut entries: Vec<(String, String)> = Vec::new();
        std::mem::swap(&mut entries, &mut self.entries);
        match found {
            Some(i) => {
                entries.remove(i);
                let ghost s1 = entries@;
                let ghost ii = i as int;
                assert forall|j: int| 0 <= j < s1.len() implies #[trigger] key_at(s1, j) == key_at(
                    s0,
                    if j < ii {
                        j
                    } else {
                        j + 1
                    },
                ) by {}
                assert(keys_unique(s1)) by {
                    assert forall|a: int, b: int|
                        0 <= a < s1.len() && 0 <= b < s1.len() && a != b implies key_at(s1, a)
                        != key_at(s1, b) by {
                        assert(key_at(s1, a) == key_at(s0, if a < ii { a } else { a + 1 }));
                        assert(key_at(s1, b) == key_at(s0, if b < ii { b } else { b + 1 }));
                    }
                }
                assert forall|q: Seq<char>| #[trigger]
                    pairs_view(s1).contains_key(q) == pairs_view(s0).remove(key@).contains_key(
                        q,
                    ) by {
                    if q == key@ {
                        assert forall|j: int| 0 <= j < s1.len() implies key_at(s1, j) != q by {
                            assert(key_at(s1, j) == key_at(s0, if j < ii { j } else { j + 1 }));
                        }
                    } else if pairs_view(s0).contains_key(q) {
                        let j = choose|j: int| 0 <= j < s0.len() && key_at(s0, j) == q;
                        assert(j != ii);
                        let j1 = if j < ii { j } else { j - 1 };
                        assert(key_at(s1, j1) == q);
                    } else {
                        assert forall|j: int| 0 <= j < s1.len() implies key_at(s1, j) != q by {
                            assert(key_at(s1, j) == key_at(s0, if j < ii { j } else { j + 1 }));
                        }
                    }
                }
                assert forall|q: Seq<char>| #[trigger]
                    pairs_view(s1).contains_key(q) implies pairs_view(s1)[q] == pairs_view(
                    s0,
                ).remove(key@)[q] by {
                    let j = choose|j: int| 0 <= j < s1.len() && key_at(s1, j) == q;
                    lemma_view_at(s1, j);
                    let j0 = if j < ii { j } else { j + 1 };
                    assert(s1[j] == s0[j0]);
                    lemma_view_at(s0, j0);
                }
                assert(pairs_view(s1) =~= pairs_view(s0).remove(key@));
            },
            None => {
                proof {
                    lemma_view_absent(s0, key@);
                }
                assert(pairs_view(s0) =~= pairs_view(s0).remove(key@));
            },
        }
        self.entries = entries;
    }

    /// Every key that starts with `prefix`, each once, in storage order.
    pub fn keys_with_prefix(&self, prefix: &str) -> (r: Vec<String>)
        ensures
            lists_prefixed_keys(r@, self@, prefix@),
    {
        proof {
            use_type_invariant(self);
        }
        let ghost s = self.entries@;
        let mut out: Vec<String> = Vec::new();
        let ghost mut idx: Seq<int> = Seq::empty();
        let mut i: usize = 0;
        while i < self.entries.len()
            invariant
                s == self.entries@,
                keys_unique(s),
                0 <= i <= s.len(),
                idx.len() == out@.len(),
                forall|a: int|
                    0 <= a < idx.len() ==> 0 <= #[trigger] idx[a] < i && out@[a]@ == key_at(
                        s,
                        idx[a],
                    ) && prefix@.is_prefix_of(out@[a]@),
                forall|a: int, b: int| 0 <= a < b < idx.len() ==> idx[a] < idx[b],
                forall|j: int|
                    0 <= j < i && prefix@.is_prefix_of(#[trigger] key_at(s, j)) ==> exists|a: int|
                        0 <= a < idx.len() && idx[a] == j,
            decreases s.len() - i,
        {
            let ghost idx0 = idx;
            if has_prefix(self.entries[i].0.as_str(), prefix) {
                out.push(self.entries[i].0.clone());
                proof {
                    idx = idx.push(i as int);
                }
            }
            assert forall|j: int|
                0 <= j < i + 1 && prefix@.is_prefix_of(#[trigger] key_at(s, j)) implies exists|a: int|
                0 <= a < idx.len() && idx[a] == j by {
                if j < i {
                    let a = choose|a: int| 0 <= a < idx0.len() && idx0[a] == j;
                    assert(idx[a] == j);
                } else {
                    assert(idx[idx.len() - 1] == j);
                }
            }
            i = i + 1;
        }
        assert forall|a: int| 0 <= a < out@.len() implies self@.contains_key(
            #[trigger] out@[a]@,
        ) && prefix@.is_prefix_of(out@[a]@) by {
            lemma_view_at(s, idx[a]);
        }
        assert forall|k: Seq<char>| #[trigger]
            self@.contains_key(k) && prefix@.is_prefix_of(k) implies exists|a: int|
            0 <= a < out@.len() && out@[a]@ == k by {
            let j = choose|j: int| 0 <= j < s.len() && key_at(s, j) == k;
            assert(prefix@.is_prefix_of(key_at(s, j)));
            let a = choose|a: int| 0 <= a < idx.len() && idx[a] == j;
            assert(out@[a]@ == k);
        }
        assert forall|a: int, b: int|
            0 <= a < out@.len() && 0 <= b < out@.len() && a != b implies out@[a]@ != out@[b]@ by {
            if a < b {
                assert(idx[a] < idx[b]);
            } else {
                assert(idx[b] < idx[a]);
            }
        }
        out
    }
}

} // verus!
