//! A map from texts to texts, kept as a list of pairs with distinct keys.
use vstd::prelude::*;
use crate::text::same_text;

verus! {

/// The key of each pair.
pub open spec fn pair_keys(v: Seq<(String, String)>) -> Seq<Seq<char>> {
    v.map_values(|p: (String, String)| p.0@)
}

/// Whether the pairs hold `k` as a key.
pub open spec fn has_key(v: Seq<(String, String)>, k: Seq<char>) -> bool {
    exists|i: int| 0 <= i < v.len() && #[trigger] v[i].0@ == k
}

/// The value of the pair whose key is `k` (the pairs hold `k`).
pub open spec fn value_of(v: Seq<(String, String)>, k: Seq<char>) -> Seq<char> {
    v[index_of_key(v, k)].1@
}

/// A position of a pair whose key is `k` (the pairs hold `k`).
pub open spec fn index_of_key(v: Seq<(String, String)>, k: Seq<char>) -> int {
    choose|i: int| 0 <= i < v.len() && #[trigger] v[i].0@ == k
}

/// The map that a list of pairs with distinct keys stands for.
pub open spec fn pairs_map(v: Seq<(String, String)>) -> Map<Seq<char>, Seq<char>> {
    Map::new(|k: Seq<char>| has_key(v, k), |k: Seq<char>| value_of(v, k))
}

/// A map from texts to texts.
pub struct StringMap {
    entries: Vec<(String, String)>,
}

impl View for StringMap {
    type V = Map<Seq<char>, Seq<char>>;

    closed spec fn view(&self) -> Map<Seq<char>, Seq<char>> {
        pairs_map(self.entries@)
    }
}

proof fn lemma_value_at(v: Seq<(String, String)>, i: int)
    requires
        pair_keys(v).no_duplicates(),
        0 <= i < v.len(),
    ensures
        pairs_map(v).contains_key(v[i].0@),
        pairs_map(v)[v[i].0@] == v[i].1@,
{
    let k = v[i].0@;
    assert(has_key(v, k));
    let j = index_of_key(v, k);
    assert(0 <= j < v.len() && v[j].0@ == k);
    if j != i {
        assert(pair_keys(v)[i] == pair_keys(v)[j]);
    }
    assert(j == i);
    assert(value_of(v, k) == v[j].1@);
    assert(value_of(v, k) == v[i].1@);
    assert(pairs_map(v)[k] == value_of(v, k));
}

impl StringMap {
    /// No key occurs twice.
    pub closed spec fn wf(&self) -> bool {
        pair_keys(self.entries@).no_duplicates()
    }

    /// The empty map.
    pub fn new() -> (m: Self)
        ensures
            m.wf(),
            m@ == Map::<Seq<char>, Seq<char>>::empty(),
    {
        let m = StringMap { entries: Vec::new() };
        assert(m@ =~= Map::<Seq<char>, Seq<char>>::empty());
        m
    }

    /// The map is finite.
    pub proof fn lemma_finite(&self)
        ensures
            self@.dom().finite(),
    {
        let keys = pair_keys(self.entries@);
        assert(self@.dom() =~= keys.to_set()) by {
            assert forall|k: Seq<char>| self@.dom().contains(k) <==> #[trigger] keys.to_set().contains(k) by {
                if self@.dom().contains(k) {
                    let i = choose|i: int| 0 <= i < self.entries@.len() && #[trigger] self.entries@[i].0@ == k;
                    assert(keys[i] == k);
                }
                if keys.to_set().contains(k) {
                    let i = choose|i: int| 0 <= i < keys.len() && keys[i] == k;
                    assert(self.entries@[i].0@ == k);
                }
            }
        }
        vstd::seq_lib::seq_to_set_is_finite(keys);
    }

    fn find(&self, k: &str) -> (r: Option<usize>)
        ensures
            match r {
                Some(i) => i < self.entries@.len() && self.entries@[i as int].0@ == k@,
                None => !has_key(self.entries@, k@),
            },
    {
        let mut i: usize = 0;
        while i < self.entries.len()
            invariant
                i <= self.entries@.len(),
                forall|j: int| 0 <= j < i ==> self.entries@[j].0@ != k@,
            decreases self.entries@.len() - i,
        {
            if same_text(self.entries[i].0.as_str(), k) {
                return Some(i);
            }
            i = i + 1;
        }
        None
    }

    /// Whether `k` is a key.
    pub fn contains_key(&self, k: &str) -> (b: bool)
        ensures
            b == self@.contains_key(k@),
    {
        self.find(k).is_some()
    }

    /// The value under `k`, if any.
    pub fn get(&self, k: &str) -> (r: Option<&String>)
        requires
            self.wf(),
        ensures
            match r {
                Some(v) => self@.contains_key(k@) && self@[k@] == v@,
                None => !self@.contains_key(k@),
            },
    {
        match self.find(k) {
            Some(i) => {
                proof {
                    lemma_value_at(self.entries@, i as int);
                }
                Some(&self.entries[i].1)
            },
            None => None,
        }
    }

    /// Sets the value under `k` to `v`, replacing the value it had.
    pub fn insert(&mut self, k: String, v: String)
        requires
            old(self).wf(),
        ensures
            final(self).wf(),
            final(self)@ == old(self)@.insert(k@, v@),
    {
        let ghost before = self.entries@;
        let ghost kv = k@;
        let ghost vv = v@;
        match self.find(k.as_str()) {
            Some(i) => {
                self.entries.set(i, (k, v));
                let ghost after = self.entries@;
                assert(pair_keys(after) =~= pair_keys(before)) by {
                    assert forall|j: int| 0 <= j < after.len() implies pair_keys(after)[j] == pair_keys(before)[j] by {
                        if j == i {
                            assert(after[j].0@ == kv);
                        } else {
                            assert(after[j] == before[j]);
                        }
                    }
                }
                assert(self@ =~= pairs_map(before).insert(kv, vv)) by {
                    assert forall|key: Seq<char>| #[trigger] self@.contains_key(key) <==> pairs_map(before).insert(kv, vv).contains_key(key) by {
                        if has_key(after, key) {
                            let j = choose|j: int| 0 <= j < after.len() && #[trigger] after[j].0@ == key;
                            assert(pair_keys(after)[j] == key);
                            assert(before[j].0@ == key);
                        }
                        if has_key(before, key) {
                            let j = choose|j: int| 0 <= j < before.len() && #[trigger] before[j].0@ == key;
                            assert(pair_keys(before)[j] == key);
                            assert(after[j].0@ == key);
                        }
                        if key == kv {
                            assert(after[i as int].0@ == key);
                        }
                    }
                    assert forall|key: Seq<char>| #[trigger] self@.contains_key(key) implies self@[key] == pairs_map(before).insert(kv, vv)[key] by {
                        let j = choose|j: int| 0 <= j < after.len() && #[trigger] after[j].0@ == key;
                        lemma_value_at(after, j);
                        if j != i {
                            lemma_value_at(before, j);
                            assert(after[j] == before[j]);
                            assert(key != kv) by {
                                assert(pair_keys(after)[j] == pair_keys(after)[i as int] ==> j == i);
                            }
                        } else {
                            assert(after[j].1@ == vv);
                        }
                    }
                }
            },
            None => {
                self.entries.push((k, v));
                let ghost after = self.entries@;
                assert(pair_keys(after) =~= pair_keys(before).push(kv));
                assert(!pair_keys(before).contains(kv)) by {
                    if pair_keys(before).contains(kv) {
                        let j = choose|j: int| 0 <= j < pair_keys(before).len() && pair_keys(before)[j] == kv;
                        assert(before[j].0@ == kv);
                    }
                }
                assert forall|a: int, b: int| 0 <= a < b < after.len() implies pair_keys(after)[a] != pair_keys(after)[b] by {
                    if b == before.len() {
                        assert(pair_keys(before)[a] == pair_keys(after)[a]);
                    } else {
                        assert(pair_keys(before)[a] != pair_keys(before)[b]);
                    }
                }
                assert(self@ =~= pairs_map(before).insert(kv, vv)) by {
                    assert forall|key: Seq<char>| #[trigger] self@.contains_key(key) <==> pairs_map(before).insert(kv, vv).contains_key(key) by {
                        if has_key(after, key) {
                            let j = choose|j: int| 0 <= j < after.len() && #[trigger] after[j].0@ == key;
                            if j < before.len() {
                                assert(before[j].0@ == key);
                            }
                        }
                        if has_key(before, key) {
                            let j = choose|j: int| 0 <= j < before.len() && #[trigger] before[j].0@ == key;
                            assert(after[j].0@ == key);
                        }
                        if key == kv {
                            assert(after[before.len() as int].0@ == key);
                        }
                    }
                    assert forall|key: Seq<char>| #[trigger] self@.contains_key(key) implies self@[key] == pairs_map(before).insert(kv, vv)[key] by {
                        let j = choose|j: int| 0 <= j < after.len() && #[trigger] after[j].0@ == key;
                        lemma_value_at(after, j);
                        if j < before.len() {
                            assert(after[j] == before[j]);
                            lemma_value_at(before, j);
                        }
                    }
                }
            },
        }
    }

    /// The pairs of the map, each key once, in no particular order.
    pub fn into_pairs(self) -> (r: Vec<(String, String)>)
        requires
            self.wf(),
        ensures
            pair_keys(r@).no_duplicates(),
            pairs_map(r@) == self@,
    {
        self.entries
    }
}

} // verus!
