//! A map keyed by strings, kept as a list of pairs in strictly increasing key
//! order, so that no key occurs twice and iteration is deterministic.

use vstd::prelude::*;
use crate::text::{views, compare_text, lemma_lex_lt_asymmetric, lemma_lex_lt_transitive, lemma_lex_total, lex_lt, text_eq, Order};

verus! {

/// The keys of `ps` strictly increase.
pub open spec fn keys_sorted<V>(ps: Seq<(Seq<char>, V)>) -> bool {
    forall|i: int, j: int| 0 <= i < j < ps.len() ==> lex_lt(#[trigger] ps[i].0, #[trigger] ps[j].0)
}

/// Some pair of `ps` has the key `k`.
pub open spec fn has_key<V>(ps: Seq<(Seq<char>, V)>, k: Seq<char>) -> bool {
    exists|i: int| 0 <= i < ps.len() && #[trigger] ps[i].0 == k
}

/// A position of `ps` whose key is `k` (meaningful when `has_key(ps, k)`).
pub open spec fn pair_index<V>(ps: Seq<(Seq<char>, V)>, k: Seq<char>) -> int {
    choose|i: int| 0 <= i < ps.len() && #[trigger] ps[i].0 == k
}

/// The map that a list of pairs stands for.
pub open spec fn pairs_to_map<V>(ps: Seq<(Seq<char>, V)>) -> Map<Seq<char>, V> {
    Map::new(|k: Seq<char>| has_key(ps, k), |k: Seq<char>| ps[pair_index(ps, k)].1)
}

pub proof fn lemma_pairs_to_map_at<V>(ps: Seq<(Seq<char>, V)>, i: int)
    requires
        keys_sorted(ps),
        0 <= i < ps.len(),
    ensures
        pairs_to_map(ps).contains_key(ps[i].0),
        pairs_to_map(ps)[ps[i].0] == ps[i].1,
        pair_index(ps, ps[i].0) == i,
{
    assert(has_key(ps, ps[i].0));
    let j = pair_index(ps, ps[i].0);
    if j < i {
        lemma_lex_lt_asymmetric(ps[j].0, ps[i].0);
    } else if i < j {
        lemma_lex_lt_asymmetric(ps[i].0, ps[j].0);
    }
}

/// A string-keyed map whose pairs are kept sorted by key.
pub struct StrMap<V> {
    entries: Vec<(String, V)>,
}

impl<V> StrMap<V> {
    /// The pairs, in increasing key order, keys taken as character sequences.
    pub closed spec fn pairs(self) -> Seq<(Seq<char>, V)> {
        self.entries@.map_values(|p: (String, V)| (p.0@, p.1))
    }

    #[verifier::type_invariant]
    closed spec fn sorted_inv(self) -> bool {
        keys_sorted(self.pairs())
    }

    /// The pairs are sorted by key; so no key occurs twice.
    pub fn lemma_sorted(&self)
        ensures
            keys_sorted(self.pairs()),
    {
        proof {
            use_type_invariant(self);
        }
    }

    /// An empty map.
    pub fn new() -> (r: Self)
        ensures
            r.pairs() == Seq::<(Seq<char>, V)>::empty(),
            r@ == Map::<Seq<char>, V>::empty(),
    {
        let r = StrMap { entries: Vec::new() };
        assert(r.pairs() =~= Seq::<(Seq<char>, V)>::empty());
        assert(r@ =~= Map::<Seq<char>, V>::empty());
        r
    }

    /// The number of keys.
    pub fn len(&self) -> (n: usize)
        ensures
            n == self.pairs().len(),
    {
        self.entries.len()
    }

    /// The key at position `i` of the sorted pairs.
    pub fn key_at(&self, i: usize) -> (k: &String)
        requires
            i < self.pairs().len(),
        ensures
            k@ == self.pairs()[i as int].0,
    {
        &self.entries[i].0
    }

    /// The value at position `i` of the sorted pairs.
    pub fn value_at(&self, i: usize) -> (v: &V)
        requires
            i < self.pairs().len(),
        ensures
            *v == self.pairs()[i as int].1,
    {
        &self.entries[i].1
    }

    /// The value stored under `key`, if any.
    pub fn get(&self, key: &str) -> (r: Option<&V>)
        ensures
            r.is_some() == self@.contains_key(key@),
            r matches Some(v) ==> *v == self@[key@],
    {
        proof {
            use_type_invariant(self);
        }
        let n = self.entries.len();
        let mut i: usize = 0;
        while i < n
            invariant
                n == self.pairs().len(),
                keys_sorted(self.pairs()),
                i <= n,
                forall|j: int| 0 <= j < i ==> self.pairs()[j].0 != key@,
            decreases n - i,
        {
            if text_eq(self.entries[i].0.as_str(), key) {
                proof {
                    lemma_pairs_to_map_at(self.pairs(), i as int);
                }
                return Some(&self.entries[i].1);
            }
            i += 1;
        }
        assert(!has_key(self.pairs(), key@));
        None
    }

    /// Stores `value` under `key`, replacing a value already stored there.
    pub fn insert(&mut self, key: String, value: V)
        ensures
            final(self)@ == old(self)@.insert(key@, value),
    {
        proof {
            use_type_invariant(&*self);
        }
        let ghost old_pairs = self.pairs();
        let mut entries: Vec<(String, V)> = Vec::new();
        std::mem::swap(&mut entries, &mut self.entries);
        assert(entries@.map_values(|p: (String, V)| (p.0@, p.1)) == old_pairs);
        let n = entries.len();
        let mut pos: usize = 0;
        let mut found = false;
        let mut stop = false;
        while pos < n && !stop
            invariant
                n == entries@.len(),
                entries@.map_values(|p: (String, V)| (p.0@, p.1)) == old_pairs,
                keys_sorted(old_pairs),
                pos <= n,
                forall|j: int| 0 <= j < pos ==> lex_lt(#[trigger] old_pairs[j].0, key@),
                found ==> stop,
                stop ==> pos < n,
                stop && found ==> old_pairs[pos as int].0 == key@,
                stop && !found ==> lex_lt(key@, old_pairs[pos as int].0),
            decreases n - pos + (if stop { 0int } else { 1int }),
        {
            match compare_text(entries[pos].0.as_str(), key.as_str()) {
                Order::Less => {
                    pos += 1;
                },
                Order::Equal => {
                    found = true;
                    stop = true;
                },
                Order::Greater => {
                    stop = true;
                },
            }
        }
        let ghost k = key@;
        if found {
            entries.set(pos, (key, value));
            let ghost new_pairs = entries@.map_values(|p: (String, V)| (p.0@, p.1));
            assert(new_pairs =~= old_pairs.update(pos as int, (k, value)));
            assert(keys_sorted(new_pairs)) by {
                assert forall|i: int, j: int| 0 <= i < j < new_pairs.len() implies lex_lt(
                    #[trigger] new_pairs[i].0,
                    #[trigger] new_pairs[j].0,
                ) by {
                    assert(lex_lt(old_pairs[i].0, old_pairs[j].0));
                }
            }
            self.entries = entries;
            proof {
                assert(self.pairs() == new_pairs);
                lemma_replace_pair(old_pairs, pos as int, k, value);
            }
        } else {
            proof {
                if pos < n {
                    lemma_lex_lt_asymmetric(k, old_pairs[pos as int].0);
                }
            }
            entries.insert(pos, (key, value));
            let ghost new_pairs = entries@.map_values(|p: (String, V)| (p.0@, p.1));
            assert(new_pairs =~= old_pairs.insert(pos as int, (k, value)));
            proof {
                lemma_insert_pair(old_pairs, pos as int, k, value);
            }
            self.entries = entries;
            assert(self.pairs() == new_pairs);
        }
    }
}

impl<V> StrMap<V> {
    /// Removes the value stored under `key` and returns it, if any.
    pub fn take(&mut self, key: &str) -> (r: Option<V>)
        ensures
            final(self)@ == old(self)@.remove(key@),
            r == (if old(self)@.contains_key(key@) {
                Some(old(self)@[key@])
            } else {
                None
            }),
    {
        proof {
            use_type_invariant(&*self);
        }
        let ghost old_pairs = self.pairs();
        let n = self.entries.len();
        let mut i: usize = 0;
        while i < n
            invariant
                n == self.pairs().len(),
                self.pairs() == old_pairs,
                old(self).pairs() == old_pairs,
                keys_sorted(old_pairs),
                i <= n,
                forall|j: int| 0 <= j < i ==> old_pairs[j].0 != key@,
            decreases n - i,
        {
            if text_eq(self.entries[i].0.as_str(), key) {
                proof {
                    lemma_pairs_to_map_at(old_pairs, i as int);
                    lemma_remove_pair(old_pairs, i as int);
                }
                let mut entries: Vec<(String, V)> = Vec::new();
                std::mem::swap(&mut entries, &mut self.entries);
                assert(entries@.map_values(|p: (String, V)| (p.0@, p.1)) == old_pairs);
                let (_, v) = entries.remove(i);
                assert(entries@.map_values(|p: (String, V)| (p.0@, p.1)) =~= old_pairs.remove(i as int));
                self.entries = entries;
                return Some(v);
            }
            i += 1;
        }
        assert(!has_key(old_pairs, key@));
        assert(self@ =~= old(self)@.remove(key@));
        None
    }

    /// The keys, in increasing order.
    pub fn keys(&self) -> (r: Vec<String>)
        ensures
            r@.len() == self.pairs().len(),
            forall|i: int| 0 <= i < r@.len() ==> #[trigger] r@[i]@ == self.pairs()[i].0,
    {
        let mut r: Vec<String> = Vec::new();
        let n = self.entries.len();
        let mut i: usize = 0;
        while i < n
            invariant
                n == self.pairs().len(),
                i <= n,
                r@.len() == i,
                forall|j: int| 0 <= j < i ==> #[trigger] r@[j]@ == self.pairs()[j].0,
            decreases n - i,
        {
            r.push(self.entries[i].0.clone());
            i += 1;
        }
        r
    }
}

impl<V> StrMap<V> {
    /// Removes every key that is not among `allowed`.
    pub fn retain_keys(&mut self, allowed: &Vec<String>)
        ensures
            final(self)@ == old(self)@.restrict(views(allowed@).to_set()),
    {
        self.lemma_sorted();
        let keys = self.keys();
        let ghost ks = self.pairs().map_values(|p: (Seq<char>, V)| p.0);
        let ghost a = views(allowed@).to_set();
        let ghost m0 = self@;
        proof {
            assert(views(keys@) =~= ks);
            lemma_sorted_keys_distinct(self.pairs());
            assert(m0 =~= m0.restrict(a.union(ks.skip(0).to_set()))) by {
                assert forall|k: Seq<char>| m0.contains_key(k) implies ks.skip(0).to_set().contains(k) by {
                    lemma_map_key_index(self.pairs(), k);
                    let j = pair_index(self.pairs(), k);
                    assert(ks.skip(0)[j] == k);
                }
            }
        }
        let n = keys.len();
        let mut i: usize = 0;
        while i < n
            invariant
                n == keys@.len(),
                views(keys@) == ks,
                ks.no_duplicates(),
                a == views(allowed@).to_set(),
                i <= n,
                self@ == m0.restrict(a.union(ks.skip(i as int).to_set())),
            decreases n - i,
        {
            let ghost k = ks[i as int];
            assert(keys@[i as int]@ == k);
            assert(ks.skip(i as int).to_set() =~= ks.skip(i + 1).to_set().insert(k)) by {
                assert(ks.skip(i as int) =~= seq![k] + ks.skip(i + 1));
                assert forall|x: Seq<char>| ks.skip(i as int).contains(x) implies #[trigger] ks.skip(i + 1).to_set().insert(k).contains(x) by {
                    let j = choose|j: int| 0 <= j < ks.skip(i as int).len() && #[trigger] ks.skip(i as int)[j] == x;
                    if j > 0 {
                        assert(ks.skip(i + 1)[j - 1] == x);
                    }
                }
                assert forall|x: Seq<char>| ks.skip(i + 1).to_set().insert(k).contains(x) implies #[trigger] ks.skip(i as int).contains(x) by {
                    if x == k {
                        assert(ks.skip(i as int)[0] == x);
                    } else {
                        let j = choose|j: int| 0 <= j < ks.skip(i + 1).len() && #[trigger] ks.skip(i + 1)[j] == x;
                        assert(ks.skip(i as int)[j + 1] == x);
                    }
                }
            }
            assert(!ks.skip(i + 1).contains(k)) by {
                if ks.skip(i + 1).contains(k) {
                    let j = choose|j: int| 0 <= j < ks.skip(i + 1).len() && #[trigger] ks.skip(i + 1)[j] == k;
                    assert(ks[i + 1 + j] == ks[i as int]);
                }
            }
            if !crate::text::contains_text(allowed, keys[i].as_str()) {
                let _ = self.take(keys[i].as_str());
                assert(self@ =~= m0.restrict(a.union(ks.skip(i + 1).to_set())));
            } else {
                assert(self@ =~= m0.restrict(a.union(ks.skip(i + 1).to_set())));
            }
            i += 1;
        }
        assert(a.union(ks.skip(n as int).to_set()) =~= a);
    }
}

/// Sorted keys hold no key twice.
pub proof fn lemma_sorted_keys_distinct<V>(ps: Seq<(Seq<char>, V)>)
    requires
        keys_sorted(ps),
    ensures
        ps.map_values(|p: (Seq<char>, V)| p.0).no_duplicates(),
{
    let ks = ps.map_values(|p: (Seq<char>, V)| p.0);
    assert forall|i: int, j: int| 0 <= i < ks.len() && 0 <= j < ks.len() && i != j implies ks[i] != ks[j] by {
        if i < j {
            lemma_lex_lt_asymmetric(ps[i].0, ps[j].0);
        } else {
            lemma_lex_lt_asymmetric(ps[j].0, ps[i].0);
        }
    }
}

/// Each key of the map stands at some position of the pairs.
pub proof fn lemma_map_key_index<V>(ps: Seq<(Seq<char>, V)>, k: Seq<char>)
    requires
        keys_sorted(ps),
        pairs_to_map(ps).contains_key(k),
    ensures
        0 <= pair_index(ps, k) < ps.len(),
        ps[pair_index(ps, k)].0 == k,
        pairs_to_map(ps)[k] == ps[pair_index(ps, k)].1,
{
}

proof fn lemma_remove_pair<V>(ps: Seq<(Seq<char>, V)>, i: int)
    requires
        keys_sorted(ps),
        0 <= i < ps.len(),
    ensures
        keys_sorted(ps.remove(i)),
        pairs_to_map(ps.remove(i)) == pairs_to_map(ps).remove(ps[i].0),
{
    let qs = ps.remove(i);
    assert(keys_sorted(qs)) by {
        assert forall|a: int, b: int| 0 <= a < b < qs.len() implies lex_lt(
            #[trigger] qs[a].0,
            #[trigger] qs[b].0,
        ) by {
            let a1 = if a < i { a } else { a + 1 };
            let b1 = if b < i { b } else { b + 1 };
            assert(lex_lt(ps[a1].0, ps[b1].0));
        }
    }
    let k = ps[i].0;
    let m1 = pairs_to_map(qs);
    let m2 = pairs_to_map(ps).remove(k);
    assert forall|x: Seq<char>| m1.contains_key(x) == m2.contains_key(x) by {
        if has_key(qs, x) {
            let j = choose|j: int| 0 <= j < qs.len() && #[trigger] qs[j].0 == x;
            let j1 = if j < i { j } else { j + 1 };
            assert(ps[j1].0 == x);
            if j1 < i {
                lemma_lex_lt_asymmetric(ps[j1].0, ps[i].0);
            } else {
                lemma_lex_lt_asymmetric(ps[i].0, ps[j1].0);
            }
        }
        if has_key(ps, x) && x != k {
            let j = choose|j: int| 0 <= j < ps.len() && #[trigger] ps[j].0 == x;
            if j < i {
                assert(qs[j].0 == x);
            } else {
                assert(qs[j - 1].0 == x);
            }
        }
    }
    assert forall|x: Seq<char>| #[trigger] m1.contains_key(x) implies m1[x] == m2[x] by {
        let j = choose|j: int| 0 <= j < qs.len() && #[trigger] qs[j].0 == x;
        lemma_pairs_to_map_at(qs, j);
        let j1 = if j < i { j } else { j + 1 };
        lemma_pairs_to_map_at(ps, j1);
    }
    assert(m1 =~= m2);
}

impl<V: Clone> Clone for StrMap<V> {
    /// A copy with the same keys in the same order, each value cloned.
    fn clone(&self) -> (r: Self)
        ensures
            r.pairs().len() == self.pairs().len(),
            forall|i: int| 0 <= i < r.pairs().len() ==> #[trigger] r.pairs()[i].0 == self.pairs()[i].0,
    {
        proof {
            use_type_invariant(self);
        }
        let mut entries: Vec<(String, V)> = Vec::new();
        let n = self.entries.len();
        let mut i: usize = 0;
        while i < n
            invariant
                n == self.pairs().len(),
                i <= n,
                entries@.len() == i,
                forall|j: int| 0 <= j < i ==> #[trigger] entries@[j].0@ == self.pairs()[j].0,
            decreases n - i,
        {
            entries.push((self.entries[i].0.clone(), self.entries[i].1.clone()));
            i += 1;
        }
        let r = StrMap { entries };
        assert(keys_sorted(r.pairs())) by {
            assert forall|a: int, b: int| 0 <= a < b < r.pairs().len() implies lex_lt(
                #[trigger] r.pairs()[a].0,
                #[trigger] r.pairs()[b].0,
            ) by {
                assert(lex_lt(self.pairs()[a].0, self.pairs()[b].0));
            }
        }
        r
    }
}

impl<V> View for StrMap<V> {
    type V = Map<Seq<char>, V>;

    open spec fn view(&self) -> Map<Seq<char>, V> {
        pairs_to_map(self.pairs())
    }
}

proof fn lemma_replace_pair<V>(ps: Seq<(Seq<char>, V)>, pos: int, k: Seq<char>, v: V)
    requires
        keys_sorted(ps),
        0 <= pos < ps.len(),
        ps[pos].0 == k,
        keys_sorted(ps.update(pos, (k, v))),
    ensures
        pairs_to_map(ps.update(pos, (k, v))) == pairs_to_map(ps).insert(k, v),
{
    let qs = ps.update(pos, (k, v));
    let m1 = pairs_to_map(qs);
    let m2 = pairs_to_map(ps).insert(k, v);
    assert forall|x: Seq<char>| m1.contains_key(x) == m2.contains_key(x) by {
        if has_key(qs, x) {
            let i = choose|i: int| 0 <= i < qs.len() && #[trigger] qs[i].0 == x;
            assert(ps[i].0 == x);
        }
        if has_key(ps, x) {
            let i = choose|i: int| 0 <= i < ps.len() && #[trigger] ps[i].0 == x;
            assert(qs[i].0 == x);
        }
        if x == k {
            assert(qs[pos].0 == x);
        }
    }
    assert forall|x: Seq<char>| #[trigger] m1.contains_key(x) implies m1[x] == m2[x] by {
        let i = choose|i: int| 0 <= i < qs.len() && #[trigger] qs[i].0 == x;
        lemma_pairs_to_map_at(qs, i);
        if i != pos {
            lemma_pairs_to_map_at(ps, i);
        }
    }
    assert(m1 =~= m2);
}

proof fn lemma_insert_pair<V>(ps: Seq<(Seq<char>, V)>, pos: int, k: Seq<char>, v: V)
    requires
        keys_sorted(ps),
        0 <= pos <= ps.len(),
        forall|j: int| 0 <= j < pos ==> lex_lt(#[trigger] ps[j].0, k),
        pos < ps.len() ==> !lex_lt(ps[pos].0, k) && ps[pos].0 != k,
    ensures
        keys_sorted(ps.insert(pos, (k, v))),
        pairs_to_map(ps.insert(pos, (k, v))) == pairs_to_map(ps).insert(k, v),
{
    let qs = ps.insert(pos, (k, v));
    if pos < ps.len() {
        assert(lex_lt(k, ps[pos].0)) by {
            let a = k;
            let b = ps[pos].0;
            lemma_lex_total(a, b);
        }
    }
    assert(keys_sorted(qs)) by {
        assert forall|i: int, j: int| 0 <= i < j < qs.len() implies lex_lt(
            #[trigger] qs[i].0,
            #[trigger] qs[j].0,
        ) by {
            if j < pos {
                assert(lex_lt(ps[i].0, ps[j].0));
            } else if j == pos {
            } else if i == pos {
                if j - 1 > pos {
                    assert(lex_lt(ps[pos].0, ps[j - 1].0));
                    lemma_lex_lt_transitive(k, ps[pos].0, ps[j - 1].0);
                }
            } else if i < pos {
                if pos < ps.len() {
                    if j - 1 > pos {
                        assert(lex_lt(ps[pos].0, ps[j - 1].0));
                        lemma_lex_lt_transitive(k, ps[pos].0, ps[j - 1].0);
                    }
                    lemma_lex_lt_transitive(ps[i].0, k, ps[j - 1].0);
                }
            } else {
                assert(lex_lt(ps[i - 1].0, ps[j - 1].0));
            }
        }
    }
    let m1 = pairs_to_map(qs);
    let m2 = pairs_to_map(ps).insert(k, v);
    assert forall|x: Seq<char>| m1.contains_key(x) == m2.contains_key(x) by {
        if has_key(qs, x) {
            let i = choose|i: int| 0 <= i < qs.len() && #[trigger] qs[i].0 == x;
            if i < pos {
                assert(ps[i].0 == x);
            } else if i > pos {
                assert(ps[i - 1].0 == x);
            }
        }
        if has_key(ps, x) {
            let i = choose|i: int| 0 <= i < ps.len() && #[trigger] ps[i].0 == x;
            if i < pos {
                assert(qs[i].0 == x);
            } else {
                assert(qs[i + 1].0 == x);
            }
        }
        if x == k {
            assert(qs[pos].0 == x);
        }
    }
    assert forall|x: Seq<char>| #[trigger] m1.contains_key(x) implies m1[x] == m2[x] by {
        let i = choose|i: int| 0 <= i < qs.len() && #[trigger] qs[i].0 == x;
        lemma_pairs_to_map_at(qs, i);
        if i < pos {
            lemma_pairs_to_map_at(ps, i);
        } else if i > pos {
            lemma_pairs_to_map_at(ps, i - 1);
        }
    }
    assert(m1 =~= m2);
}

} // verus!
