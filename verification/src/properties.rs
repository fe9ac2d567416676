//! The properties of a file: keys mapped to values, each key once.
use vstd::prelude::*;

verus! {

/// The properties of a file, as pairs of key and value in which no key
/// occurs twice.
#[derive(Debug)]
pub struct Properties {
    entries: Vec<(String, String)>,
}

/// The pairs as character sequences.
pub open spec fn pairs_view(entries: Seq<(String, String)>) -> Seq<(Seq<char>, Seq<char>)> {
    entries.map_values(|e: (String, String)| (e.0@, e.1@))
}

/// No key occurs twice among the pairs.
pub open spec fn keys_distinct(pairs: Seq<(Seq<char>, Seq<char>)>) -> bool {
    forall|i: int, j: int|
        0 <= i < pairs.len() && 0 <= j < pairs.len() && i != j ==> (#[trigger] pairs[i]).0
            != (#[trigger] pairs[j]).0
}

/// Whether `k` is the key of one of the pairs.
pub open spec fn has_key(pairs: Seq<(Seq<char>, Seq<char>)>, k: Seq<char>) -> bool {
    exists|i: int| 0 <= i < pairs.len() && (#[trigger] pairs[i]).0 == k
}

/// The map that the pairs make.
pub open spec fn pairs_map(pairs: Seq<(Seq<char>, Seq<char>)>) -> Map<Seq<char>, Seq<char>> {
    Map::new(
        |k: Seq<char>| has_key(pairs, k),
        |k: Seq<char>| pairs[choose|i: int| 0 <= i < pairs.len() && (#[trigger] pairs[i]).0 == k].1,
    )
}

/// With distinct keys, the pair at `i` gives the map's value for its key.
proof fn lemma_pairs_map_at(pairs: Seq<(Seq<char>, Seq<char>)>, i: int)
    requires
        keys_distinct(pairs),
        0 <= i < pairs.len(),
    ensures
        pairs_map(pairs).contains_key(pairs[i].0),
        pairs_map(pairs)[pairs[i].0] == pairs[i].1,
{
    let k = pairs[i].0;
    assert(has_key(pairs, k));
    let j = choose|j: int| 0 <= j < pairs.len() && (#[trigger] pairs[j]).0 == k;
    assert(j == i);
}

/// `f` may answer `answer` for the key `k` and the value `v`.
pub open spec fn kept_by<F: Fn(&str, &str) -> bool>(
    f: F,
    k: Seq<char>,
    v: Seq<char>,
    answer: bool,
) -> bool {
    exists|ks: &str, vs: &str| ks@ == k && vs@ == v && #[trigger] f.ensures((ks, vs), answer)
}

/// As many keys as pairs, the keys being distinct.
proof fn lemma_pairs_count(pairs: Seq<(Seq<char>, Seq<char>)>)
    requires
        keys_distinct(pairs),
    ensures
        pairs_map(pairs).dom().finite(),
        pairs_map(pairs).dom().len() == pairs.len(),
    decreases pairs.len(),
{
    let keys = pairs.map_values(|p: (Seq<char>, Seq<char>)| p.0);
    assert(pairs_map(pairs).dom() =~= keys.to_set()) by {
        assert forall|k: Seq<char>| pairs_map(pairs).dom().contains(k) implies keys.to_set().contains(k) by {
            let j = choose|j: int| 0 <= j < pairs.len() && (#[trigger] pairs[j]).0 == k;
            assert(keys[j] == k);
        }
        assert forall|k: Seq<char>| keys.to_set().contains(k) implies pairs_map(pairs).dom().contains(k) by {
            let j = choose|j: int| 0 <= j < keys.len() && keys[j] == k;
            assert(pairs[j].0 == k);
        }
    }
    assert(keys.no_duplicates()) by {
        assert forall|a: int, b: int| 0 <= a < keys.len() && 0 <= b < keys.len() && a != b implies keys[a] != keys[b] by {
            assert(pairs[a].0 != pairs[b].0);
        }
    }
    keys.unique_seq_to_set();
}

impl View for Properties {
    type V = Map<Seq<char>, Seq<char>>;

    closed spec fn view(&self) -> Map<Seq<char>, Seq<char>> {
        pairs_map(pairs_view(self.entries@))
    }
}

impl Properties {
    #[verifier::type_invariant]
    closed spec fn well_formed(&self) -> bool {
        keys_distinct(pairs_view(self.entries@))
    }

    /// The pairs in the order they are kept.
    pub closed spec fn pairs(&self) -> Seq<(Seq<char>, Seq<char>)> {
        pairs_view(self.entries@)
    }

    /// No properties.
    pub fn empty() -> (r: Properties)
        ensures
            r@ == Map::<Seq<char>, Seq<char>>::empty(),
    {
        let r = Properties { entries: Vec::new() };
        assert(r@ =~= Map::<Seq<char>, Seq<char>>::empty());
        r
    }

    /// The index of the pair with key `key`.
    fn find(&self, key: &String) -> (r: Option<usize>)
        ensures
            match r {
                Some(i) => i < self.entries@.len() && self.pairs()[i as int].0 == key@,
                None => !has_key(self.pairs(), key@),
            },
    {
        let mut i: usize = 0;
        while i < self.entries.len()
            invariant
                i <= self.entries@.len(),
                forall|j: int| 0 <= j < i ==> (#[trigger] self.pairs()[j]).0 != key@,
            decreases self.entries@.len() - i,
        {
            if self.entries[i].0 == *key {
                return Some(i);
            }
            i = i + 1;
        }
        None
    }

    /// Whether `key` has a value.
    pub fn contains_key(&self, key: &String) -> (r: bool)
        ensures
            r == self@.contains_key(key@),
    {
        self.find(key).is_some()
    }

    /// The value of `key`.
    pub fn get_value(&self, key: &String) -> (r: Option<&String>)
        ensures
            match r {
                Some(v) => self@.contains_key(key@) && self@[key@] == v@,
                None => !self@.contains_key(key@),
            },
    {
        proof {
            use_type_invariant(self);
        }
        match self.find(key) {
            Some(i) => {
                proof {
                    lemma_pairs_map_at(self.pairs(), i as int);
                }
                Some(&self.entries[i].1)
            },
            None => None,
        }
    }

    /// Sets `key` to `value`.
    pub fn insert(&mut self, key: String, value: String)
        ensures
            final(self)@ == old(self)@.insert(key@, value@),
    {
        proof {
            use_type_invariant(&*self);
        }
        let ghost old_pairs = self.pairs();
        let ghost k = key@;
        let ghost v = value@;
        match self.find(&key) {
            Some(i) => {
                let mut entries: Vec<(String, String)> = Vec::new();
                std::mem::swap(&mut entries, &mut self.entries);
                entries.set(i, (key, value));
                let ghost new_pairs = pairs_view(entries@);
                assert(new_pairs =~= old_pairs.update(i as int, (k, v)));
                assert(keys_distinct(new_pairs));
                self.entries = entries;
                proof {
                    assert forall|key2: Seq<char>|
                        #[trigger] pairs_map(new_pairs).contains_key(key2) <==> pairs_map(
                            old_pairs,
                        ).insert(k, v).contains_key(key2) by {
                        if has_key(old_pairs, key2) {
                            let j = choose|j: int| 0 <= j < old_pairs.len() && (#[trigger] old_pairs[j]).0 == key2;
                            assert(new_pairs[j].0 == key2);
                        }
                        if has_key(new_pairs, key2) {
                            let j = choose|j: int| 0 <= j < new_pairs.len() && (#[trigger] new_pairs[j]).0 == key2;
                            assert(old_pairs[j].0 == key2 || j == i);
                        }
                    }
                    assert forall|key2: Seq<char>|
                        #[trigger] pairs_map(new_pairs).contains_key(key2) implies pairs_map(
                            new_pairs,
                        )[key2] == pairs_map(old_pairs).insert(k, v)[key2] by {
                        let j = choose|j: int| 0 <= j < new_pairs.len() && (#[trigger] new_pairs[j]).0 == key2;
                        lemma_pairs_map_at(new_pairs, j);
                        if j != i {
                            lemma_pairs_map_at(old_pairs, j);
                        }
                    }
                    assert(pairs_map(new_pairs) =~= pairs_map(old_pairs).insert(k, v));
                }
            },
            None => {
                let mut entries: Vec<(String, String)> = Vec::new();
                std::mem::swap(&mut entries, &mut self.entries);
                entries.push((key, value));
                let ghost new_pairs = pairs_view(entries@);
                assert(new_pairs =~= old_pairs.push((k, v)));
                assert(keys_distinct(new_pairs));
                self.entries = entries;
                proof {
                    assert forall|key2: Seq<char>|
                        #[trigger] pairs_map(new_pairs).contains_key(key2) <==> pairs_map(
                            old_pairs,
                        ).insert(k, v).contains_key(key2) by {
                        if has_key(old_pairs, key2) {
                            let j = choose|j: int| 0 <= j < old_pairs.len() && (#[trigger] old_pairs[j]).0 == key2;
                            assert(new_pairs[j].0 == key2);
                        }
                        if key2 == k {
                            assert(new_pairs[old_pairs.len() as int].0 == key2);
                        }
                    }
                    assert forall|key2: Seq<char>|
                        #[trigger] pairs_map(new_pairs).contains_key(key2) implies pairs_map(
                            new_pairs,
                        )[key2] == pairs_map(old_pairs).insert(k, v)[key2] by {
                        let j = choose|j: int| 0 <= j < new_pairs.len() && (#[trigger] new_pairs[j]).0 == key2;
                        lemma_pairs_map_at(new_pairs, j);
                        if j < old_pairs.len() {
                            lemma_pairs_map_at(old_pairs, j);
                        }
                    }
                    assert(pairs_map(new_pairs) =~= pairs_map(old_pairs).insert(k, v));
                }
            },
        }
    }

    /// Removes `key` and its value, if any.
    pub fn remove(&mut self, key: &String)
        ensures
            final(self)@ == old(self)@.remove(key@),
    {
        proof {
            use_type_invariant(&*self);
        }
        let ghost old_pairs = self.pairs();
        let ghost k = key@;
        match self.find(key) {
            Some(i) => {
                let mut entries: Vec<(String, String)> = Vec::new();
                std::mem::swap(&mut entries, &mut self.entries);
                entries.remove(i);
                let ghost new_pairs = pairs_view(entries@);
                assert(new_pairs =~= old_pairs.remove(i as int));
                assert(keys_distinct(new_pairs)) by {
                    assert forall|a: int, b: int|
                        0 <= a < new_pairs.len() && 0 <= b < new_pairs.len() && a != b implies (
                        #[trigger] new_pairs[a]).0 != (#[trigger] new_pairs[b]).0 by {
                        let a2 = if a < i { a } else { a + 1 };
                        let b2 = if b < i { b } else { b + 1 };
                        assert(new_pairs[a] == old_pairs[a2]);
                        assert(new_pairs[b] == old_pairs[b2]);
                    }
                }
                self.entries = entries;
                proof {
                    assert forall|key2: Seq<char>|
                        #[trigger] pairs_map(new_pairs).contains_key(key2) <==> pairs_map(
                            old_pairs,
                        ).remove(k).contains_key(key2) by {
                        if has_key(old_pairs, key2) && key2 != k {
                            let j = choose|j: int| 0 <= j < old_pairs.len() && (#[trigger] old_pairs[j]).0 == key2;
                            let j2 = if j < i { j } else { j - 1 };
                            assert(new_pairs[j2].0 == key2);
                        }
                        if has_key(new_pairs, key2) {
                            let j = choose|j: int| 0 <= j < new_pairs.len() && (#[trigger] new_pairs[j]).0 == key2;
                            let j2 = if j < i { j } else { j + 1 };
                            assert(old_pairs[j2].0 == key2);
                        }
                    }
                    assert forall|key2: Seq<char>|
                        #[trigger] pairs_map(new_pairs).contains_key(key2) implies pairs_map(
                            new_pairs,
                        )[key2] == pairs_map(old_pairs).remove(k)[key2] by {
                        let j = choose|j: int| 0 <= j < new_pairs.len() && (#[trigger] new_pairs[j]).0 == key2;
                        let j2 = if j < i { j } else { j + 1 };
                        lemma_pairs_map_at(new_pairs, j);
                        lemma_pairs_map_at(old_pairs, j2);
                    }
                    assert(pairs_map(new_pairs) =~= pairs_map(old_pairs).remove(k));
                }
            },
            None => {
                assert(self@ =~= old(self)@.remove(k));
            },
        }
    }

    /// Every property as a pair of key and value, each key once.
    pub fn iter(&self) -> (r: Vec<(&str, &str)>)
        ensures
            r@.len() == self@.len(),
            forall|i: int|
                0 <= i < r@.len() ==> self@.contains_key((#[trigger] r@[i]).0@) && self@[r@[i].0@]
                    == r@[i].1@,
            forall|k: Seq<char>|
                #[trigger] self@.contains_key(k) ==> exists|i: int|
                    0 <= i < r@.len() && (#[trigger] r@[i]).0@ == k,
            forall|i: int, j: int|
                0 <= i < r@.len() && 0 <= j < r@.len() && i != j ==> (#[trigger] r@[i]).0@ != (
                #[trigger] r@[j]).0@,
    {
        proof {
            use_type_invariant(self);
        }
        let ghost ps = self.pairs();
        let mut r: Vec<(&str, &str)> = Vec::new();
        let mut i: usize = 0;
        while i < self.entries.len()
            invariant
                i <= self.entries@.len(),
                ps == self.pairs(),
                keys_distinct(ps),
                r@.len() == i,
                forall|j: int| 0 <= j < i ==> ((#[trigger] r@[j]).0@, r@[j].1@) == ps[j],
            decreases self.entries@.len() - i,
        {
            let e = &self.entries[i];
            r.push((e.0.as_str(), e.1.as_str()));
            i = i + 1;
        }
        proof {
            assert forall|j: int| 0 <= j < r@.len() implies self@.contains_key(
                (#[trigger] r@[j]).0@,
            ) && self@[r@[j].0@] == r@[j].1@ by {
                lemma_pairs_map_at(ps, j);
            }
            assert forall|k: Seq<char>| #[trigger] self@.contains_key(k) implies exists|j: int|
                0 <= j < r@.len() && (#[trigger] r@[j]).0@ == k by {
                let j = choose|j: int| 0 <= j < ps.len() && (#[trigger] ps[j]).0 == k;
                assert(r@[j].0@ == k);
            }
            assert forall|a: int, b: int|
                0 <= a < r@.len() && 0 <= b < r@.len() && a != b implies (#[trigger] r@[a]).0@
                != (#[trigger] r@[b]).0@ by {
                assert(ps[a].0 != ps[b].0);
            }
            let keys = Set::new(|k: Seq<char>| has_key(ps, k));
            assert(self@.dom() =~= keys);
            lemma_pairs_count(ps);
        }
        r
    }

    /// The value of `key`.
    pub fn value(&self, key: &str) -> (r: Option<&str>)
        ensures
            match r {
                Some(v) => self@.contains_key(key@) && self@[key@] == v@,
                None => !self@.contains_key(key@),
            },
    {
        match self.get_value(&key.to_owned()) {
            Some(v) => Some(v.as_str()),
            None => None,
        }
    }

    /// Keeps only the properties for which `f(key, value)` holds.
    pub fn retain<F: Fn(&str, &str) -> bool>(&mut self, f: F)
        requires
            forall|k: &str, v: &str| f.requires((k, v)),
        ensures
            forall|k: Seq<char>|
                #[trigger] final(self)@.contains_key(k) ==> old(self)@.contains_key(k)
                    && final(self)@[k] == old(self)@[k] && kept_by(f, k, old(self)@[k], true),
            forall|k: Seq<char>|
                #[trigger] old(self)@.contains_key(k) && !final(self)@.contains_key(k) ==> kept_by(
                    f,
                    k,
                    old(self)@[k],
                    false,
                ),
    {
        proof {
            use_type_invariant(&*self);
        }
        let ghost ps = self.pairs();
        let mut kept: Vec<(String, String)> = Vec::new();
        let ghost mut idx: Seq<int> = Seq::empty();
        let mut i: usize = 0;
        while i < self.entries.len()
            invariant
                i <= self.entries@.len(),
                ps == self.pairs(),
                keys_distinct(ps),
                forall|k: &str, v: &str| f.requires((k, v)),
                idx.len() == kept@.len(),
                forall|j: int| 0 <= j < idx.len() ==> 0 <= #[trigger] idx[j] < i,
                forall|a: int, b: int| 0 <= a < b < idx.len() ==> idx[a] < idx[b],
                forall|j: int|
                    0 <= j < idx.len() ==> pairs_view(kept@)[j] == ps[#[trigger] idx[j]]
                        && kept_by(f, ps[idx[j]].0, ps[idx[j]].1, true),
                forall|h: int|
                    0 <= h < i ==> idx.contains(h) || kept_by(
                        f,
                        (#[trigger] ps[h]).0,
                        ps[h].1,
                        false,
                    ),
            decreases self.entries@.len() - i,
        {
            let e = &self.entries[i];
            let ks = e.0.as_str();
            let vs = e.1.as_str();
            let keep = f(ks, vs);
            assert(ps[i as int] == (ks@, vs@));
            let ghost old_idx = idx;
            if keep {
                assert(kept_by(f, ks@, vs@, true));
                kept.push((e.0.clone(), e.1.clone()));
                proof {
                    idx = idx.push(i as int);
                    assert(pairs_view(kept@)[idx.len() - 1] == ps[i as int]);
                    assert forall|h: int| #[trigger] old_idx.contains(h) implies idx.contains(h) by {
                        let j = choose|j: int| 0 <= j < old_idx.len() && old_idx[j] == h;
                        assert(idx[j] == h);
                    }
                    assert(idx[idx.len() - 1] == i);
                    assert(idx.contains(i as int));
                }
            } else {
                assert(kept_by(f, ks@, vs@, false));
            }
            i = i + 1;
        }
        let ghost new_pairs = pairs_view(kept@);
        assert(keys_distinct(new_pairs)) by {
            assert forall|a: int, b: int|
                0 <= a < new_pairs.len() && 0 <= b < new_pairs.len() && a != b implies (
                #[trigger] new_pairs[a]).0 != (#[trigger] new_pairs[b]).0 by {
                assert(new_pairs[a] == ps[idx[a]]);
                assert(new_pairs[b] == ps[idx[b]]);
                assert(idx[a] != idx[b]);
            }
        }
        self.entries = kept;
        proof {
            assert forall|k: Seq<char>| #[trigger] pairs_map(new_pairs).contains_key(k) implies pairs_map(
                ps,
            ).contains_key(k) && pairs_map(new_pairs)[k] == pairs_map(ps)[k] && kept_by(
                f,
                k,
                pairs_map(ps)[k],
                true,
            ) by {
                let j = choose|j: int| 0 <= j < new_pairs.len() && (#[trigger] new_pairs[j]).0 == k;
                lemma_pairs_map_at(new_pairs, j);
                assert(new_pairs[j] == ps[idx[j]]);
                lemma_pairs_map_at(ps, idx[j]);
            }
            assert forall|k: Seq<char>|
                #[trigger] pairs_map(ps).contains_key(k) && !pairs_map(new_pairs).contains_key(
                    k,
                ) implies kept_by(f, k, pairs_map(ps)[k], false) by {
                let h = choose|h: int| 0 <= h < ps.len() && (#[trigger] ps[h]).0 == k;
                lemma_pairs_map_at(ps, h);
                if idx.contains(h) {
                    let j = choose|j: int| 0 <= j < idx.len() && idx[j] == h;
                    assert(new_pairs[j] == ps[h]);
                    assert(has_key(new_pairs, k));
                }
            }
        }
    }

    /// Removes every property.
    pub fn clear(&mut self)
        ensures
            final(self)@ == Map::<Seq<char>, Seq<char>>::empty(),
    {
        self.entries = Vec::new();
        assert(self@ =~= Map::<Seq<char>, Seq<char>>::empty());
    }
}

} // verus!
