//! Finite maps and sets of strings, kept in vectors: the registry of the
//! signaling server and the router's bookkeeping of tasks and busy hosts.
use vstd::prelude::*;
use crate::json::pair_views;
use crate::json::string_views;

verus! {

/// No key occurs twice in a list of key and value pairs.
pub open spec fn keys_distinct(ps: Seq<(Seq<char>, Seq<char>)>) -> bool {
    forall|i: int, j: int| 0 <= i < j < ps.len() ==> ps[i].0 != ps[j].0
}

/// `k` is the key of some pair of `ps`.
pub open spec fn has_key(ps: Seq<(Seq<char>, Seq<char>)>, k: Seq<char>) -> bool {
    exists|i: int| 0 <= i < ps.len() && #[trigger] ps[i].0 == k
}

/// The map that a list of pairs with distinct keys stands for.
pub open spec fn assoc(ps: Seq<(Seq<char>, Seq<char>)>) -> Map<Seq<char>, Seq<char>> {
    Map::new(
        |k: Seq<char>| has_key(ps, k),
        |k: Seq<char>| ps[choose|i: int| 0 <= i < ps.len() && #[trigger] ps[i].0 == k].1,
    )
}

/// In a list with distinct keys, the map gives each key the value of its
/// pair.
pub proof fn lemma_assoc_at(ps: Seq<(Seq<char>, Seq<char>)>, i: int)
    requires
        keys_distinct(ps),
        0 <= i < ps.len(),
    ensures
        assoc(ps).contains_key(ps[i].0),
        assoc(ps)[ps[i].0] == ps[i].1,
{
    let k = ps[i].0;
    assert(has_key(ps, k));
    let j = choose|j: int| 0 <= j < ps.len() && #[trigger] ps[j].0 == k;
    if j != i {
        if j < i {
            assert(ps[j].0 != ps[i].0);
        } else {
            assert(ps[i].0 != ps[j].0);
        }
    }
}

/// A finite map from strings to strings. A key occurs at most once.
pub struct StrMap {
    entries: Vec<(String, String)>,
}

impl View for StrMap {
    type V = Map<Seq<char>, Seq<char>>;

    /// Each key mapped to its value.
    open spec fn view(&self) -> Map<Seq<char>, Seq<char>> {
        assoc(self.pairs())
    }
}

impl StrMap {
    /// The key and value pairs, in the order in which the keys came in.
    pub closed spec fn pairs(&self) -> Seq<(Seq<char>, Seq<char>)> {
        pair_views(self.entries@)
    }

    /// No key occurs twice.
    pub open spec fn wf(&self) -> bool {
        keys_distinct(self.pairs())
    }

    /// The key and value pairs.
    pub fn entries(&self) -> (r: &Vec<(String, String)>)
        ensures
            pair_views(r@) == self.pairs(),
    {
        &self.entries
    }

    /// An empty map.
    pub fn new() -> (r: StrMap)
        ensures
            r.wf(),
            r@ == Map::<Seq<char>, Seq<char>>::empty(),
    {
        let r = StrMap { entries: Vec::new() };
        assert(r@ =~= Map::<Seq<char>, Seq<char>>::empty());
        r
    }

    fn find(&self, key: &String) -> (r: Option<usize>)
        requires
            self.wf(),
        ensures
            r matches Some(i) ==> i < self.entries@.len() && self.entries@[i as int].0@ == key@,
            r is None ==> !has_key(pair_views(self.entries@), key@),
    {
        let mut i: usize = 0;
        while i < self.entries.len()
            invariant
                i <= self.entries@.len(),
                forall|k: int| 0 <= k < i ==> self.entries@[k].0@ != key@,
            decreases self.entries.len() - i,
        {
            if self.entries[i].0 == *key {
                return Some(i);
            }
            i = i + 1;
        }
        proof {
            let ps = pair_views(self.entries@);
            if has_key(ps, key@) {
                let k = choose|k: int| 0 <= k < ps.len() && #[trigger] ps[k].0 == key@;
                assert(self.entries@[k].0@ == key@);
            }
        }
        None
    }

    /// Whether `key` is a key.
    pub fn contains_key(&self, key: &String) -> (r: bool)
        requires
            self.wf(),
        ensures
            r == self@.contains_key(key@),
    {
        match self.find(key) {
            Some(i) => {
                proof {
                    lemma_assoc_at(pair_views(self.entries@), i as int);
                }
                true
            },
            None => false,
        }
    }

    /// The value of `key`, if it is a key.
    pub fn get(&self, key: &String) -> (r: Option<String>)
        requires
            self.wf(),
        ensures
            r is Some == self@.contains_key(key@),
            r matches Some(c) ==> c@ == self@[key@],
    {
        match self.find(key) {
            Some(i) => {
                proof {
                    lemma_assoc_at(pair_views(self.entries@), i as int);
                }
                Some(self.entries[i].1.clone())
            },
            None => None,
        }
    }

    /// Maps `key` to `value`, in place of any value it had.
    pub fn insert(&mut self, key: String, value: String)
        requires
            old(self).wf(),
        ensures
            final(self).wf(),
            final(self)@ == old(self)@.insert(key@, value@),
    {
        let ghost old_ps = pair_views(self.entries@);
        let ghost k = key@;
        let ghost v = value@;
        match self.find(&key) {
            Some(i) => {
                self.entries.set(i, (key, value));
                proof {
                    let ps = pair_views(self.entries@);
                    assert(ps =~= old_ps.update(i as int, (k, v)));
                    assert(keys_distinct(ps)) by {
                        assert forall|a: int, b: int| 0 <= a < b < ps.len() implies ps[a].0
                            != ps[b].0 by {
                            assert(ps[a].0 == old_ps[a].0);
                            assert(ps[b].0 == old_ps[b].0);
                        }
                    }
                    assert forall|key: Seq<char>| #[trigger]
                        self@.contains_key(key) == old(self)@.insert(k, v).contains_key(key) by {
                        if has_key(old_ps, key) {
                            let j = choose|j: int| 0 <= j < old_ps.len() && #[trigger] old_ps[j].0 == key;
                            assert(ps[j].0 == key);
                        }
                        if key == k {
                            assert(ps[i as int].0 == key);
                        }
                        if has_key(ps, key) {
                            let j = choose|j: int| 0 <= j < ps.len() && #[trigger] ps[j].0 == key;
                            if j != i {
                                assert(old_ps[j].0 == key);
                            }
                        }
                    }
                    assert forall|key: Seq<char>| #[trigger] self@.contains_key(key) implies self@[key]
                        == old(self)@.insert(k, v)[key] by {
                        let j = choose|j: int| 0 <= j < ps.len() && #[trigger] ps[j].0 == key;
                        lemma_assoc_at(ps, j);
                        if j != i {
                            lemma_assoc_at(old_ps, j);
                            if j < i {
                                assert(old_ps[j].0 != old_ps[i as int].0);
                            } else {
                                assert(old_ps[i as int].0 != old_ps[j].0);
                            }
                        }
                    }
                    assert(self@ =~= old(self)@.insert(k, v));
                }
            },
            None => {
                self.entries.push((key, value));
                proof {
                    let ps = pair_views(self.entries@);
                    assert(ps =~= old_ps.push((k, v)));
                    assert(keys_distinct(ps)) by {
                        assert forall|a: int, b: int| 0 <= a < b < ps.len() implies ps[a].0
                            != ps[b].0 by {
                            if b == old_ps.len() {
                                assert(old_ps[a].0 == ps[a].0);
                            }
                        }
                    }
                    let n = old_ps.len() as int;
                    assert forall|key: Seq<char>| #[trigger]
                        self@.contains_key(key) == old(self)@.insert(k, v).contains_key(key) by {
                        if has_key(old_ps, key) {
                            let j = choose|j: int| 0 <= j < old_ps.len() && #[trigger] old_ps[j].0 == key;
                            assert(ps[j].0 == key);
                        }
                        if key == k {
                            assert(ps[n].0 == key);
                        }
                        if has_key(ps, key) {
                            let j = choose|j: int| 0 <= j < ps.len() && #[trigger] ps[j].0 == key;
                            if j != n {
                                assert(old_ps[j].0 == key);
                            }
                        }
                    }
                    assert forall|key: Seq<char>| #[trigger] self@.contains_key(key) implies self@[key]
                        == old(self)@.insert(k, v)[key] by {
                        let j = choose|j: int| 0 <= j < ps.len() && #[trigger] ps[j].0 == key;
                        lemma_assoc_at(ps, j);
                        if j != n {
                            lemma_assoc_at(old_ps, j);
                        }
                    }
                    assert(self@ =~= old(self)@.insert(k, v));
                }
            },
        }
    }

    /// Removes `key` and its value, if it is a key.
    pub fn remove(&mut self, key: &String)
        requires
            old(self).wf(),
        ensures
            final(self).wf(),
            final(self)@ == old(self)@.remove(key@),
    {
        let ghost old_ps = pair_views(self.entries@);
        let ghost k = key@;
        match self.find(key) {
            Some(i) => {
                self.entries.remove(i);
                proof {
                    let ps = pair_views(self.entries@);
                    assert(ps =~= old_ps.remove(i as int));
                    assert(keys_distinct(ps)) by {
                        assert forall|a: int, b: int| 0 <= a < b < ps.len() implies ps[a].0
                            != ps[b].0 by {
                            let oa = if a < i { a } else { a + 1 };
                            let ob = if b < i { b } else { b + 1 };
                            assert(ps[a] == old_ps[oa]);
                            assert(ps[b] == old_ps[ob]);
                        }
                    }
                    assert forall|key: Seq<char>| #[trigger]
                        self@.contains_key(key) == old(self)@.remove(k).contains_key(key) by {
                        if has_key(old_ps, key) && key != k {
                            let j = choose|j: int| 0 <= j < old_ps.len() && #[trigger] old_ps[j].0 == key;
                            if j < i {
                                assert(ps[j].0 == key);
                            } else {
                                assert(ps[j - 1].0 == key);
                            }
                        }
                        if has_key(ps, key) {
                            let j = choose|j: int| 0 <= j < ps.len() && #[trigger] ps[j].0 == key;
                            let oj = if j < i { j } else { j + 1 };
                            assert(old_ps[oj].0 == key);
                            if key == k {
                                assert(old_ps[i as int].0 == k);
                            }
                        }
                    }
                    assert forall|key: Seq<char>| #[trigger] self@.contains_key(key) implies self@[key]
                        == old(self)@.remove(k)[key] by {
                        let j = choose|j: int| 0 <= j < ps.len() && #[trigger] ps[j].0 == key;
                        let oj = if j < i { j } else { j + 1 };
                        lemma_assoc_at(ps, j);
                        lemma_assoc_at(old_ps, oj);
                    }
                    assert(self@ =~= old(self)@.remove(k));
                }
            },
            None => {
                assert(self@ =~= old(self)@.remove(k));
            },
        }
    }
}

/// A finite set of strings. A string occurs at most once.
pub struct StrSet {
    items: Vec<String>,
}

impl View for StrSet {
    type V = Set<Seq<char>>;

    /// The strings in the set.
    open spec fn view(&self) -> Set<Seq<char>> {
        self.elems().to_set()
    }
}

impl StrSet {
    /// The strings, in the order in which they came in.
    pub closed spec fn elems(&self) -> Seq<Seq<char>> {
        string_views(self.items@)
    }

    /// No string occurs twice.
    pub open spec fn wf(&self) -> bool {
        self.elems().no_duplicates()
    }

    /// An empty set.
    pub fn new() -> (r: StrSet)
        ensures
            r.wf(),
            r@ == Set::<Seq<char>>::empty(),
    {
        let r = StrSet { items: Vec::new() };
        assert(r@ =~= Set::<Seq<char>>::empty());
        r
    }

    fn find(&self, s: &String) -> (r: Option<usize>)
        ensures
            r matches Some(i) ==> i < self.items@.len() && self.elems()[i as int] == s@,
            r is None ==> !self@.contains(s@),
    {
        let mut i: usize = 0;
        while i < self.items.len()
            invariant
                i <= self.items@.len(),
                forall|k: int| 0 <= k < i ==> self.items@[k]@ != s@,
            decreases self.items.len() - i,
        {
            if self.items[i] == *s {
                return Some(i);
            }
            i = i + 1;
        }
        proof {
            if self@.contains(s@) {
                let k = choose|k: int| 0 <= k < self.elems().len() && self.elems()[k] == s@;
                assert(self.items@[k]@ == s@);
            }
        }
        None
    }

    /// Whether `s` is in the set.
    pub fn contains(&self, s: &String) -> (r: bool)
        ensures
            r == self@.contains(s@),
    {
        match self.find(s) {
            Some(i) => {
                assert(self.elems().contains(s@));
                true
            },
            None => false,
        }
    }

    /// Adds `s` to the set.
    pub fn insert(&mut self, s: String)
        requires
            old(self).wf(),
        ensures
            final(self).wf(),
            final(self)@ == old(self)@.insert(s@),
    {
        let ghost old_e = self.elems();
        if self.find(&s).is_none() {
            let ghost v = s@;
            self.items.push(s);
            proof {
                assert(self.elems() =~= old_e.push(v));
                assert(self.elems().no_duplicates()) by {
                    assert forall|a: int, b: int|
                        0 <= a < self.elems().len() && 0 <= b < self.elems().len() && a != b
                        implies self.elems()[a] != self.elems()[b] by {
                        if a == old_e.len() {
                            assert(old_e.contains(old_e[b]));
                        } else if b == old_e.len() {
                            assert(old_e.contains(old_e[a]));
                        }
                    }
                }
                assert(self@ =~= old(self)@.insert(v)) by {
                    assert forall|x: Seq<char>| self@.contains(x) == old(self)@.insert(v).contains(x) by {
                        if old_e.contains(x) {
                            let k = choose|k: int| 0 <= k < old_e.len() && old_e[k] == x;
                            assert(self.elems()[k] == x);
                        }
                        if x == v {
                            assert(self.elems()[old_e.len() as int] == x);
                        }
                        if self.elems().contains(x) {
                            let k = choose|k: int| 0 <= k < self.elems().len() && self.elems()[k] == x;
                            if k < old_e.len() {
                                assert(old_e[k] == x);
                            }
                        }
                    }
                }
            }
        } else {
            assert(self@ =~= old(self)@.insert(s@));
        }
    }

    /// Removes `s` from the set, if it is there.
    pub fn remove(&mut self, s: &String)
        requires
            old(self).wf(),
        ensures
            final(self).wf(),
            final(self)@ == old(self)@.remove(s@),
    {
        let ghost old_e = self.elems();
        match self.find(s) {
            Some(i) => {
                self.items.remove(i);
                proof {
                    let e = self.elems();
                    assert(e =~= old_e.remove(i as int));
                    assert(e.no_duplicates()) by {
                        assert forall|a: int, b: int| 0 <= a < e.len() && 0 <= b < e.len() && a != b
                            implies e[a] != e[b] by {
                            let oa = if a < i { a } else { a + 1 };
                            let ob = if b < i { b } else { b + 1 };
                            assert(e[a] == old_e[oa]);
                            assert(e[b] == old_e[ob]);
                        }
                    }
                    assert forall|x: Seq<char>| self@.contains(x) == old(self)@.remove(s@).contains(x) by {
                        if e.contains(x) {
                            let k = choose|k: int| 0 <= k < e.len() && e[k] == x;
                            let ok = if k < i { k } else { k + 1 };
                            assert(old_e[ok] == x);
                            assert(old_e.contains(x));
                            if x == s@ {
                                assert(old_e[i as int] == x);
                            }
                        }
                        if old_e.contains(x) && x != s@ {
                            let k = choose|k: int| 0 <= k < old_e.len() && old_e[k] == x;
                            if k < i {
                                assert(e[k] == x);
                            } else {
                                assert(k != i);
                                assert(e[k - 1] == x);
                            }
                        }
                    }
                    assert(self@ =~= old(self)@.remove(s@));
                }
            },
            None => {
                assert(self@ =~= old(self)@.remove(s@));
            },
        }
    }
}

}
