//! A map from text keys to values that keeps its entries in the order in
//! which their keys were first inserted.

use vstd::prelude::*;
use crate::text::str_is;
use crate::parser::blocks::Block;

verus! {

/// The keys of a list of entries, by position.
pub open spec fn entry_keys<V>(e: Seq<(String, V)>) -> Seq<Seq<char>> {
    e.map_values(|p: (String, V)| p.0@)
}

/// No key occurs twice among the entries.
pub open spec fn keys_unique<V>(e: Seq<(String, V)>) -> bool {
    forall|i: int, j: int| 0 <= i < e.len() && 0 <= j < e.len() && i != j ==> (#[trigger] e[i]).0@ != (#[trigger] e[j]).0@
}

/// The position of the entry with key `k`.
pub open spec fn key_pos<V>(e: Seq<(String, V)>, k: Seq<char>) -> int {
    choose|i: int| 0 <= i < e.len() && (#[trigger] e[i]).0@ == k
}

/// Whether some entry has key `k`.
pub open spec fn has_entry<V>(e: Seq<(String, V)>, k: Seq<char>) -> bool {
    exists|i: int| 0 <= i < e.len() && (#[trigger] e[i]).0@ == k
}

/// The map that the entries describe.
pub open spec fn entries_map<V>(e: Seq<(String, V)>) -> Map<Seq<char>, V> {
    Map::new(|k: Seq<char>| has_entry(e, k), |k: Seq<char>| e[key_pos(e, k)].1)
}

/// With keys unique, the entry at `i` is what the map holds for its key.
pub proof fn lemma_entry_in_map<V>(e: Seq<(String, V)>, i: int)
    requires
        keys_unique(e),
        0 <= i < e.len(),
    ensures
        entries_map(e).contains_key(e[i].0@),
        entries_map(e)[e[i].0@] == e[i].1,
        key_pos(e, e[i].0@) == i,
{
    assert(has_entry(e, e[i].0@));
}

/// The views of the values of a map of strings.
pub open spec fn text_view(m: Map<Seq<char>, String>) -> Map<Seq<char>, Seq<char>> {
    m.map_values(|s: String| s@)
}

/// A map from text keys to values; its entries stay in the order in which
/// their keys were first inserted, and no key occurs twice.
pub struct TextMap<V> {
    entries: Vec<(String, V)>,
}

impl<V> TextMap<V> {
    #[verifier::type_invariant]
    spec fn inv(self) -> bool {
        keys_unique(self.entries@)
    }

    /// The entries in order.
    pub closed spec fn pairs(self) -> Seq<(String, V)> {
        self.entries@
    }

    /// The keys in order.
    pub open spec fn key_seq(self) -> Seq<Seq<char>> {
        entry_keys(self.pairs())
    }
}

impl<V> View for TextMap<V> {
    type V = Map<Seq<char>, V>;

    open spec fn view(&self) -> Map<Seq<char>, V> {
        entries_map(self.pairs())
    }
}

impl<V> TextMap<V> {
    /// An empty map.
    pub fn new() -> (r: Self)
        ensures
            r@ == Map::<Seq<char>, V>::empty(),
            r.pairs().len() == 0,
    {
        let r = TextMap { entries: Vec::new() };
        proof {
            assert(r@ =~= Map::<Seq<char>, V>::empty());
        }
        r
    }

    /// The number of entries.
    pub fn len(&self) -> (r: usize)
        ensures
            r == self.pairs().len(),
    {
        self.entries.len()
    }

    /// The position of the entry with key `k`, if any.
    fn find(&self, k: &str) -> (r: Option<usize>)
        ensures
            r matches Some(i) ==> i < self.entries@.len() && self.entries@[i as int].0@ == k@,
            r is None ==> !has_entry(self.entries@, k@),
    {
        let n = self.entries.len();
        let mut i: usize = 0;
        while i < n
            invariant
                n == self.entries@.len(),
                i <= n,
                forall|j: int| 0 <= j < i ==> (#[trigger] self.entries@[j]).0@ != k@,
            decreases n - i,
        {
            if str_is(self.entries[i].0.as_str(), k) {
                return Some(i);
            }
            i = i + 1;
        }
        None
    }

    /// Whether `k` is a key.
    pub fn contains_key(&self, k: &str) -> (r: bool)
        ensures
            r == self@.contains_key(k@),
    {
        self.find(k).is_some()
    }

    /// The value for `k`, if any.
    pub fn get(&self, k: &str) -> (r: Option<&V>)
        ensures
            r is Some == self@.contains_key(k@),
            r matches Some(v) ==> *v == self@[k@],
    {
        proof {
            use_type_invariant(self);
        }
        match self.find(k) {
            Some(i) => {
                proof {
                    lemma_entry_in_map(self.entries@, i as int);
                }
                Some(&self.entries[i].1)
            },
            None => None,
        }
    }

    /// Sets the value for `k`: an existing entry keeps its place, a new one
    /// goes last.
    pub fn insert(&mut self, k: String, v: V)
        ensures
            final(self)@ == old(self)@.insert(k@, v),
            old(self)@.contains_key(k@) ==> final(self).key_seq() == old(self).key_seq(),
            !old(self)@.contains_key(k@) ==> final(self).key_seq() == old(self).key_seq().push(k@),
    {
        proof {
            use_type_invariant(&*self);
        }
        let ghost old_e = self.entries@;
        let found = self.find(k.as_str());
        let ghost kv = k@;
        let mut entries: Vec<(String, V)> = Vec::new();
        std::mem::swap(&mut entries, &mut self.entries);
        match found {
            Some(i) => {
                entries.set(i, (k, v));
                proof {
                    let e = entries@;
                    assert(keys_unique(e)) by {
                        assert forall|a: int, b: int| 0 <= a < e.len() && 0 <= b < e.len() && a != b
                            implies (#[trigger] e[a]).0@ != (#[trigger] e[b]).0@ by {
                            if a != i && b != i {
                                assert(old_e[a] == e[a] && old_e[b] == e[b]);
                            } else if a == i {
                                assert(old_e[b] == e[b]);
                            } else {
                                assert(old_e[a] == e[a]);
                            }
                        }
                    }
                    assert(e[i as int].0@ == kv && old_e[i as int].0@ == kv);
                    assert forall|key: Seq<char>| entries_map(e).contains_key(key) == entries_map(old_e).insert(kv, v).contains_key(key) by {
                        if key == kv {
                            assert(has_entry(e, key) && has_entry(old_e, key));
                        }
                        if has_entry(old_e, key) {
                            let j = choose|j: int| 0 <= j < old_e.len() && (#[trigger] old_e[j]).0@ == key;
                            if j != i {
                                assert(e[j] == old_e[j]);
                            }
                        }
                        if has_entry(e, key) {
                            let j = choose|j: int| 0 <= j < e.len() && (#[trigger] e[j]).0@ == key;
                            if j != i {
                                assert(e[j] == old_e[j]);
                            }
                        }
                    }
                    assert forall|key: Seq<char>| #[trigger] entries_map(e).contains_key(key) implies entries_map(e)[key] == entries_map(old_e).insert(kv, v)[key] by {
                        let j = choose|j: int| 0 <= j < e.len() && (#[trigger] e[j]).0@ == key;
                        lemma_entry_in_map(e, j);
                        if j != i {
                            assert(e[j] == old_e[j]);
                            lemma_entry_in_map(old_e, j);
                        }
                    }
                    assert(entries_map(e) =~= entries_map(old_e).insert(kv, v));
                    assert(entry_keys(e) =~= entry_keys(old_e));
                }
            },
            None => {
                entries.push((k, v));
                proof {
                    let e = entries@;
                    let n = old_e.len() as int;
                    assert(keys_unique(e)) by {
                        assert forall|a: int, b: int| 0 <= a < e.len() && 0 <= b < e.len() && a != b
                            implies (#[trigger] e[a]).0@ != (#[trigger] e[b]).0@ by {
                            if a < n && b < n {
                                assert(old_e[a] == e[a] && old_e[b] == e[b]);
                            } else if a == n {
                                assert(old_e[b] == e[b]);
                            } else {
                                assert(old_e[a] == e[a]);
                            }
                        }
                    }
                    assert forall|key: Seq<char>| entries_map(e).contains_key(key) == entries_map(old_e).insert(kv, v).contains_key(key) by {
                        if has_entry(old_e, key) {
                            let j = choose|j: int| 0 <= j < old_e.len() && (#[trigger] old_e[j]).0@ == key;
                            assert(e[j] == old_e[j]);
                        }
                        if has_entry(e, key) {
                            let j = choose|j: int| 0 <= j < e.len() && (#[trigger] e[j]).0@ == key;
                            if j < n {
                                assert(e[j] == old_e[j]);
                            }
                        }
                        assert(e[n].0@ == kv);
                    }
                    assert forall|key: Seq<char>| #[trigger] entries_map(e).contains_key(key) implies entries_map(e)[key] == entries_map(old_e).insert(kv, v)[key] by {
                        let j = choose|j: int| 0 <= j < e.len() && (#[trigger] e[j]).0@ == key;
                        lemma_entry_in_map(e, j);
                        if j < n {
                            assert(e[j] == old_e[j]);
                            lemma_entry_in_map(old_e, j);
                        }
                    }
                    assert(entries_map(e) =~= entries_map(old_e).insert(kv, v));
                    assert(entry_keys(e) =~= entry_keys(old_e).push(kv));
                }
            },
        }
        self.entries = entries;
    }

    /// Removes every entry.
    pub fn clear(&mut self)
        ensures
            final(self)@ == Map::<Seq<char>, V>::empty(),
            final(self).pairs().len() == 0,
    {
        self.entries = Vec::new();
        proof {
            assert(entries_map(self.entries@) =~= Map::<Seq<char>, V>::empty());
        }
    }

    /// The entry at position `i`.
    pub fn entry(&self, i: usize) -> (r: (&String, &V))
        requires
            i < self.pairs().len(),
        ensures
            *r.0 == self.pairs()[i as int].0,
            *r.1 == self.pairs()[i as int].1,
            self@.contains_key(r.0@),
            self@[r.0@] == *r.1,
    {
        proof {
            use_type_invariant(self);
            lemma_entry_in_map(self.entries@, i as int);
        }
        (&self.entries[i].0, &self.entries[i].1)
    }
}

impl TextMap<String> {
    /// A copy of the map, its entries in the same order.
    pub fn copy(&self) -> (r: Self)
        ensures
            text_view(r@) == text_view(self@),
            r.key_seq() == self.key_seq(),
            entry_views(r.pairs()) == entry_views(self.pairs()),
    {
        proof {
            use_type_invariant(self);
        }
        let n = self.entries.len();
        let mut entries: Vec<(String, String)> = Vec::new();
        let mut i: usize = 0;
        while i < n
            invariant
                n == self.entries@.len(),
                i <= n,
                entries@.len() == i,
                forall|j: int| 0 <= j < i ==> (#[trigger] entries@[j]).0@ == self.entries@[j].0@
                    && entries@[j].1@ == self.entries@[j].1@,
            decreases n - i,
        {
            entries.push((self.entries[i].0.clone(), self.entries[i].1.clone()));
            i = i + 1;
        }
        let ghost e = entries@;
        let ghost o = self.entries@;
        proof {
            assert(keys_unique(e)) by {
                assert forall|a: int, b: int| 0 <= a < e.len() && 0 <= b < e.len() && a != b
                    implies (#[trigger] e[a]).0@ != (#[trigger] e[b]).0@ by {
                    assert(o[a].0@ != o[b].0@);
                }
            }
            assert forall|k: Seq<char>| has_entry(e, k) == has_entry(o, k) by {
                if has_entry(e, k) {
                    let j = choose|j: int| 0 <= j < e.len() && (#[trigger] e[j]).0@ == k;
                    assert(o[j].0@ == k);
                }
                if has_entry(o, k) {
                    let j = choose|j: int| 0 <= j < o.len() && (#[trigger] o[j]).0@ == k;
                    assert(e[j].0@ == k);
                }
            }
            assert forall|k: Seq<char>| #[trigger] text_view(entries_map(e)).contains_key(k)
                implies text_view(entries_map(e))[k] == text_view(entries_map(o))[k] by {
                let j = choose|j: int| 0 <= j < e.len() && (#[trigger] e[j]).0@ == k;
                lemma_entry_in_map(e, j);
                lemma_entry_in_map(o, j);
            }
            assert(text_view(entries_map(e)) =~= text_view(entries_map(o)));
            assert(entry_keys(e) =~= entry_keys(o));
            assert(entry_views(e) =~= entry_views(o));
        }
        TextMap { entries }
    }
}

/// The views of the entries of a map of strings.
pub open spec fn entry_views(ps: Seq<(String, String)>) -> Seq<(Seq<char>, Seq<char>)> {
    ps.map_values(|p: (String, String)| (p.0@, p.1@))
}

/// The views of the blocks of a map.
pub open spec fn block_map_view(m: Map<Seq<char>, Block>) -> Map<Seq<char>, crate::parser::blocks::BlockModel> {
    m.map_values(|b: Block| b@)
}

impl TextMap<Block> {
    /// A copy of the map, its entries in the same order.
    pub fn copy(&self) -> (r: Self)
        ensures
            block_map_view(r@) == block_map_view(self@),
            r.key_seq() == self.key_seq(),
    {
        proof {
            use_type_invariant(self);
        }
        let n = self.entries.len();
        let mut entries: Vec<(String, Block)> = Vec::new();
        let mut i: usize = 0;
        while i < n
            invariant
                n == self.entries@.len(),
                i <= n,
                entries@.len() == i,
                forall|j: int| 0 <= j < i ==> (#[trigger] entries@[j]).0@ == self.entries@[j].0@
                    && entries@[j].1@ == self.entries@[j].1@,
            decreases n - i,
        {
            entries.push((self.entries[i].0.clone(), self.entries[i].1.copy()));
            i = i + 1;
        }
        let ghost e = entries@;
        let ghost o = self.entries@;
        proof {
            assert(keys_unique(e)) by {
                assert forall|a: int, b: int| 0 <= a < e.len() && 0 <= b < e.len() && a != b
                    implies (#[trigger] e[a]).0@ != (#[trigger] e[b]).0@ by {
                    assert(o[a].0@ != o[b].0@);
                }
            }
            assert forall|k: Seq<char>| has_entry(e, k) == has_entry(o, k) by {
                if has_entry(e, k) {
                    let j = choose|j: int| 0 <= j < e.len() && (#[trigger] e[j]).0@ == k;
                    assert(o[j].0@ == k);
                }
                if has_entry(o, k) {
                    let j = choose|j: int| 0 <= j < o.len() && (#[trigger] o[j]).0@ == k;
                    assert(e[j].0@ == k);
                }
            }
            assert forall|k: Seq<char>| #[trigger] block_map_view(entries_map(e)).contains_key(k)
                implies block_map_view(entries_map(e))[k] == block_map_view(entries_map(o))[k] by {
                let j = choose|j: int| 0 <= j < e.len() && (#[trigger] e[j]).0@ == k;
                lemma_entry_in_map(e, j);
                lemma_entry_in_map(o, j);
            }
            assert(block_map_view(entries_map(e)) =~= block_map_view(entries_map(o)));
            assert(entry_keys(e) =~= entry_keys(o));
        }
        TextMap { entries }
    }
}

} // verus!
