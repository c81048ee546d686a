//! A map keyed by text that keeps its entries in the order in which their keys
//! first came in.

use vstd::prelude::*;

use crate::text;

verus! {

/// A map from text to `V`. No key occurs twice.
pub struct StrMap<V> {
    entries: Vec<(String, V)>,
}

/// Whether no two entries have the same key.
pub open spec fn keys_differ<V>(entries: Seq<(String, V)>) -> bool {
    forall|i: int, j: int|
        0 <= i < entries.len() && 0 <= j < entries.len() && i != j ==> (#[trigger] entries[i]).0@ != (
        #[trigger] entries[j]).0@
}

/// The keys of a run of entries, in order.
pub open spec fn entry_keys<V>(entries: Seq<(String, V)>) -> Seq<Seq<char>> {
    Seq::new(entries.len(), |i: int| entries[i].0@)
}

/// The map that a run of entries with different keys stands for.
pub open spec fn entry_map<V>(entries: Seq<(String, V)>) -> Map<Seq<char>, V> {
    Map::new(
        |k: Seq<char>| entry_keys(entries).contains(k),
        |k: Seq<char>| entries[entry_keys(entries).index_of(k)].1,
    )
}

impl<V> View for StrMap<V> {
    type V = Map<Seq<char>, V>;

    closed spec fn view(&self) -> Map<Seq<char>, V> {
        entry_map(self.entries@)
    }
}

proof fn lemma_entry<V>(entries: Seq<(String, V)>, i: int)
    requires
        keys_differ(entries),
        0 <= i < entries.len(),
    ensures
        entry_map(entries).dom().contains(entries[i].0@),
        entry_map(entries)[entries[i].0@] == entries[i].1,
{
    let k = entries[i].0@;
    assert(entry_keys(entries)[i] == k);
    let j = entry_keys(entries).index_of(k);
    assert(entry_keys(entries)[j] == k);
    assert(entries[j].0@ == k);
}

proof fn lemma_len<V>(entries: Seq<(String, V)>)
    requires
        keys_differ(entries),
    ensures
        entry_map(entries).dom().finite(),
        entry_map(entries).len() == entries.len(),
        entry_map(entries).dom() == entry_keys(entries).to_set(),
        entry_keys(entries).no_duplicates(),
{
    let keys = entry_keys(entries);
    assert(keys.no_duplicates()) by {
        assert forall|i: int, j: int|
            0 <= i < keys.len() && 0 <= j < keys.len() && i != j implies keys[i] != keys[j] by {
            assert(entries[i].0@ != entries[j].0@);
        }
    }
    assert(entry_map(entries).dom() =~= keys.to_set());
    keys.unique_seq_to_set();
    vstd::seq_lib::seq_to_set_is_finite(keys);
}

impl<V> StrMap<V> {
    #[verifier::type_invariant]
    spec fn inv(self) -> bool {
        keys_differ(self.entries@)
    }

    /// The keys, in the order in which they first came in.
    pub closed spec fn order(self) -> Seq<Seq<char>> {
        entry_keys(self.entries@)
    }

    /// The empty map.
    pub fn new() -> (m: StrMap<V>)
        ensures
            m@ == Map::<Seq<char>, V>::empty(),
            m.order() == Seq::<Seq<char>>::empty(),
    {
        let m = StrMap { entries: Vec::new() };
        proof {
            assert(m@ =~= Map::empty());
            assert(m.order() =~= Seq::empty());
        }
        m
    }

    /// The map with those entries, whose keys differ.
    pub fn from_entries(entries: Vec<(String, V)>) -> (m: StrMap<V>)
        requires
            keys_differ(entries@),
        ensures
            m@ == entry_map(entries@),
            m.order() == entry_keys(entries@),
    {
        StrMap { entries }
    }

    /// The number of entries.
    pub fn len(&self) -> (n: usize)
        ensures
            n == self@.len(),
            n == self.order().len(),
            self@.dom().finite(),
            self@.dom() == self.order().to_set(),
            self.order().no_duplicates(),
    {
        proof {
            use_type_invariant(self);
            lemma_len(self.entries@);
        }
        self.entries.len()
    }

    /// Whether there is no entry.
    pub fn is_empty(&self) -> (r: bool)
        ensures
            r == (self@ == Map::<Seq<char>, V>::empty()),
            r == (self.order().len() == 0),
    {
        let r = self.entries.len() == 0;
        proof {
            use_type_invariant(self);
            if self.entries@.len() > 0 {
                lemma_entry(self.entries@, 0);
            } else {
                assert(self@ =~= Map::empty());
            }
        }
        r
    }

    fn position(&self, key: &str) -> (r: Option<usize>)
        ensures
            match r {
                Some(i) => i < self.entries@.len() && self.entries@[i as int].0@ == key@,
                None => !entry_keys(self.entries@).contains(key@),
            },
    {
        let want = text::chars_of(key);
        let mut i: usize = 0;
        while i < self.entries.len()
            invariant
                want@ == key@,
                i <= self.entries@.len(),
                forall|j: int| 0 <= j < i ==> (#[trigger] self.entries@[j]).0@ != key@,
            decreases self.entries@.len() - i,
        {
            let have = text::chars_of(self.entries[i].0.as_str());
            if text::same_chars(have.as_slice(), want.as_slice()) {
                return Some(i);
            }
            i = i + 1;
        }
        None
    }

    /// The value of `key`.
    pub fn get(&self, key: &str) -> (r: Option<&V>)
        ensures
            match r {
                Some(v) => self@.dom().contains(key@) && self@[key@] == *v,
                None => !self@.dom().contains(key@),
            },
    {
        proof {
            use_type_invariant(self);
        }
        match self.position(key) {
            Some(i) => {
                proof {
                    lemma_entry(self.entries@, i as int);
                }
                Some(&self.entries[i].1)
            },
            None => None,
        }
    }

    /// Whether `key` has a value.
    pub fn contains_key(&self, key: &str) -> (r: bool)
        ensures
            r == self@.dom().contains(key@),
    {
        self.get(key).is_some()
    }

    /// The key at place `i` of the order, and its value.
    pub fn at(&self, i: usize) -> (r: (&String, &V))
        requires
            i < self.order().len(),
        ensures
            r.0@ == self.order()[i as int],
            self@.dom().contains(r.0@),
            self@[r.0@] == *r.1,
    {
        proof {
            use_type_invariant(self);
            lemma_entry(self.entries@, i as int);
        }
        (&self.entries[i].0, &self.entries[i].1)
    }

    /// Gives `key` the value `value`, in place of the one that it had.
    pub fn insert(&mut self, key: String, value: V)
        ensures
            final(self)@ == old(self)@.insert(key@, value),
            final(self).order() == (if old(self)@.dom().contains(key@) {
                old(self).order()
            } else {
                old(self).order().push(key@)
            }),
    {
        proof {
            use_type_invariant(&*self);
        }
        let ghost before = self.entries@;
        let ghost want = entry_map(before).insert(key@, value);
        let ghost k = key@;
        let mut entries: Vec<(String, V)> = Vec::new();
        let place = self.position(key.as_str());
        std::mem::swap(&mut entries, &mut self.entries);
        match place {
            Some(i) => {
                proof {
                    lemma_entry(before, i as int);
                }
                entries.set(i, (key, value));
            },
            None => {
                entries.push((key, value));
            },
        }
        proof {
            let after = entries@;
            assert(keys_differ(after)) by {
                assert forall|a: int, b: int|
                    0 <= a < after.len() && 0 <= b < after.len() && a != b implies (
                #[trigger] after[a]).0@ != (#[trigger] after[b]).0@ by {
                    if place is None {
                        if a < before.len() {
                            assert(entry_keys(before)[a] == before[a].0@);
                        }
                        if b < before.len() {
                            assert(entry_keys(before)[b] == before[b].0@);
                        }
                    }
                }
            }
            if place is Some {
                assert(entry_keys(after) =~= entry_keys(before));
            } else {
                assert(entry_keys(after) =~= entry_keys(before).push(k));
            }
            assert forall|q: Seq<char>| entry_map(after).dom().contains(q) <==> want.dom().contains(
                q,
            ) by {
                if entry_keys(before).contains(q) {
                    let a = entry_keys(before).index_of(q);
                    assert(entry_keys(after)[a] == q);
                }
                if q == k {
                    let a = if place is Some {
                        place->0 as int
                    } else {
                        before.len() as int
                    };
                    assert(entry_keys(after)[a] == q);
                }
            }
            assert forall|q: Seq<char>| #[trigger] want.dom().contains(q) implies entry_map(after)[q]
                == want[q] by {
                let a = entry_keys(after).index_of(q);
                assert(entry_keys(after).contains(q)) by {
                    assert(entry_map(after).dom().contains(q));
                }
                assert(entry_keys(after)[a] == q);
                lemma_entry(after, a);
                if q != k {
                    assert(a < before.len());
                    lemma_entry(before, a);
                }
            }
            assert(entry_map(after).dom() =~= want.dom());
            assert(entry_map(after) =~= want);
        }
        self.entries = entries;
    }

    /// Takes `key` and its value out.
    pub fn remove(&mut self, key: &str) -> (r: Option<V>)
        ensures
            final(self)@ == old(self)@.remove(key@),
            match r {
                Some(v) => old(self)@.dom().contains(key@) && old(self)@[key@] == v
                    && final(self).order() == old(self).order().remove(
                    old(self).order().index_of(key@),
                ),
                None => !old(self)@.dom().contains(key@) && final(self).order() == old(
                    self,
                ).order(),
            },
    {
        proof {
            use_type_invariant(&*self);
        }
        let ghost before = self.entries@;
        let mut entries: Vec<(String, V)> = Vec::new();
        let place = self.position(key);
        match place {
            None => {
                proof {
                    assert(old(self)@.remove(key@) =~= old(self)@);
                }
                None
            },
            Some(i) => {
                std::mem::swap(&mut entries, &mut self.entries);
                let taken = entries.remove(i);
                proof {
                    lemma_entry(before, i as int);
                    let after = entries@;
                    assert(keys_differ(after));
                    let want = entry_map(before).remove(key@);
                    assert forall|q: Seq<char>| entry_map(after).dom().contains(q)
                        <==> want.dom().contains(q) by {
                        if entry_keys(after).contains(q) {
                            let a = entry_keys(after).index_of(q);
                            let b = if a < i { a } else { a + 1 };
                            assert(after[a] == before[b]);
                            assert(entry_keys(before)[b] == q);
                        }
                        if entry_keys(before).contains(q) && q != key@ {
                            let b = entry_keys(before).index_of(q);
                            let a = if b < i { b } else { b - 1 };
                            assert(before[b].0@ == q);
                            assert(b != i);
                            assert(after[a] == before[b]);
                            assert(entry_keys(after)[a] == q);
                        }
                    }
                    assert forall|q: Seq<char>| #[trigger] want.dom().contains(q) implies entry_map(
                        after,
                    )[q] == want[q] by {
                        assert(entry_map(after).dom().contains(q));
                        let a = entry_keys(after).index_of(q);
                        let b = if a < i { a } else { a + 1 };
                        assert(entry_keys(after)[a] == q);
                        lemma_entry(after, a);
                        lemma_entry(before, b);
                    }
                    assert(entry_map(after).dom() =~= want.dom());
                    assert(entry_map(after) =~= want);
                    let k = entry_keys(before).index_of(key@);
                    assert(entry_keys(before)[i as int] == key@);
                    assert(entry_keys(before)[k] == key@);
                    assert(before[k].0@ == before[i as int].0@);
                    assert(entry_keys(after) =~= entry_keys(before).remove(k));
                }
                self.entries = entries;
                Some(taken.1)
            },
        }
    }
}

/// The texts of a map of texts.
pub open spec fn text_map(m: Map<Seq<char>, String>) -> Map<Seq<char>, Seq<char>> {
    Map::new(|k: Seq<char>| m.dom().contains(k), |k: Seq<char>| m[k]@)
}

impl StrMap<String> {
    /// A copy of the map.
    pub fn copy(&self) -> (m: StrMap<String>)
        ensures
            m@ == self@,
            m.order() == self.order(),
    {
        let mut m: StrMap<String> = StrMap::new();
        let n: usize = self.len();
        let mut i: usize = 0;
        while i < n
            invariant
                i <= n,
                n == self.order().len(),
                self@.dom() == self.order().to_set(),
                self.order().no_duplicates(),
                m.order() == self.order().take(i as int),
                m@.dom() == m.order().to_set(),
                forall|k: Seq<char>| #[trigger] m@.dom().contains(k) ==> self@.dom().contains(k)
                    && m@[k] == self@[k],
            decreases n - i,
        {
            let e = self.at(i);
            let ghost before = m.order();
            proof {
                if before.contains(e.0@) {
                    let j = before.index_of(e.0@);
                    assert(self.order()[j] == self.order()[i as int]);
                }
                assert(self.order().take(i + 1) =~= before.push(e.0@));
            }
            m.insert(e.0.clone(), e.1.clone());
            proof {
                assert(m.order() == before.push(e.0@));
                assert forall|k: Seq<char>| m@.dom().contains(k) <==> m.order().to_set().contains(
                    k,
                ) by {
                    if before.contains(k) {
                        let j = before.index_of(k);
                        assert(m.order()[j] == k);
                        assert(before.to_set().contains(k));
                    }
                    if k == e.0@ {
                        assert(m.order()[i as int] == k);
                    }
                    if m.order().contains(k) && k != e.0@ {
                        let j = m.order().index_of(k);
                        assert(before[j] == k);
                        assert(before.to_set().contains(k));
                    }
                }
                assert(m@.dom() =~= m.order().to_set());
            }
            i = i + 1;
        }
        proof {
            assert(self.order().take(n as int) =~= self.order());
            assert(m@ =~= self@);
        }
        m
    }
}

/// What a map of texts holds is seen under the same keys; and of entries whose keys differ,
/// each is found under its own.
pub proof fn law_entries_are_found<V>(
    m: Map<Seq<char>, String>,
    k: Seq<char>,
    entries: Seq<(String, V)>,
    i: int,
)
    requires
        keys_differ(entries),
        0 <= i < entries.len(),
    ensures
        text_map(m).dom() == m.dom(),
        m.dom().contains(k) ==> text_map(m)[k] == m[k]@,
        entry_map(entries).dom().contains(entries[i].0@),
        entry_map(entries)[entries[i].0@] == entries[i].1,
        entry_map(entries).dom().contains(k) <==> exists|j: int|
            0 <= j < entries.len() && (#[trigger] entries[j]).0@ == k,
{
    lemma_entry(entries, i);
    assert(text_map(m).dom() =~= m.dom());
    let keys = entry_keys(entries);
    if keys.contains(k) {
        let j = keys.index_of(k);
        assert(entries[j].0@ == k);
    }
    if exists|j: int| 0 <= j < entries.len() && (#[trigger] entries[j]).0@ == k {
        let j = choose|j: int| 0 <= j < entries.len() && (#[trigger] entries[j]).0@ == k;
        assert(keys[j] == k);
    }
}

} // verus!
