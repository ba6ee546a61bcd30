//! A map from strings to values, which keeps its keys in the order of insertion.

use vstd::prelude::*;

use crate::text;

verus! {

/// A map keyed by strings. No key occurs twice.
pub struct StringMap<V> {
    pub(crate) entries: Vec<(String, V)>,
}

/// The map that a sequence of pairs stands for.
pub open spec fn entries_map<V>(entries: Seq<(String, V)>) -> Map<Seq<char>, V>
    decreases entries.len(),
{
    if entries.len() == 0 {
        Map::empty()
    } else {
        entries_map(entries.drop_last()).insert(entries.last().0@, entries.last().1)
    }
}

/// No key occurs twice.
pub open spec fn distinct_keys<V>(entries: Seq<(String, V)>) -> bool {
    forall|i: int, j: int|
        0 <= i < j < entries.len() ==> (#[trigger] entries[i]).0@ != (#[trigger] entries[j]).0@
}

/// The keys of a sequence of pairs, in order.
pub open spec fn entry_keys<V>(entries: Seq<(String, V)>) -> Seq<Seq<char>> {
    entries.map_values(|e: (String, V)| e.0@)
}

pub proof fn lemma_entries_map<V>(entries: Seq<(String, V)>)
    requires
        distinct_keys(entries),
    ensures
        forall|i: int|
            0 <= i < entries.len() ==> entries_map(entries).contains_key(
                (#[trigger] entries[i]).0@,
            ) && entries_map(entries)[entries[i].0@] == entries[i].1,
        forall|k: Seq<char>| #[trigger]
            entries_map(entries).contains_key(k) ==> exists|i: int|
                0 <= i < entries.len() && (#[trigger] entries[i]).0@ == k,
        entries_map(entries).dom().finite(),
        entries_map(entries).dom().len() == entries.len(),
    decreases entries.len(),
{
    if entries.len() > 0 {
        let front = entries.drop_last();
        lemma_entries_map(front);
        let all = entries_map(entries);
        assert forall|i: int| 0 <= i < entries.len() implies all.contains_key(
            (#[trigger] entries[i]).0@,
        ) && all[entries[i].0@] == entries[i].1 by {
            if i < front.len() {
                assert(front[i] == entries[i]);
            }
        }
        assert forall|k: Seq<char>| #[trigger] all.contains_key(k) implies exists|i: int|
            0 <= i < entries.len() && (#[trigger] entries[i]).0@ == k by {
            if k == entries.last().0@ {
                assert(entries[entries.len() - 1].0@ == k);
            } else {
                assert(entries_map(front).contains_key(k));
                let i = choose|i: int| 0 <= i < front.len() && (#[trigger] front[i]).0@ == k;
                assert(entries[i].0@ == k);
            }
        }
        assert(!entries_map(front).contains_key(entries.last().0@)) by {
            if entries_map(front).contains_key(entries.last().0@) {
                let i = choose|i: int|
                    0 <= i < front.len() && (#[trigger] front[i]).0@ == entries.last().0@;
                assert(entries[i].0@ == entries[entries.len() - 1].0@);
            }
        }
        assert(all.dom() =~= entries_map(front).dom().insert(entries.last().0@));
    }
}

impl<V> View for StringMap<V> {
    type V = Map<Seq<char>, V>;

    closed spec fn view(&self) -> Map<Seq<char>, V> {
        entries_map(self.entries@)
    }
}

impl<V> StringMap<V> {
    #[verifier::type_invariant]
    spec fn well_formed(self) -> bool {
        distinct_keys(self.entries@)
    }

    /// The keys in the order in which they came in.
    pub closed spec fn key_order(self) -> Seq<Seq<char>> {
        entry_keys(self.entries@)
    }

    /// The map without entries.
    pub fn new() -> (m: Self)
        ensures
            m@ == Map::<Seq<char>, V>::empty(),
            m.key_order() == Seq::<Seq<char>>::empty(),
    {
        let m = StringMap { entries: Vec::new() };
        assert(m.key_order() =~= Seq::<Seq<char>>::empty());
        m
    }

    /// The map of a list of pairs, none of whose keys occurs twice.
    pub(crate) fn from_entries(entries: Vec<(String, V)>) -> (m: Self)
        requires
            distinct_keys(entries@),
        ensures
            m@ == entries_map(entries@),
            m.key_order() == entry_keys(entries@),
            m.entries@ == entries@,
    {
        StringMap { entries }
    }

    pub(crate) proof fn lemma_view(self)
        ensures
            self@ == entries_map(self.entries@),
            self.key_order() == entry_keys(self.entries@),
    {
    }

    /// States that no key occurs twice in the list of pairs.
    pub(crate) fn entries_distinct(&self)
        ensures
            distinct_keys(self.entries@),
    {
        proof {
            use_type_invariant(self);
        }
    }

    fn position(&self, key: &str) -> (at: Option<usize>)
        ensures
            match at {
                Some(i) => i < self.entries@.len() && self.entries@[i as int].0@ == key@,
                None => forall|j: int| 0 <= j < self.entries@.len() ==> (#[trigger] self.entries@[j]).0@ != key@,
            },
    {
        let mut i: usize = 0;
        while i < self.entries.len()
            invariant
                i <= self.entries@.len(),
                forall|j: int| 0 <= j < i ==> (#[trigger] self.entries@[j]).0@ != key@,
            decreases self.entries@.len() - i,
        {
            if text::same_text(self.entries[i].0.as_str(), key) {
                return Some(i);
            }
            i += 1;
        }
        None
    }

    /// The value under a key.
    pub fn get(&self, key: &str) -> (value: Option<&V>)
        ensures
            match value {
                Some(v) => self@.contains_key(key@) && *v == self@[key@],
                None => !self@.contains_key(key@),
            },
    {
        proof {
            use_type_invariant(self);
            lemma_entries_map(self.entries@);
        }
        match self.position(key) {
            Some(i) => Some(&self.entries[i].1),
            None => None,
        }
    }

    /// Whether there is a value under a key.
    pub fn contains_key(&self, key: &str) -> (found: bool)
        ensures
            found == self@.contains_key(key@),
    {
        self.get(key).is_some()
    }

    /// The number of entries.
    pub fn len(&self) -> (n: usize)
        ensures
            n == self@.dom().len(),
            n == self.key_order().len(),
            self@.dom().finite(),
    {
        proof {
            use_type_invariant(self);
            lemma_entries_map(self.entries@);
        }
        self.entries.len()
    }

    /// Whether the map has no entry.
    pub fn is_empty(&self) -> (empty: bool)
        ensures
            empty == (self@ == Map::<Seq<char>, V>::empty()),
    {
        proof {
            use_type_invariant(self);
            lemma_entries_map(self.entries@);
            if self.entries@.len() > 0 {
                assert(self@.contains_key(self.entries@[0].0@));
            } else {
                assert(self@ =~= Map::<Seq<char>, V>::empty());
            }
        }
        self.entries.len() == 0
    }

    /// Puts a value under a key and hands back the value that was there. A new
    /// key goes to the end of the order; a known one keeps its place.
    pub fn insert(&mut self, key: String, value: V) -> (previous: Option<V>)
        ensures
            final(self)@ == old(self)@.insert(key@, value),
            previous == (if old(self)@.contains_key(key@) {
                Some(old(self)@[key@])
            } else {
                None
            }),
            final(self).key_order() == (if old(self)@.contains_key(key@) {
                old(self).key_order()
            } else {
                old(self).key_order().push(key@)
            }),
    {
        proof {
            use_type_invariant(&*self);
            lemma_entries_map(self.entries@);
        }
        let at = self.position(key.as_str());
        let mut entries: Vec<(String, V)> = Vec::new();
        core::mem::swap(&mut entries, &mut self.entries);
        let ghost before = entries@;
        let ghost word = key@;
        let previous = match at {
            Some(i) => {
                entries.push((key, value));
                let taken = entries.swap_remove(i);
                assert(entries@ =~= before.update(i as int, (key, value)));
                Some(taken.1)
            },
            None => {
                entries.push((key, value));
                None
            },
        };
        proof {
            assert(distinct_keys(entries@));
            lemma_entries_map(entries@);
            let m = entries_map(before).insert(word, value);
            assert forall|k: Seq<char>| entries_map(entries@).contains_key(k) <==> m.contains_key(k) by {
                if entries_map(entries@).contains_key(k) {
                    let i = choose|i: int| 0 <= i < entries@.len() && (#[trigger] entries@[i]).0@ == k;
                    if i < before.len() && k != word {
                        assert(before[i] == entries@[i]);
                    }
                }
                if entries_map(before).contains_key(k) {
                    let i = choose|i: int| 0 <= i < before.len() && (#[trigger] before[i]).0@ == k;
                    assert(entries@[i].0@ == k);
                }
                if k == word {
                    match at {
                        Some(i) => assert(entries@[i as int].0@ == k),
                        None => assert(entries@[before.len() as int].0@ == k),
                    }
                }
            }
            assert forall|k: Seq<char>| m.contains_key(k) implies entries_map(entries@)[k] == m[k] by {
                assert(entries_map(entries@).contains_key(k));
                let i = choose|i: int| 0 <= i < entries@.len() && (#[trigger] entries@[i]).0@ == k;
                if i < before.len() && k != word {
                    assert(before[i] == entries@[i]);
                }
            }
            assert(entries_map(entries@) =~= m);
            if at is Some {
                assert(entry_keys(entries@) =~= entry_keys(before));
            } else {
                assert(entry_keys(entries@) =~= entry_keys(before).push(word));
            }
        }
        self.entries = entries;
        previous
    }

    /// Takes a key out and hands back its value. The other keys keep their order.
    pub fn remove(&mut self, key: &str) -> (removed: Option<V>)
        ensures
            final(self)@ == old(self)@.remove(key@),
            removed == (if old(self)@.contains_key(key@) {
                Some(old(self)@[key@])
            } else {
                None
            }),
            !old(self)@.contains_key(key@) ==> final(self).key_order() == old(self).key_order(),
            old(self)@.contains_key(key@) ==> exists|i: int|
                0 <= i < old(self).key_order().len() && #[trigger] old(self).key_order()[i] == key@
                    && final(self).key_order() == old(self).key_order().remove(i),
    {
        proof {
            use_type_invariant(&*self);
            lemma_entries_map(self.entries@);
        }
        match self.position(key) {
            None => {
                assert(self@.remove(key@) =~= self@);
                None
            },
            Some(i) => {
                let mut entries: Vec<(String, V)> = Vec::new();
                core::mem::swap(&mut entries, &mut self.entries);
                let ghost before = entries@;
                let taken = entries.remove(i);
                proof {
                    assert(entries@ =~= before.remove(i as int));
                    assert forall|j: int| 0 <= j < entries@.len() implies #[trigger] entries@[j] == (if j
                        < i {
                        before[j]
                    } else {
                        before[j + 1]
                    }) by {}
                    assert(distinct_keys(entries@));
                    lemma_entries_map(entries@);
                    let m = entries_map(before).remove(key@);
                    assert forall|k: Seq<char>| entries_map(entries@).contains_key(k) <==> m.contains_key(k) by {
                        if entries_map(entries@).contains_key(k) {
                            let j = choose|j: int| 0 <= j < entries@.len() && (#[trigger] entries@[j]).0@ == k;
                            let b = if j < i { j } else { j + 1 };
                            assert(before[b] == entries@[j]);
                            assert(before[i as int].0@ != before[b].0@);
                        }
                        if m.contains_key(k) {
                            let b = choose|b: int| 0 <= b < before.len() && (#[trigger] before[b]).0@ == k;
                            let j = if b < i { b } else { b - 1 };
                            assert(entries@[j].0@ == k);
                        }
                    }
                    assert forall|k: Seq<char>| m.contains_key(k) implies entries_map(entries@)[k] == m[k] by {
                        assert(entries_map(entries@).contains_key(k));
                        let j = choose|j: int| 0 <= j < entries@.len() && (#[trigger] entries@[j]).0@ == k;
                        let b = if j < i { j } else { j + 1 };
                        assert(before[b] == entries@[j]);
                    }
                    assert(entries_map(entries@) =~= m);
                    assert(entry_keys(before)[i as int] == key@);
                    assert(entry_keys(entries@) =~= entry_keys(before).remove(i as int));
                }
                self.entries = entries;
                assert(old(self).key_order()[i as int] == key@);
                assert(self.key_order() == old(self).key_order().remove(i as int));
                Some(taken.1)
            },
        }
    }

    /// The keys, in order.
    pub fn keys(&self) -> (keys: Vec<String>)
        ensures
            text::texts(keys@) == self.key_order(),
            self.key_order().no_duplicates(),
            forall|k: Seq<char>| #[trigger]
                self@.contains_key(k) <==> self.key_order().contains(k),
    {
        proof {
            use_type_invariant(self);
            lemma_entries_map(self.entries@);
            assert forall|k: Seq<char>| #[trigger] self@.contains_key(k) implies self.key_order().contains(k) by {
                let i = choose|i: int| 0 <= i < self.entries@.len() && (#[trigger] self.entries@[i]).0@ == k;
                assert(self.key_order()[i] == k);
            }
        }
        let mut keys: Vec<String> = Vec::new();
        let mut i: usize = 0;
        assert(text::texts(keys@) =~= self.key_order().take(0));
        while i < self.entries.len()
            invariant
                i <= self.entries@.len(),
                text::texts(keys@) == self.key_order().take(i as int),
            decreases self.entries@.len() - i,
        {
            let key = self.entries[i].0.clone();
            proof {
                text::lemma_texts_push(keys@, key);
                assert(self.key_order().take(i + 1) =~= self.key_order().take(i as int).push(key@));
            }
            keys.push(key);
            i += 1;
        }
        assert(self.key_order().take(self.entries@.len() as int) =~= self.key_order());
        keys
    }
}

} // verus!
