//! A table keyed by text, in insertion order.

use crate::text::same_text;
use vstd::prelude::*;

verus! {

/// No two entries have the same key.
pub open spec fn distinct_keys<V>(entries: Seq<(String, V)>) -> bool {
    forall|i: int, j: int|
        0 <= i < j < entries.len() ==> (#[trigger] entries[i]).0@ != (#[trigger] entries[j]).0@
}

/// The entries as a map; a later entry shadows an earlier one.
pub open spec fn entries_map<V>(entries: Seq<(String, V)>) -> Map<Seq<char>, V>
    decreases entries.len(),
{
    if entries.len() == 0 {
        Map::empty()
    } else {
        entries_map(entries.drop_last()).insert(entries.last().0@, entries.last().1)
    }
}

/// Every key of the map is that of an entry, and an entry is found under its key.
pub proof fn lemma_entries_map<V>(entries: Seq<(String, V)>)
    requires
        distinct_keys(entries),
    ensures
        forall|i: int|
            0 <= i < entries.len() ==> entries_map(entries).dom().contains(
                (#[trigger] entries[i]).0@,
            ) && entries_map(entries)[entries[i].0@] == entries[i].1,
        forall|k: Seq<char>| #[trigger]
            entries_map(entries).dom().contains(k) ==> exists|i: int|
                0 <= i < entries.len() && (#[trigger] entries[i]).0@ == k,
        entries_map(entries).dom().finite(),
        entries_map(entries).dom().len() == entries.len(),
    decreases entries.len(),
{
    if entries.len() > 0 {
        let head = entries.drop_last();
        assert forall|i: int, j: int| 0 <= i < j < head.len() implies (#[trigger] head[i]).0@ != (
        #[trigger] head[j]).0@ by {
            assert(head[i] == entries[i] && head[j] == entries[j]);
        }
        lemma_entries_map(head);
        let m = entries_map(head);
        let n = entries.len() - 1;
        assert(!m.dom().contains(entries[n].0@)) by {
            if m.dom().contains(entries[n].0@) {
                let i = choose|i: int| 0 <= i < head.len() && (#[trigger] head[i]).0@ == entries[n].0@;
                assert(entries[i].0@ == entries[n].0@);
            }
        }
        assert(entries_map(entries).dom() =~= m.dom().insert(entries[n].0@));
        assert forall|i: int| 0 <= i < entries.len() implies entries_map(entries).dom().contains(
            (#[trigger] entries[i]).0@,
        ) && entries_map(entries)[entries[i].0@] == entries[i].1 by {
            if i < n {
                assert(head[i] == entries[i]);
            }
        }
        assert forall|k: Seq<char>| #[trigger] entries_map(entries).dom().contains(k) implies exists|
            i: int,
        |
            0 <= i < entries.len() && (#[trigger] entries[i]).0@ == k by {
            if k == entries[n].0@ {
            } else {
                let i = choose|i: int| 0 <= i < head.len() && (#[trigger] head[i]).0@ == k;
                assert(entries[i].0@ == k);
            }
        }
    }
}

/// A finite map from texts to values.
#[derive(Debug)]
pub struct Table<V> {
    entries: Vec<(String, V)>,
}

impl<V> View for Table<V> {
    type V = Map<Seq<char>, V>;

    closed spec fn view(&self) -> Map<Seq<char>, V> {
        entries_map(self.entries@)
    }
}

impl<V> Table<V> {
    #[verifier::type_invariant]
    spec fn well_formed(self) -> bool {
        distinct_keys(self.entries@)
    }

    /// The entries in the order in which they were inserted.
    pub closed spec fn order(self) -> Seq<(String, V)> {
        self.entries@
    }

    pub fn new() -> (r: Self)
        ensures
            r@ == Map::<Seq<char>, V>::empty(),
    {
        Table { entries: Vec::new() }
    }

    pub fn len(&self) -> (n: usize)
        ensures
            n == self@.dom().len(),
            n == self.order().len(),
            self@.dom().finite(),
            self@ == entries_map(self.order()),
            distinct_keys(self.order()),
            forall|i: int|
                0 <= i < n ==> self@.dom().contains((#[trigger] self.order()[i]).0@)
                    && self@[self.order()[i].0@] == self.order()[i].1,
            forall|k: Seq<char>| #[trigger]
                self@.dom().contains(k) ==> exists|i: int|
                    0 <= i < n && (#[trigger] self.order()[i]).0@ == k,
    {
        proof {
            use_type_invariant(&*self);
            lemma_entries_map(self.entries@);
        }
        self.entries.len()
    }

    fn position(&self, key: &str) -> (r: Option<usize>)
        ensures
            match r {
                Some(i) => i < self.entries@.len() && self.entries@[i as int].0@ == key@
                    && self@.dom().contains(key@) && self@[key@] == self.entries@[i as int].1,
                None => !self@.dom().contains(key@) && forall|i: int|
                    0 <= i < self.entries@.len() ==> (#[trigger] self.entries@[i]).0@ != key@,
            },
    {
        proof {
            use_type_invariant(&*self);
            lemma_entries_map(self.entries@);
        }
        for i in 0..self.entries.len()
            invariant
                forall|j: int| 0 <= j < i ==> (#[trigger] self.entries@[j]).0@ != key@,
        {
            if same_text(self.entries[i].0.as_str(), key) {
                proof {
                    use_type_invariant(&*self);
                    lemma_entries_map(self.entries@);
                    assert(self.entries@[i as int].0@ == key@);
                }
                return Some(i);
            }
        }
        None
    }

    pub fn contains(&self, key: &str) -> (b: bool)
        ensures
            b == self@.dom().contains(key@),
    {
        self.position(key).is_some()
    }

    pub fn get(&self, key: &str) -> (r: Option<&V>)
        ensures
            match r {
                Some(v) => self@.dom().contains(key@) && *v == self@[key@],
                None => !self@.dom().contains(key@),
            },
    {
        match self.position(key) {
            Some(i) => Some(&self.entries[i].1),
            None => None,
        }
    }

    /// The entry at place `i` in insertion order.
    pub fn at(&self, i: usize) -> (r: (&String, &V))
        requires
            i < self.order().len(),
        ensures
            (*r.0, *r.1) == self.order()[i as int],
            self@.dom().contains(r.0@),
            self@[r.0@] == *r.1,
    {
        proof {
            use_type_invariant(&*self);
            lemma_entries_map(self.entries@);
        }
        (&self.entries[i].0, &self.entries[i].1)
    }

    /// Puts a value under a key; the value that was there comes back.
    pub fn insert(&mut self, key: String, value: V) -> (r: Option<V>)
        ensures
            final(self)@ == old(self)@.insert(key@, value),
            match r {
                Some(v) => old(self)@.dom().contains(key@) && v == old(self)@[key@],
                None => !old(self)@.dom().contains(key@),
            },
    {
        let place = self.position(key.as_str());
        let mut entries: Vec<(String, V)> = Vec::new();
        let ghost before = self.entries@;
        proof {
            use_type_invariant(&*self);
            lemma_entries_map(before);
        }
        std::mem::swap(&mut entries, &mut self.entries);
        let mut out: Option<V> = None;
        match place {
            Some(i) => {
                let (_, v) = entries.remove(i);
                out = Some(v);
                entries.insert(i, (key, value));
                assert(entries@ =~= before.update(i as int, (key, value)));
            },
            None => {
                entries.push((key, value));
            },
        }
        proof {
            let now = entries@;
            assert forall|i: int, j: int| 0 <= i < j < now.len() implies (#[trigger] now[i]).0@ != (
            #[trigger] now[j]).0@ by {
                if i < before.len() && j < before.len() {
                    assert(before[i].0@ != before[j].0@);
                } else {
                    assert(before[i].0@ != key@);
                }
            }
            lemma_entries_map(now);
            let m = entries_map(before);
            assert forall|k: Seq<char>| entries_map(now).dom().contains(k) <==> m.insert(
                key@,
                value,
            ).dom().contains(k) by {
                if entries_map(now).dom().contains(k) {
                    let i = choose|i: int| 0 <= i < now.len() && (#[trigger] now[i]).0@ == k;
                    if i < before.len() {
                        assert(m.dom().contains(before[i].0@));
                    }
                }
                if m.dom().contains(k) {
                    let i = choose|i: int| 0 <= i < before.len() && (#[trigger] before[i]).0@ == k;
                    assert(now[i].0@ == k);
                }
                if k == key@ {
                    match place {
                        Some(i) => assert(now[i as int].0@ == k),
                        None => assert(now[before.len() as int].0@ == k),
                    }
                }
            }
            assert forall|k: Seq<char>| entries_map(now).dom().contains(k) implies entries_map(now)[k]
                == m.insert(key@, value)[k] by {
                let i = choose|i: int| 0 <= i < now.len() && (#[trigger] now[i]).0@ == k;
                if k != key@ {
                    assert(before[i].0@ == k);
                    assert(now[i].1 == before[i].1);
                }
            }
            assert(entries_map(now) =~= m.insert(key@, value));
        }
        self.entries = entries;
        out
    }

    /// Takes the value under a key out of the table.
    pub fn remove(&mut self, key: &str) -> (r: Option<V>)
        ensures
            final(self)@ == old(self)@.remove(key@),
            match r {
                Some(v) => old(self)@.dom().contains(key@) && v == old(self)@[key@],
                None => !old(self)@.dom().contains(key@),
            },
    {
        match self.position(key) {
            Some(place) => {
                let mut entries: Vec<(String, V)> = Vec::new();
                let ghost before = self.entries@;
                proof {
                    use_type_invariant(&*self);
                    lemma_entries_map(before);
                }
                std::mem::swap(&mut entries, &mut self.entries);
                let (_, v) = entries.remove(place);
                proof {
                    let now = entries@;
                    let p = place as int;
                    assert(now =~= before.remove(p));
                    assert forall|i: int, j: int| 0 <= i < j < now.len() implies (
                    #[trigger] now[i]).0@ != (#[trigger] now[j]).0@ by {
                        let a = if i < p { i } else { i + 1 };
                        let b = if j < p { j } else { j + 1 };
                        assert(now[i] == before[a] && now[j] == before[b]);
                    }
                    lemma_entries_map(now);
                    let m = entries_map(before);
                    assert forall|k: Seq<char>| entries_map(now).dom().contains(k) <==> m.remove(
                        key@,
                    ).dom().contains(k) by {
                        if entries_map(now).dom().contains(k) {
                            let i = choose|i: int| 0 <= i < now.len() && (#[trigger] now[i]).0@ == k;
                            let a = if i < p { i } else { i + 1 };
                            assert(now[i] == before[a]);
                            assert(m.dom().contains(before[a].0@));
                            assert(before[a].0@ != before[p].0@);
                        }
                        if m.dom().contains(k) && k != key@ {
                            let i = choose|i: int|
                                0 <= i < before.len() && (#[trigger] before[i]).0@ == k;
                            let a = if i < p { i } else { i - 1 };
                            assert(now[a] == before[i]);
                        }
                    }
                    assert forall|k: Seq<char>| entries_map(now).dom().contains(k) implies entries_map(
                        now,
                    )[k] == m.remove(key@)[k] by {
                        let i = choose|i: int| 0 <= i < now.len() && (#[trigger] now[i]).0@ == k;
                        let a = if i < p { i } else { i + 1 };
                        assert(now[i] == before[a]);
                        assert(m[before[a].0@] == before[a].1);
                    }
                    assert(entries_map(now) =~= m.remove(key@));
                }
                self.entries = entries;
                Some(v)
            },
            None => {
                assert(self@ =~= self@.remove(key@));
                None
            },
        }
    }
}

/// The texts that a map leads to.
pub open spec fn text_map(m: Map<Seq<char>, String>) -> Map<Seq<char>, Seq<char>> {
    Map::new(|k: Seq<char>| m.dom().contains(k), |k: Seq<char>| m[k]@)
}

impl Table<String> {
    /// Adds every entry of another table; where both have a key, the other's value
    /// takes its place.
    pub fn extend_from(&mut self, more: &Table<String>)
        ensures
            final(self)@ == old(self)@.union_prefer_right(more@),
    {
        let n = more.len();
        let ghost before = self@;
        assert(self@ =~= before.union_prefer_right(entries_map(more.order().take(0))));
        for i in 0..n
            invariant
                n == more.order().len(),
                self@ == before.union_prefer_right(entries_map(more.order().take(i as int))),
        {
            let (k, v) = more.at(i);
            self.insert(k.clone(), v.clone());
            proof {
                let part = more.order().take(i + 1);
                assert(part.drop_last() =~= more.order().take(i as int));
                assert(part.last() == more.order()[i as int]);
                assert(self@ =~= before.union_prefer_right(entries_map(part)));
            }
        }
        assert(more.order().take(n as int) =~= more.order());
    }

    /// Drops every entry whose value is `value`.
    pub fn drop_value(&mut self, value: &str)
        ensures
            forall|k: Seq<char>| #[trigger]
                final(self)@.dom().contains(k) <==> old(self)@.dom().contains(k) && old(
                    self,
                )@[k]@ != value@,
            forall|k: Seq<char>| #[trigger]
                final(self)@.dom().contains(k) ==> final(self)@[k] == old(self)@[k],
    {
        let n = self.len();
        let mut kept: Table<String> = Table::new();
        for i in 0..n
            invariant
                n == self.order().len(),
                distinct_keys(self.order()),
                forall|j: int|
                    0 <= j < n ==> self@.dom().contains((#[trigger] self.order()[j]).0@)
                        && self@[self.order()[j].0@] == self.order()[j].1,
                forall|k: Seq<char>| #[trigger]
                    kept@.dom().contains(k) ==> self@.dom().contains(k) && self@[k]@ != value@
                        && kept@[k] == self@[k],
                forall|j: int|
                    0 <= j < i && (#[trigger] self.order()[j]).1@ != value@ ==> kept@.dom().contains(
                        self.order()[j].0@,
                    ),
        {
            let (k, v) = self.at(i);
            if !same_text(v.as_str(), value) {
                kept.insert(k.clone(), v.clone());
            }
        }
        *self = kept;
    }
}

} // verus!
