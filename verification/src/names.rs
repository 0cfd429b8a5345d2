//! A map from names to values, in which no name occurs twice.
use crate::text::{same_text, texts};
use vstd::prelude::*;

verus! {

/// A map from names to values. The entries stay in the order in which their
/// names first came in.
#[derive(Debug)]
pub struct NameMap<V> {
    entries: Vec<(String, V)>,
}

impl<V> NameMap<V> {
    /// The names, in the order of the entries.
    pub closed spec fn names(self) -> Seq<Seq<char>> {
        Seq::new(self.entries@.len(), |i: int| self.entries@[i].0@)
    }

    /// The values, in the order of the entries.
    pub closed spec fn values(self) -> Seq<V> {
        Seq::new(self.entries@.len(), |i: int| self.entries@[i].1)
    }

    /// No name occurs twice.
    pub open spec fn wf(self) -> bool {
        self.names().no_duplicates()
    }

    /// The value for each name.
    pub open spec fn view(self) -> Map<Seq<char>, V> {
        Map::new(
            |k: Seq<char>| self.names().contains(k),
            |k: Seq<char>| self.values()[self.names().index_of(k)],
        )
    }

    /// What a position among the entries says about the map.
    pub proof fn lemma_at(self, i: int)
        requires
            self.wf(),
            0 <= i < self.names().len(),
        ensures
            self.names().len() == self.values().len(),
            self@.contains_key(self.names()[i]),
            self@[self.names()[i]] == self.values()[i],
    {
        let k = self.names()[i];
        assert(self.names().contains(k));
        assert(self.names().index_of(k) == i);
    }

    /// There are as many names as values.
    pub proof fn lemma_lengths(self)
        ensures
            self.names().len() == self.values().len(),
    {
    }

    /// A map without entries.
    pub fn new() -> (r: Self)
        ensures
            r.wf(),
            r.names().len() == 0,
            r@ == Map::<Seq<char>, V>::empty(),
    {
        let r = NameMap { entries: Vec::new() };
        assert(r@ =~= Map::<Seq<char>, V>::empty());
        r
    }

    /// The number of entries.
    pub fn len(&self) -> (r: usize)
        ensures
            r == self.names().len(),
            r == self.values().len(),
    {
        self.entries.len()
    }

    /// The name of the entry at a position.
    pub fn name_at(&self, i: usize) -> (r: &String)
        requires
            i < self.names().len(),
        ensures
            r@ == self.names()[i as int],
    {
        &self.entries[i].0
    }

    /// The value of the entry at a position.
    pub fn value_at(&self, i: usize) -> (r: &V)
        requires
            i < self.names().len(),
        ensures
            *r == self.values()[i as int],
    {
        &self.entries[i].1
    }

    /// The position of the entry for `name`, or the number of entries where there is none.
    fn position(&self, name: &str) -> (r: usize)
        ensures
            r <= self.names().len(),
            r < self.names().len() ==> self.names()[r as int] == name@,
            r == self.names().len() ==> !self.names().contains(name@),
    {
        let mut i: usize = 0;
        while i < self.entries.len()
            invariant
                i <= self.entries@.len(),
                forall|j: int| 0 <= j < i ==> self.entries@[j].0@ != name@,
            decreases self.entries.len() - i,
        {
            if same_text(self.entries[i].0.as_str(), name) {
                return i;
            }
            i = i + 1;
        }
        i
    }

    /// Whether there is an entry for `name`.
    pub fn contains_key(&self, name: &str) -> (r: bool)
        ensures
            r == self@.contains_key(name@),
    {
        let i = self.position(name);
        let r = i < self.entries.len();
        proof {
            if r {
                assert(self.names()[i as int] == name@);
            }
        }
        r
    }

    /// The value for `name`.
    pub fn get(&self, name: &str) -> (r: Option<&V>)
        requires
            self.wf(),
        ensures
            r is Some == self@.contains_key(name@),
            r is Some ==> *r->0 == self@[name@],
    {
        let i = self.position(name);
        if i < self.entries.len() {
            proof {
                self.lemma_at(i as int);
            }
            Some(&self.entries[i].1)
        } else {
            None
        }
    }

    /// Sets the value for `name`, and returns the one it had.
    pub fn insert(&mut self, name: String, value: V) -> (r: Option<V>)
        requires
            old(self).wf(),
        ensures
            final(self).wf(),
            final(self)@ == old(self)@.insert(name@, value),
            final(self).names() == (if old(self)@.contains_key(name@) {
                old(self).names()
            } else {
                old(self).names().push(name@)
            }),
            r is Some == old(self)@.contains_key(name@),
            r is Some ==> r->0 == old(self)@[name@],
    {
        let ghost before = *self;
        let ghost k = name@;
        let i = self.position(name.as_str());
        if i < self.entries.len() {
            proof {
                before.lemma_at(i as int);
            }
            let mut slot = (name, value);
            let ghost entered = slot;
            std::mem::swap(&mut slot, &mut self.entries[i]);
            proof {
                assert(self.entries@ =~= before.entries@.update(i as int, entered));
                assert(self.names() =~= before.names());
                assert(self.values() =~= before.values().update(i as int, entered.1));
                assert forall|q: Seq<char>| #[trigger] self@.contains_key(q) implies self@[q]
                    == before@.insert(k, value)[q] by {
                    let j = self.names().index_of(q);
                    assert(0 <= j < self.names().len() && self.names()[j] == q);
                    if q == k {
                        assert(j == i);
                    }
                }
                assert(before.names().contains(k));
                assert(self@ =~= before@.insert(k, value));
            }
            Some(slot.1)
        } else {
            self.entries.push((name, value));
            proof {
                assert(self.names() =~= before.names().push(k));
                assert(self.values() =~= before.values().push(value));
                assert forall|a: int, b: int|
                    0 <= a < b < self.names().len() implies self.names()[a]
                    != self.names()[b] by {
                    if b == before.names().len() {
                        assert(before.names().contains(before.names()[a]));
                    }
                }
                assert forall|q: Seq<char>|
                    self@.contains_key(q) == before@.insert(k, value).contains_key(q) by {
                    if before.names().contains(q) {
                        let j = before.names().index_of(q);
                        assert(self.names()[j] == q);
                    }
                    if q == k {
                        assert(self.names()[before.names().len() as int] == k);
                    }
                    if self.names().contains(q) && q != k {
                        let j = self.names().index_of(q);
                        assert(before.names()[j] == q);
                    }
                }
                assert forall|q: Seq<char>| #[trigger] self@.contains_key(q) implies self@[q]
                    == before@.insert(k, value)[q] by {
                    let j = self.names().index_of(q);
                    assert(0 <= j < self.names().len() && self.names()[j] == q);
                    self.lemma_at(j);
                    if j < before.names().len() {
                        before.lemma_at(j);
                    }
                }
                assert(self@ =~= before@.insert(k, value));
            }
            None
        }
    }

    /// Takes the entry for `name` out, and returns its value.
    pub fn remove(&mut self, name: &str) -> (r: Option<V>)
        requires
            old(self).wf(),
        ensures
            final(self).wf(),
            final(self)@ == old(self)@.remove(name@),
            final(self).names() == without(old(self).names(), name@),
            r is Some == old(self)@.contains_key(name@),
            r is Some ==> r->0 == old(self)@[name@],
    {
        let ghost before = *self;
        let ghost k = name@;
        let i = self.position(name);
        if i < self.entries.len() {
            proof {
                before.lemma_at(i as int);
            }
            let taken = self.entries.remove(i);
            proof {
                assert(self.names() =~= before.names().remove(i as int));
                assert(self.values() =~= before.values().remove(i as int));
                lemma_without_one(before.names(), i as int);
                assert forall|a: int, b: int|
                    0 <= a < b < self.names().len() implies self.names()[a]
                    != self.names()[b] by {
                    let a0 = if a < i { a } else { a + 1 };
                    let b0 = if b < i { b } else { b + 1 };
                    assert(before.names()[a0] != before.names()[b0]);
                }
                assert forall|q: Seq<char>|
                    self@.contains_key(q) == before@.remove(k).contains_key(q) by {
                    if self.names().contains(q) {
                        let j = self.names().index_of(q);
                        let j0 = if j < i { j } else { j + 1 };
                        assert(before.names()[j0] == q);
                    }
                    if before.names().contains(q) && q != k {
                        let j0 = before.names().index_of(q);
                        let j = if j0 < i { j0 } else { j0 - 1 };
                        assert(self.names()[j] == q);
                    }
                }
                assert forall|q: Seq<char>| #[trigger] self@.contains_key(q) implies self@[q]
                    == before@.remove(k)[q] by {
                    let j = self.names().index_of(q);
                    let j0 = if j < i { j } else { j + 1 };
                    self.lemma_at(j);
                    before.lemma_at(j0);
                }
                assert(self@ =~= before@.remove(k));
            }
            Some(taken.1)
        } else {
            proof {
                lemma_without_none(before.names(), k);
                assert(self@ =~= before@.remove(k));
            }
            None
        }
    }

    /// All names, in the order of the entries.
    pub fn keys(&self) -> (r: Vec<String>)
        ensures
            texts(r@) == self.names(),
    {
        let mut out: Vec<String> = Vec::new();
        let mut i: usize = 0;
        while i < self.entries.len()
            invariant
                i <= self.entries@.len(),
                texts(out@) == self.names().take(i as int),
            decreases self.entries.len() - i,
        {
            let ghost before = out@;
            out.push(self.entries[i].0.clone());
            proof {
                assert(texts(out@) =~= texts(before).push(self.entries@[i as int].0@));
                assert(self.names().take(i as int + 1) =~= self.names().take(i as int).push(
                    self.names()[i as int],
                ));
            }
            i = i + 1;
        }
        assert(self.names().take(i as int) =~= self.names());
        out
    }

    /// Removes all entries.
    pub fn clear(&mut self)
        ensures
            final(self).wf(),
            final(self).names().len() == 0,
            final(self)@ == Map::<Seq<char>, V>::empty(),
    {
        self.entries.clear();
        assert(self@ =~= Map::<Seq<char>, V>::empty());
    }
}

/// The names of a list that differ from `k`.
pub open spec fn without(s: Seq<Seq<char>>, k: Seq<char>) -> Seq<Seq<char>>
    decreases s.len(),
{
    if s.len() == 0 {
        s
    } else if s.last() == k {
        without(s.drop_last(), k)
    } else {
        without(s.drop_last(), k).push(s.last())
    }
}

/// Leaving one of several different names out is leaving its position out.
proof fn lemma_without_one(s: Seq<Seq<char>>, i: int)
    requires
        s.no_duplicates(),
        0 <= i < s.len(),
    ensures
        without(s, s[i]) == s.remove(i),
    decreases s.len(),
{
    let front = s.drop_last();
    if i == s.len() - 1 {
        if front.contains(s[i]) {
            let j = front.index_of(s[i]);
            assert(s[j] == s[i]);
        }
        lemma_without_none(front, s[i]);
        assert(s.remove(i) =~= front);
    } else {
        assert(front[i] == s[i]);
        lemma_without_one(front, i);
        assert(front.remove(i).push(s.last()) =~= s.remove(i));
    }
}

/// Leaving out what does not occur changes nothing.
proof fn lemma_without_none(s: Seq<Seq<char>>, k: Seq<char>)
    requires
        !s.contains(k),
    ensures
        without(s, k) == s,
    decreases s.len(),
{
    if s.len() > 0 {
        let front = s.drop_last();
        assert(s.last() != k) by {
            assert(s.contains(s.last()));
        }
        assert(!front.contains(k)) by {
            if front.contains(k) {
                let j = front.index_of(k);
                assert(s[j] == k);
            }
        }
        lemma_without_none(front, k);
        assert(front.push(s.last()) =~= s);
    }
}

/// A name is left out, and every other one stays in its place among the rest.
pub proof fn law_without(s: Seq<Seq<char>>, k: Seq<char>, name: Seq<char>)
    ensures
        without(s, k).contains(name) == (s.contains(name) && name != k),
        without(s.push(k), k) == without(s, k),
        name != k ==> without(s.push(name), k) == without(s, k).push(name),
    decreases s.len(),
{
    assert(s.push(k).drop_last() =~= s);
    assert(s.push(name).drop_last() =~= s);
    let outer = without(s, k);
    if s.len() > 0 {
        let front = s.drop_last();
        let inner = without(front, k);
        law_without(front, k, name);
        if outer.contains(name) {
            let i = outer.index_of(name);
            if i < inner.len() {
                assert(inner[i] == name);
                assert(s[front.index_of(name)] == name);
            } else {
                assert(s[s.len() - 1] == name);
            }
        }
        if s.contains(name) && name != k {
            let i = s.index_of(name);
            if i < front.len() {
                assert(front[i] == name);
                assert(outer[inner.index_of(name)] == name);
            } else {
                assert(outer[outer.len() - 1] == name);
            }
        }
    }
}

} // verus!
