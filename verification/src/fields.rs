//! A table from field names to values in which no name occurs twice.
//!
//! The table keeps its entries in the order in which their names first came
//! in. Its model is the sequence of `(name, value)` pairs.

use crate::text::str_eq;
use vstd::prelude::*;

verus! {

/// The place of the first entry named `key`, or the length of `es` if there
/// is none.
pub open spec fn position(es: Seq<(Seq<char>, Seq<char>)>, key: Seq<char>) -> int
    decreases es.len(),
{
    if es.len() == 0 {
        0
    } else if es[0].0 == key {
        0
    } else {
        1 + position(es.skip(1), key)
    }
}

/// The value that `es` holds under `key`.
pub open spec fn lookup(es: Seq<(Seq<char>, Seq<char>)>, key: Seq<char>) -> Option<Seq<char>> {
    let p = position(es, key);
    if p < es.len() {
        Some(es[p].1)
    } else {
        None
    }
}

/// `es` with `value` under `key`: in the place of the entry of that name, or
/// at the end if there was none.
pub open spec fn put(es: Seq<(Seq<char>, Seq<char>)>, key: Seq<char>, value: Seq<char>) -> Seq<
    (Seq<char>, Seq<char>),
> {
    let p = position(es, key);
    if p < es.len() {
        es.update(p, (key, value))
    } else {
        es.push((key, value))
    }
}

/// `es` without the entry named `key`.
pub open spec fn without(es: Seq<(Seq<char>, Seq<char>)>, key: Seq<char>) -> Seq<
    (Seq<char>, Seq<char>),
> {
    let p = position(es, key);
    if p < es.len() {
        es.remove(p)
    } else {
        es
    }
}

/// No name occurs twice in `es`.
pub open spec fn distinct_names(es: Seq<(Seq<char>, Seq<char>)>) -> bool {
    forall|i: int, j: int| 0 <= i < j < es.len() ==> (#[trigger] es[i]).0 != (#[trigger] es[j]).0
}

/// `position` finds the first entry of the name and no other.
pub proof fn lemma_position(es: Seq<(Seq<char>, Seq<char>)>, key: Seq<char>)
    ensures
        0 <= position(es, key) <= es.len(),
        position(es, key) < es.len() ==> es[position(es, key)].0 == key,
        forall|i: int| 0 <= i < position(es, key) ==> (#[trigger] es[i]).0 != key,
    decreases es.len(),
{
    if es.len() > 0 && es[0].0 != key {
        let rest = es.skip(1);
        lemma_position(rest, key);
        assert forall|i: int| 0 <= i < position(es, key) implies (#[trigger] es[i]).0 != key by {
            if i > 0 {
                assert(rest[i - 1] == es[i]);
            }
        }
    }
}

/// The first place that holds the name is what `position` returns.
pub proof fn lemma_position_is(es: Seq<(Seq<char>, Seq<char>)>, key: Seq<char>, p: int)
    requires
        0 <= p <= es.len(),
        p < es.len() ==> es[p].0 == key,
        forall|i: int| 0 <= i < p ==> (#[trigger] es[i]).0 != key,
    ensures
        position(es, key) == p,
{
    lemma_position(es, key);
    let q = position(es, key);
    if q < p {
        assert(es[q].0 != key);
    }
}

/// Putting a value under a name keeps the names distinct, and afterwards the
/// name leads to that value and every other name to what it led to before.
pub proof fn lemma_put(
    es: Seq<(Seq<char>, Seq<char>)>,
    key: Seq<char>,
    value: Seq<char>,
    other: Seq<char>,
)
    requires
        distinct_names(es),
    ensures
        distinct_names(put(es, key, value)),
        lookup(put(es, key, value), key) == Some(value),
        other != key ==> lookup(put(es, key, value), other) == lookup(es, other),
{
    lemma_position(es, key);
    lemma_position(es, other);
    let after = put(es, key, value);
    let p = position(es, key);
    assert(after[p] == (key, value));
    assert forall|i: int| 0 <= i < p implies (#[trigger] after[i]).0 != key by {
        assert(after[i] == es[i]);
    }
    lemma_position_is(after, key, p);
    if other != key {
        let q = position(es, other);
        assert forall|i: int| 0 <= i < q && i < after.len() implies (#[trigger] after[i]).0
            != other by {
            if i < es.len() {
                assert(es[i].0 != other);
            }
        }
        if q < es.len() {
            assert(after[q] == es[q]);
            lemma_position_is(after, other, q);
        } else {
            lemma_position_is(after, other, after.len() as int);
        }
    }
}

/// Taking a name out keeps the names distinct, and afterwards the name leads
/// nowhere and every other name to what it led to before.
pub proof fn lemma_without(es: Seq<(Seq<char>, Seq<char>)>, key: Seq<char>, other: Seq<char>)
    requires
        distinct_names(es),
    ensures
        distinct_names(without(es, key)),
        lookup(without(es, key), key) is None,
        other != key ==> lookup(without(es, key), other) == lookup(es, other),
{
    lemma_position(es, key);
    lemma_position(es, other);
    let after = without(es, key);
    let p = position(es, key);
    assert forall|i: int| 0 <= i < after.len() implies (#[trigger] after[i]).0 != key by {
        if p < es.len() {
            if i < p {
                assert(after[i] == es[i]);
            } else {
                assert(after[i] == es[i + 1]);
            }
        } else {
            assert(after[i] == es[i]);
        }
    }
    lemma_position_is(after, key, after.len() as int);
    assert(distinct_names(after)) by {
        assert forall|i: int, j: int| 0 <= i < j < after.len() implies (#[trigger] after[i]).0 != (
        #[trigger] after[j]).0 by {
            if p < es.len() {
                let a = if i < p {
                    i
                } else {
                    i + 1
                };
                let b = if j < p {
                    j
                } else {
                    j + 1
                };
                assert(after[i] == es[a] && after[j] == es[b]);
            }
        }
    }
    if other != key {
        let q = position(es, other);
        if p < es.len() {
            let at = if q < p {
                q
            } else {
                q - 1
            };
            assert forall|i: int| 0 <= i < at implies (#[trigger] after[i]).0 != other by {
                if i < p {
                    assert(after[i] == es[i]);
                } else {
                    assert(after[i] == es[i + 1]);
                }
            }
            if q < es.len() {
                assert(after[at] == es[q]);
            }
            lemma_position_is(after, other, at);
        }
    }
}

/// The pairs of texts that a list of pairs of strings holds.
pub open spec fn pairs_of(entries: Seq<(String, String)>) -> Seq<(Seq<char>, Seq<char>)> {
    Seq::new(entries.len(), |i: int| (entries[i].0@, entries[i].1@))
}

/// A table from names to values.
#[derive(Debug)]
pub struct FieldTable {
    entries: Vec<(String, String)>,
}

impl View for FieldTable {
    type V = Seq<(Seq<char>, Seq<char>)>;

    closed spec fn view(&self) -> Seq<(Seq<char>, Seq<char>)> {
        pairs_of(self.entries@)
    }
}

impl FieldTable {
    #[verifier::type_invariant]
    closed spec fn names_are_distinct(self) -> bool {
        distinct_names(self@)
    }

    /// A table without entries.
    pub fn new() -> (t: FieldTable)
        ensures
            t@ == Seq::<(Seq<char>, Seq<char>)>::empty(),
    {
        let t = FieldTable { entries: Vec::new() };
        assert(t@ =~= Seq::<(Seq<char>, Seq<char>)>::empty());
        t
    }

    /// The number of entries.
    pub fn len(&self) -> (n: usize)
        ensures
            n == self@.len(),
            distinct_names(self@),
    {
        proof {
            use_type_invariant(self);
        }
        self.entries.len()
    }

    pub fn is_empty(&self) -> (r: bool)
        ensures
            r == (self@.len() == 0),
    {
        self.entries.len() == 0
    }

    /// The name of the entry at place `i`.
    pub fn name_at(&self, i: usize) -> (name: &String)
        requires
            i < self@.len(),
        ensures
            name@ == self@[i as int].0,
    {
        &self.entries[i].0
    }

    /// The value of the entry at place `i`.
    pub fn value_at(&self, i: usize) -> (value: &String)
        requires
            i < self@.len(),
        ensures
            value@ == self@[i as int].1,
    {
        &self.entries[i].1
    }

    fn find(&self, key: &str) -> (p: usize)
        ensures
            p == position(self@, key@),
            p <= self@.len(),
    {
        let mut i: usize = 0;
        while i < self.entries.len()
            invariant
                i <= self.entries@.len(),
                forall|k: int| 0 <= k < i ==> (#[trigger] self@[k]).0 != key@,
            decreases self.entries@.len() - i,
        {
            if str_eq(self.entries[i].0.as_str(), key) {
                proof {
                    lemma_position_is(self@, key@, i as int);
                }
                return i;
            }
            i += 1;
        }
        proof {
            lemma_position_is(self@, key@, i as int);
        }
        i
    }

    /// The value under `key`, if the table holds the name.
    pub fn get(&self, key: &str) -> (r: Option<&String>)
        ensures
            match r {
                Some(value) => lookup(self@, key@) == Some(value@),
                None => lookup(self@, key@) is None,
            },
    {
        let p = self.find(key);
        if p < self.entries.len() {
            Some(&self.entries[p].1)
        } else {
            None
        }
    }

    pub fn contains_key(&self, key: &str) -> (r: bool)
        ensures
            r == lookup(self@, key@) is Some,
    {
        let p = self.find(key);
        p < self.entries.len()
    }

    /// Puts `value` under `key` and returns the value that was there before.
    pub fn insert(&mut self, key: String, value: String) -> (r: Option<String>)
        ensures
            final(self)@ == put(old(self)@, key@, value@),
            match r {
                Some(before) => lookup(old(self)@, key@) == Some(before@),
                None => lookup(old(self)@, key@) is None,
            },
    {
        proof {
            use_type_invariant(&*self);
            lemma_put(self@, key@, value@, key@);
        }
        let ghost before = self@;
        let ghost after = put(before, key@, value@);
        let p = self.find(key.as_str());
        let mut entries: Vec<(String, String)> = Vec::new();
        std::mem::swap(&mut entries, &mut self.entries);
        assert(pairs_of(entries@) =~= before);
        let r = if p < entries.len() {
            let mut fresh = (key, value);
            std::mem::swap(&mut entries[p], &mut fresh);
            Some(fresh.1)
        } else {
            entries.push((key, value));
            None
        };
        assert(pairs_of(entries@) =~= after);
        self.entries = entries;
        r
    }

    /// Takes the entry named `key` out and returns its value.
    pub fn remove(&mut self, key: &str) -> (r: Option<String>)
        ensures
            final(self)@ == without(old(self)@, key@),
            match r {
                Some(value) => lookup(old(self)@, key@) == Some(value@),
                None => lookup(old(self)@, key@) is None,
            },
    {
        proof {
            use_type_invariant(&*self);
            lemma_without(self@, key@, key@);
        }
        let ghost before = self@;
        let p = self.find(key);
        let mut entries: Vec<(String, String)> = Vec::new();
        std::mem::swap(&mut entries, &mut self.entries);
        assert(pairs_of(entries@) =~= before);
        let r = if p < entries.len() {
            let gone = entries.remove(p);
            Some(gone.1)
        } else {
            None
        };
        assert(pairs_of(entries@) =~= without(before, key@));
        self.entries = entries;
        r
    }
}

impl Clone for FieldTable {
    fn clone(&self) -> (r: Self)
        ensures
            r@ == self@,
    {
        proof {
            use_type_invariant(self);
        }
        let mut entries: Vec<(String, String)> = Vec::new();
        let mut i: usize = 0;
        while i < self.entries.len()
            invariant
                i <= self.entries@.len(),
                entries@.len() == i,
                forall|k: int|
                    0 <= k < i ==> (#[trigger] entries@[k]).0@ == self.entries@[k].0@
                        && entries@[k].1@ == self.entries@[k].1@,
            decreases self.entries@.len() - i,
        {
            entries.push((self.entries[i].0.clone(), self.entries[i].1.clone()));
            i += 1;
        }
        assert(pairs_of(entries@) =~= self@);
        FieldTable { entries }
    }
}

} // verus!
