//! A small map from texts to values that remembers the order of its keys.

use crate::text::same_text;
use vstd::prelude::*;

verus! {

/// The value that stands beside `key`.
pub open spec fn lookup<W>(pairs: Seq<(Seq<char>, W)>, key: Seq<char>) -> Option<W>
    decreases pairs.len(),
{
    if pairs.len() == 0 {
        None
    } else if pairs.last().0 == key {
        Some(pairs.last().1)
    } else {
        lookup(pairs.drop_last(), key)
    }
}

/// The pairs with `value` beside each occurrence of `key`.
pub open spec fn replaced<W>(pairs: Seq<(Seq<char>, W)>, key: Seq<char>, value: W) -> Seq<
    (Seq<char>, W),
> {
    Seq::new(
        pairs.len(),
        |i: int|
            if pairs[i].0 == key {
                (key, value)
            } else {
                pairs[i]
            },
    )
}

/// The pairs after `value` was put under `key`: in the place of the value that
/// stood there, else at the end.
pub open spec fn put<W>(pairs: Seq<(Seq<char>, W)>, key: Seq<char>, value: W) -> Seq<
    (Seq<char>, W),
> {
    if lookup(pairs, key) is Some {
        replaced(pairs, key, value)
    } else {
        pairs.push((key, value))
    }
}

/// Whether no key occurs twice.
pub open spec fn keys_differ<W>(pairs: Seq<(Seq<char>, W)>) -> bool {
    forall|i: int, j: int| 0 <= i < j < pairs.len() ==> (#[trigger] pairs[i]).0 != (#[trigger] pairs[j]).0
}

/// The map that the pairs stand for.
pub open spec fn map_of<W>(pairs: Seq<(Seq<char>, W)>) -> Map<Seq<char>, W> {
    Map::new(|key: Seq<char>| lookup(pairs, key) is Some, |key: Seq<char>| lookup(pairs, key)->0)
}

/// Values under texts. No key occurs twice, and the keys keep the order in which
/// they first came.
#[derive(Debug, PartialEq, Eq)]
pub struct Table<V: DeepView> {
    entries: Vec<(String, V)>,
}

impl<V: DeepView> Table<V> {
    /// The keys and values, in order.
    pub closed spec fn pairs(&self) -> Seq<(Seq<char>, V::V)> {
        self.entries.deep_view()
    }

    #[verifier::type_invariant]
    spec fn well_formed(&self) -> bool {
        keys_differ(self.entries.deep_view())
    }
}

impl<V: DeepView> DeepView for Table<V> {
    type V = Map<Seq<char>, V::V>;

    open spec fn deep_view(&self) -> Map<Seq<char>, V::V> {
        map_of(self.pairs())
    }
}

impl<V: DeepView> Table<V> {
    /// A table without entries.
    pub fn new() -> (table: Self)
        ensures
            table.pairs() == Seq::<(Seq<char>, V::V)>::empty(),
            table.deep_view() == Map::<Seq<char>, V::V>::empty(),
    {
        let table = Table { entries: Vec::new() };
        assert(table.pairs() =~= Seq::empty());
        assert(table.deep_view() =~= Map::empty());
        table
    }

    /// The number of entries.
    pub fn len(&self) -> (n: usize)
        ensures
            n == self.pairs().len(),
            keys_differ(self.pairs()),
    {
        proof {
            use_type_invariant(self);
        }
        self.entries.len()
    }

    fn position(&self, key: &str) -> (at: Option<usize>)
        ensures
            at is None <==> lookup(self.pairs(), key@) is None,
            at matches Some(i) ==> i < self.pairs().len() && self.pairs()[i as int].0 == key@
                && lookup(self.pairs(), key@) == Some(self.pairs()[i as int].1),
    {
        let mut i: usize = self.entries.len();
        assert(self.pairs().take(i as int) =~= self.pairs());
        while i > 0
            invariant
                i <= self.entries.len() == self.pairs().len(),
                self.pairs() == self.entries.deep_view(),
                lookup(self.pairs(), key@) == lookup(self.pairs().take(i as int), key@),
            decreases i,
        {
            i -= 1;
            assert(self.pairs()[i as int] == self.entries@[i as int].deep_view());
            assert(self.pairs().take(i + 1).drop_last() =~= self.pairs().take(i as int));
            if same_text(self.entries[i].0.as_str(), key) {
                return Some(i);
            }
        }
        None
    }

    /// The value under a key.
    pub fn get(&self, key: &str) -> (value: Option<&V>)
        ensures
            value.deep_view() == lookup(self.pairs(), key@),
            value is Some <==> self.deep_view().contains_key(key@),
            value matches Some(v) ==> v.deep_view() == self.deep_view()[key@],
    {
        match self.position(key) {
            Some(i) => {
                assert(self.pairs()[i as int] == self.entries@[i as int].deep_view());
                Some(&self.entries[i].1)
            },
            None => None,
        }
    }

    /// Whether there is a value under a key.
    pub fn contains_key(&self, key: &str) -> (found: bool)
        ensures
            found == self.deep_view().contains_key(key@),
    {
        self.position(key).is_some()
    }

    /// The key and the value at a place in the order.
    pub fn entry(&self, index: usize) -> (pair: (&str, &V))
        requires
            index < self.pairs().len(),
        ensures
            (pair.0@, pair.1.deep_view()) == self.pairs()[index as int],
    {
        assert(self.pairs()[index as int] == self.entries@[index as int].deep_view());
        (self.entries[index].0.as_str(), &self.entries[index].1)
    }

    /// Puts a value under a key, in the place of the one that stood there.
    pub fn insert(&mut self, key: String, value: V)
        ensures
            final(self).pairs() == put(old(self).pairs(), key@, value.deep_view()),
            final(self).deep_view() == old(self).deep_view().insert(key@, value.deep_view()),
            keys_differ(final(self).pairs()),
    {
        proof {
            use_type_invariant(&*self);
        }
        let ghost before = self.pairs();
        let ghost v = value.deep_view();
        let ghost k = key@;
        let at = self.position(key.as_str());
        let mut entries: Vec<(String, V)> = Vec::new();
        std::mem::swap(&mut self.entries, &mut entries);
        match at {
            Some(i) => {
                entries.set(i, (key, value));
                proof {
                    assert forall|j: int| 0 <= j < before.len() && j != i implies before[j].0 != k by {}
                    assert(entries.deep_view() =~= put(before, k, v));
                }
            },
            None => {
                entries.push((key, value));
                proof {
                    assert(entries.deep_view() =~= put(before, k, v));
                    assert forall|j: int| 0 <= j < before.len() implies (#[trigger] before[j]).0 != k by {
                        lemma_lookup_finds(before, j);
                    }
                }
            },
        }
        self.entries = entries;
        proof {
            assert(self.pairs() == put(before, k, v));
            lemma_put_is_insert(before, k, v);
        }
    }
}

/// A key that stands in the pairs is found.
pub proof fn lemma_lookup_finds<W>(pairs: Seq<(Seq<char>, W)>, at: int)
    requires
        0 <= at < pairs.len(),
    ensures
        lookup(pairs, pairs[at].0) is Some,
    decreases pairs.len(),
{
    if pairs.last().0 != pairs[at].0 {
        lemma_lookup_finds(pairs.drop_last(), at);
    }
}

/// Where no key occurs twice, each pair is what its key finds.
pub proof fn lemma_lookup_unique<W>(pairs: Seq<(Seq<char>, W)>, at: int)
    requires
        keys_differ(pairs),
        0 <= at < pairs.len(),
    ensures
        lookup(pairs, pairs[at].0) == Some(pairs[at].1),
    decreases pairs.len(),
{
    if at != pairs.len() - 1 {
        lemma_lookup_unique(pairs.drop_last(), at);
    }
}

proof fn lemma_lookup_replaced<W>(
    pairs: Seq<(Seq<char>, W)>,
    key: Seq<char>,
    value: W,
    other: Seq<char>,
)
    ensures
        lookup(replaced(pairs, key, value), other) == if other == key && lookup(pairs, key) is Some {
            Some(value)
        } else {
            lookup(pairs, other)
        },
    decreases pairs.len(),
{
    if pairs.len() > 0 {
        lemma_lookup_replaced(pairs.drop_last(), key, value, other);
        assert(replaced(pairs, key, value).drop_last() =~= replaced(pairs.drop_last(), key, value));
    }
}

/// After a value was put under a key, the key finds it and every other key finds
/// what it found before.
pub proof fn lemma_lookup_put<W>(
    pairs: Seq<(Seq<char>, W)>,
    key: Seq<char>,
    value: W,
    other: Seq<char>,
)
    ensures
        lookup(put(pairs, key, value), other) == if other == key {
            Some(value)
        } else {
            lookup(pairs, other)
        },
{
    if lookup(pairs, key) is Some {
        lemma_lookup_replaced(pairs, key, value, other);
    } else {
        assert(pairs.push((key, value)).drop_last() =~= pairs);
    }
}

/// To put a value under a key is to insert it into the map.
pub proof fn lemma_put_is_insert<W>(pairs: Seq<(Seq<char>, W)>, key: Seq<char>, value: W)
    ensures
        map_of(put(pairs, key, value)) == map_of(pairs).insert(key, value),
{
    assert forall|other: Seq<char>| #[trigger]
        lookup(put(pairs, key, value), other) == if other == key {
            Some(value)
        } else {
            lookup(pairs, other)
        } by {
        lemma_lookup_put(pairs, key, value, other);
    }
    assert(map_of(put(pairs, key, value)) =~= map_of(pairs).insert(key, value));
}

} // verus!
