//! A map from texts to values that keeps its entries in the order in which their keys came first.

use crate::text;
use vstd::prelude::*;

verus! {

/// The position of `key` among the entries from `from` on.
pub open spec fn position_from<V>(entries: Seq<(Seq<char>, V)>, key: Seq<char>, from: int) -> Option<
    int,
>
    decreases entries.len() - from,
{
    if from >= entries.len() {
        None
    } else if entries[from].0 == key {
        Some(from)
    } else {
        position_from(entries, key, from + 1)
    }
}

/// The position of the entry with the key `key`.
pub open spec fn position<V>(entries: Seq<(Seq<char>, V)>, key: Seq<char>) -> Option<int> {
    position_from(entries, key, 0)
}

/// The value under `key`.
pub open spec fn lookup<V>(entries: Seq<(Seq<char>, V)>, key: Seq<char>) -> Option<V> {
    match position(entries, key) {
        Some(i) => Some(entries[i].1),
        None => None,
    }
}

/// The entries after `value` was put under `key`: in place of the value that stood there, else at
/// the end.
pub open spec fn put<V>(entries: Seq<(Seq<char>, V)>, key: Seq<char>, value: V) -> Seq<
    (Seq<char>, V),
> {
    match position(entries, key) {
        Some(i) => entries.update(i, (key, value)),
        None => entries.push((key, value)),
    }
}

/// No key occurs twice.
pub open spec fn keys_distinct<V>(entries: Seq<(Seq<char>, V)>) -> bool {
    forall|i: int, j: int|
        0 <= i < j < entries.len() ==> (#[trigger] entries[i]).0 != (#[trigger] entries[j]).0
}

/// The values of the entries, in order.
pub open spec fn values<V>(entries: Seq<(Seq<char>, V)>) -> Seq<V> {
    entries.map_values(|e: (Seq<char>, V)| e.1)
}

/// What `position` returns is where the key stands.
pub proof fn lemma_position<V>(entries: Seq<(Seq<char>, V)>, key: Seq<char>, from: int)
    requires
        0 <= from,
    ensures
        match position_from(entries, key, from) {
            Some(i) => from <= i < entries.len() && entries[i].0 == key && forall|j: int|
                from <= j < i ==> (#[trigger] entries[j]).0 != key,
            None => forall|j: int| from <= j < entries.len() ==> (#[trigger] entries[j]).0 != key,
        },
    decreases entries.len() - from,
{
    if from >= entries.len() {
    } else if entries[from].0 == key {
    } else {
        lemma_position(entries, key, from + 1);
    }
}

/// What stands at a position that no earlier one shares the key with is found there.
pub proof fn lemma_position_is<V>(entries: Seq<(Seq<char>, V)>, key: Seq<char>, at: int)
    requires
        0 <= at < entries.len(),
        entries[at].0 == key,
        forall|j: int| 0 <= j < at ==> (#[trigger] entries[j]).0 != key,
    ensures
        position(entries, key) == Some(at),
{
    lemma_position(entries, key, 0);
}

/// Putting a value keeps the keys distinct.
pub proof fn lemma_put_distinct<V>(entries: Seq<(Seq<char>, V)>, key: Seq<char>, value: V)
    requires
        keys_distinct(entries),
    ensures
        keys_distinct(put(entries, key, value)),
{
    lemma_position(entries, key, 0);
}

/// A read after a write gives the value that was written, and leaves every other key alone.
pub proof fn law_put_then_lookup<V>(
    entries: Seq<(Seq<char>, V)>,
    key: Seq<char>,
    value: V,
    other: Seq<char>,
)
    ensures
        lookup(put(entries, key, value), other) == if other == key {
            Some(value)
        } else {
            lookup(entries, other)
        },
{
    let after = put(entries, key, value);
    lemma_position(entries, key, 0);
    lemma_position(entries, other, 0);
    lemma_position(after, other, 0);
    match position(entries, key) {
        Some(i) => {
            if other == key {
                lemma_position_is(after, key, i);
            } else {
                match position(entries, other) {
                    Some(j) => {
                        lemma_position_is(after, other, j);
                    },
                    None => {
                        if let Some(k) = position(after, other) {
                            assert(after[k].0 == entries[k].0);
                        }
                    },
                }
            }
        },
        None => {
            if other == key {
                lemma_position_is(after, key, entries.len() as int);
            } else {
                match position(entries, other) {
                    Some(j) => {
                        lemma_position_is(after, other, j);
                    },
                    None => {
                        if let Some(k) = position(after, other) {
                            assert(after[k].0 == entries[k].0);
                        }
                    },
                }
            }
        },
    }
}

/// The entries with `f` applied to each value.
pub open spec fn mapped<V, W>(entries: Seq<(Seq<char>, V)>, f: spec_fn(V) -> W) -> Seq<
    (Seq<char>, W),
> {
    entries.map_values(|e: (Seq<char>, V)| (e.0, f(e.1)))
}

/// Applying a function to the values leaves every key where it stands.
pub proof fn lemma_mapped_position<V, W>(
    entries: Seq<(Seq<char>, V)>,
    f: spec_fn(V) -> W,
    key: Seq<char>,
    from: int,
)
    requires
        0 <= from,
    ensures
        position_from(mapped(entries, f), key, from) == position_from(entries, key, from),
    decreases entries.len() - from,
{
    if from < entries.len() {
        assert(mapped(entries, f)[from] == (entries[from].0, f(entries[from].1)));
        lemma_mapped_position(entries, f, key, from + 1);
    }
}

/// Putting a value and applying a function to the values may change places.
pub proof fn lemma_mapped_put<V, W>(
    entries: Seq<(Seq<char>, V)>,
    f: spec_fn(V) -> W,
    key: Seq<char>,
    value: V,
)
    ensures
        mapped(put(entries, key, value), f) == put(mapped(entries, f), key, f(value)),
{
    lemma_mapped_position(entries, f, key, 0);
    lemma_position(entries, key, 0);
    assert(mapped(put(entries, key, value), f) =~= put(mapped(entries, f), key, f(value)));
}

/// The texts of a map whose values are strings.
pub open spec fn text_entries(entries: Seq<(Seq<char>, String)>) -> Seq<(Seq<char>, Seq<char>)> {
    mapped(entries, |s: String| s@)
}

pub proof fn lemma_text_entries_put(entries: Seq<(Seq<char>, String)>, key: Seq<char>, value: String)
    ensures
        text_entries(put(entries, key, value)) == put(text_entries(entries), key, value@),
{
    lemma_mapped_put(entries, |s: String| s@, key, value);
}

pub proof fn lemma_text_entries_lookup(entries: Seq<(Seq<char>, String)>, key: Seq<char>)
    ensures
        position(text_entries(entries), key) == position(entries, key),
        lookup(text_entries(entries), key) == match lookup(entries, key) {
            Some(s) => Some(s@),
            None => None,
        },
{
    lemma_mapped_position(entries, |s: String| s@, key, 0);
    lemma_position(entries, key, 0);
}

/// A map from texts to values.
pub struct TextMap<V> {
    entries: Vec<(String, V)>,
}

impl<V> View for TextMap<V> {
    type V = Seq<(Seq<char>, V)>;

    closed spec fn view(&self) -> Seq<(Seq<char>, V)> {
        self.entries@.map_values(|e: (String, V)| (e.0@, e.1))
    }
}

impl<V> TextMap<V> {
    #[verifier::type_invariant]
    spec fn wf(self) -> bool {
        keys_distinct(self@)
    }

    /// The empty map.
    pub fn new() -> (r: TextMap<V>)
        ensures
            r@ == Seq::<(Seq<char>, V)>::empty(),
    {
        let entries: Vec<(String, V)> = Vec::new();
        assert(entries@.map_values(|e: (String, V)| (e.0@, e.1)) =~= seq![]);
        TextMap { entries }
    }

    /// The number of entries. No key occurs twice among them.
    pub fn len(&self) -> (n: usize)
        ensures
            n == self@.len(),
            keys_distinct(self@),
    {
        proof {
            use_type_invariant(self);
        }
        self.entries.len()
    }

    /// The position of the entry with the key `key`.
    pub fn find(&self, key: &str) -> (r: Option<usize>)
        ensures
            match r {
                Some(i) => position(self@, key@) == Some(i as int) && i < self@.len(),
                None => position(self@, key@) is None,
            },
    {
        let mut i: usize = 0;
        while i < self.entries.len()
            invariant
                i <= self.entries@.len(),
                position(self@, key@) == position_from(self@, key@, i as int),
            decreases self.entries@.len() - i,
        {
            assert(self@[i as int] == (self.entries@[i as int].0@, self.entries@[i as int].1));
            if text::same_text(self.entries[i].0.as_str(), key) {
                return Some(i);
            }
            i = i + 1;
        }
        None
    }

    /// The key of the entry at position `i`.
    pub fn key_at(&self, i: usize) -> (r: &String)
        requires
            i < self@.len(),
        ensures
            r@ == self@[i as int].0,
    {
        &self.entries[i].0
    }

    /// The value of the entry at position `i`.
    pub fn value_at(&self, i: usize) -> (r: &V)
        requires
            i < self@.len(),
        ensures
            *r == self@[i as int].1,
    {
        &self.entries[i].1
    }

    /// The value under `key`.
    pub fn get(&self, key: &str) -> (r: Option<&V>)
        ensures
            match r {
                Some(v) => lookup(self@, key@) == Some(*v),
                None => lookup(self@, key@) is None,
            },
    {
        match self.find(key) {
            Some(i) => Some(self.value_at(i)),
            None => None,
        }
    }

    /// Puts `value` under `key`.
    pub fn insert(&mut self, key: String, value: V)
        ensures
            final(self)@ == put(old(self)@, key@, value),
    {
        proof {
            use_type_invariant(&*self);
            lemma_put_distinct(self@, key@, value);
            lemma_position(self@, key@, 0);
        }
        let ghost before = self@;
        let at: Option<usize> = self.find(key.as_str());
        let mut entries: Vec<(String, V)> = Vec::new();
        let ghost k = key@;
        std::mem::swap(&mut entries, &mut self.entries);
        assert(before =~= entries@.map_values(|e: (String, V)| (e.0@, e.1)));
        match at {
            Some(i) => {
                let ghost old_entries = entries@;
                entries.set(i, (key, value));
                assert(entries@.map_values(|e: (String, V)| (e.0@, e.1)) =~= before.update(
                    i as int,
                    (k, value),
                ));
            },
            None => {
                entries.push((key, value));
                assert(entries@.map_values(|e: (String, V)| (e.0@, e.1)) =~= before.push((k, value)));
            },
        }
        self.entries = entries;
    }

    /// The values of the map, in the order of its entries.
    pub fn into_values(self) -> (out: Vec<V>)
        ensures
            out@ == values(self@),
    {
        let mut rest: Vec<(String, V)> = self.entries;
        let mut out: Vec<V> = Vec::new();
        let ghost all = rest@;
        while rest.len() > 0
            invariant
                rest@.len() <= all.len(),
                rest@ == all.skip(all.len() - rest@.len()),
                out@ == values(
                    all.map_values(|e: (String, V)| (e.0@, e.1)),
                ).take(all.len() - rest@.len()),
            decreases rest@.len(),
        {
            let ghost k = all.len() - rest@.len();
            let ghost before = rest@;
            let e: (String, V) = rest.remove(0);
            assert(e == all[k]);
            assert(rest@ =~= all.skip(k + 1));
            out.push(e.1);
            assert(out@ =~= values(all.map_values(|e: (String, V)| (e.0@, e.1))).take(k + 1));
        }
        out
    }
}

} // verus!
