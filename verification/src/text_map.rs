//! Maps keyed by text, kept in the order of their keys.
use crate::text::{
    before, before_is_total, before_is_transitive, pair_texts, place, texts, Place,
};
use vstd::pervasive::cloned;
use vstd::prelude::*;

verus! {

/// What the first entry under `key` holds.
pub open spec fn lookup<T>(es: Seq<(Seq<char>, T)>, key: Seq<char>) -> Option<T>
    decreases es.len(),
{
    if es.len() == 0 {
        None
    } else if es[0].0 == key {
        Some(es[0].1)
    } else {
        lookup(es.skip(1), key)
    }
}

/// The entries with `value` under `key`: in place of what stood there, or at the place
/// that the order of the keys gives a new key.
pub open spec fn with_entry<T>(es: Seq<(Seq<char>, T)>, key: Seq<char>, value: T) -> Seq<
    (Seq<char>, T),
>
    decreases es.len(),
{
    if es.len() == 0 {
        seq![(key, value)]
    } else if es[0].0 == key {
        seq![(key, value)] + es.skip(1)
    } else if before(key, es[0].0) {
        seq![(key, value)] + es
    } else {
        seq![es[0]] + with_entry(es.skip(1), key, value)
    }
}

/// Whether the keys stand in order, none twice.
pub open spec fn ascending<T>(es: Seq<(Seq<char>, T)>) -> bool {
    forall|i: int, j: int|
        0 <= i < j < es.len() ==> before(#[trigger] es[i].0, #[trigger] es[j].0)
}

/// The keys, in order.
pub open spec fn keys_of<T>(es: Seq<(Seq<char>, T)>) -> Seq<Seq<char>> {
    es.map_values(|e: (Seq<char>, T)| e.0)
}

/// The entries with `f` applied to what they hold.
pub open spec fn mapped<T, U>(es: Seq<(Seq<char>, T)>, f: spec_fn(T) -> U) -> Seq<
    (Seq<char>, U),
> {
    es.map_values(|e: (Seq<char>, T)| (e.0, f(e.1)))
}

/// After an insertion the new key holds the new value and every other key what it held.
pub proof fn lookup_with_entry<T>(es: Seq<(Seq<char>, T)>, key: Seq<char>, value: T, q: Seq<char>)
    ensures
        lookup(with_entry(es, key, value), q) == (if q == key {
            Some(value)
        } else {
            lookup(es, q)
        }),
    decreases es.len(),
{
    let w = with_entry(es, key, value);
    if es.len() == 0 {
        assert(w.skip(1) =~= es);
    } else if es[0].0 == key {
        assert(w.skip(1) =~= es.skip(1));
    } else if before(key, es[0].0) {
        assert(w.skip(1) =~= es);
    } else {
        lookup_with_entry(es.skip(1), key, value, q);
        assert(w.skip(1) =~= with_entry(es.skip(1), key, value));
    }
}

/// Every entry after an insertion is the new one or one that was there.
pub proof fn with_entry_adds_one<T>(es: Seq<(Seq<char>, T)>, key: Seq<char>, value: T, i: int)
    requires
        0 <= i < with_entry(es, key, value).len(),
    ensures
        ({
            let e = with_entry(es, key, value)[i];
            e == (key, value) || es.contains(e)
        }),
    decreases es.len(),
{
    let w = with_entry(es, key, value);
    if es.len() == 0 {
    } else if es[0].0 == key {
        if i > 0 {
            assert(w[i] == es[i]);
        }
    } else if before(key, es[0].0) {
        if i > 0 {
            assert(w[i] == es[i - 1]);
        }
    } else if i > 0 {
        with_entry_adds_one(es.skip(1), key, value, i - 1);
        let e = w[i];
        assert(e == with_entry(es.skip(1), key, value)[i - 1]);
        if es.skip(1).contains(e) {
            let j = choose|j: int| 0 <= j < es.skip(1).len() && es.skip(1)[j] == e;
            assert(es[j + 1] == e);
        }
    } else {
        assert(w[0] == es[0]);
    }
}

/// Insertion keeps the keys in order.
pub proof fn with_entry_keeps_order<T>(es: Seq<(Seq<char>, T)>, key: Seq<char>, value: T)
    requires
        ascending(es),
    ensures
        ascending(with_entry(es, key, value)),
    decreases es.len(),
{
    let w = with_entry(es, key, value);
    if es.len() == 0 {
    } else if es[0].0 == key {
        assert forall|i: int, j: int| 0 <= i < j < w.len() implies before(
            #[trigger] w[i].0,
            #[trigger] w[j].0,
        ) by {
            assert(w[i].0 == es[i].0);
            assert(w[j].0 == es[j].0);
        }
    } else if before(key, es[0].0) {
        assert forall|i: int, j: int| 0 <= i < j < w.len() implies before(
            #[trigger] w[i].0,
            #[trigger] w[j].0,
        ) by {
            assert(w[j] == es[j - 1]);
            if i > 0 {
                assert(w[i] == es[i - 1]);
            } else if j > 1 {
                before_is_transitive(key, es[0].0, es[j - 1].0);
            }
        }
    } else {
        let rest = es.skip(1);
        assert(ascending(rest));
        with_entry_keeps_order(rest, key, value);
        let tail = with_entry(rest, key, value);
        before_is_total(key, es[0].0);
        assert forall|i: int, j: int| 0 <= i < j < w.len() implies before(
            #[trigger] w[i].0,
            #[trigger] w[j].0,
        ) by {
            assert(w[j] == tail[j - 1]);
            if i > 0 {
                assert(w[i] == tail[i - 1]);
            } else {
                with_entry_adds_one(rest, key, value, j - 1);
                if rest.contains(tail[j - 1]) {
                    let m = choose|m: int| 0 <= m < rest.len() && rest[m] == tail[j - 1];
                    assert(rest[m] == es[m + 1]);
                }
            }
        }
    }
}

/// A key that stands after all others is inserted at the end.
pub proof fn with_last_entry<T>(es: Seq<(Seq<char>, T)>, key: Seq<char>, value: T)
    requires
        forall|i: int| 0 <= i < es.len() ==> before(#[trigger] es[i].0, key),
    ensures
        with_entry(es, key, value) == es.push((key, value)),
    decreases es.len(),
{
    if es.len() > 0 {
        before_is_total(es[0].0, key);
        assert forall|i: int| 0 <= i < es.skip(1).len() implies before(
            #[trigger] es.skip(1)[i].0,
            key,
        ) by {
            assert(es.skip(1)[i] == es[i + 1]);
        }
        with_last_entry(es.skip(1), key, value);
        assert(seq![es[0]] + es.skip(1).push((key, value)) =~= es.push((key, value)));
    } else {
        assert(seq![(key, value)] =~= es.push((key, value)));
    }
}

/// What is found under a key stands in an entry with that key.
pub proof fn lookup_finds_entry<T>(es: Seq<(Seq<char>, T)>, key: Seq<char>)
    ensures
        match lookup(es, key) {
            Some(v) => exists|i: int| 0 <= i < es.len() && #[trigger] es[i] == (key, v),
            None => forall|i: int| 0 <= i < es.len() ==> #[trigger] es[i].0 != key,
        },
    decreases es.len(),
{
    if es.len() > 0 && es[0].0 != key {
        lookup_finds_entry(es.skip(1), key);
        match lookup(es.skip(1), key) {
            Some(v) => {
                let i = choose|i: int|
                    0 <= i < es.skip(1).len() && #[trigger] es.skip(1)[i] == (key, v);
                assert(es[i + 1] == (key, v));
            },
            None => {
                assert forall|i: int| 0 <= i < es.len() implies #[trigger] es[i].0 != key by {
                    if i > 0 {
                        assert(es.skip(1)[i - 1] == es[i]);
                    }
                }
            },
        }
    } else if es.len() > 0 {
        assert(es[0] == (key, es[0].1));
    }
}

/// Looking up a key and applying a function to all that is held commute.
pub proof fn lookup_in_mapped<T, U>(es: Seq<(Seq<char>, T)>, f: spec_fn(T) -> U, key: Seq<char>)
    ensures
        lookup(mapped(es, f), key) == (match lookup(es, key) {
            Some(v) => Some(f(v)),
            None => None,
        }),
    decreases es.len(),
{
    if es.len() > 0 {
        lookup_in_mapped(es.skip(1), f, key);
        assert(mapped(es, f).skip(1) =~= mapped(es.skip(1), f));
    }
}

/// Inserting and applying a function to all that is held commute.
pub proof fn with_entry_in_mapped<T, U>(
    es: Seq<(Seq<char>, T)>,
    f: spec_fn(T) -> U,
    key: Seq<char>,
    value: T,
)
    ensures
        mapped(with_entry(es, key, value), f) == with_entry(mapped(es, f), key, f(value)),
    decreases es.len(),
{
    let m = mapped(es, f);
    if es.len() > 0 {
        with_entry_in_mapped(es.skip(1), f, key, value);
        assert(m.skip(1) =~= mapped(es.skip(1), f));
    }
    assert(mapped(with_entry(es, key, value), f) =~= with_entry(m, key, f(value)));
}

/// A map from texts to values, in the order of its keys.
#[derive(Debug, PartialEq)]
pub struct TextMap<V> {
    entries: Vec<(String, V)>,
}

impl<V> TextMap<V> {
    /// The entries, in the order of their keys.
    pub closed spec fn entries(self) -> Seq<(Seq<char>, V)> {
        self.entries@.map_values(|e: (String, V)| (e.0@, e.1))
    }

    #[verifier::type_invariant]
    spec fn in_order(self) -> bool {
        ascending(self.entries())
    }

    /// The map without entries.
    pub fn new() -> (r: Self)
        ensures
            r.entries() == Seq::<(Seq<char>, V)>::empty(),
    {
        let r = TextMap { entries: Vec::new() };
        assert(r.entries() =~= Seq::<(Seq<char>, V)>::empty());
        r
    }

    /// The number of entries.
    pub fn len(&self) -> (n: usize)
        ensures
            n == self.entries().len(),
    {
        self.entries.len()
    }

    /// The key of entry `i`.
    pub fn key_at(&self, i: usize) -> (k: &String)
        requires
            i < self.entries().len(),
        ensures
            k@ == self.entries()[i as int].0,
    {
        &self.entries[i].0
    }

    /// What entry `i` holds.
    pub fn value_at(&self, i: usize) -> (v: &V)
        requires
            i < self.entries().len(),
        ensures
            *v == self.entries()[i as int].1,
    {
        &self.entries[i].1
    }

    /// The keys stand in order.
    pub fn show_order(&self)
        ensures
            ascending(self.entries()),
    {
        proof {
            use_type_invariant(self);
        }
    }

    /// What the map holds under `key`.
    pub fn get(&self, key: &str) -> (r: Option<&V>)
        ensures
            match r {
                Some(v) => lookup(self.entries(), key@) == Some(*v),
                None => lookup(self.entries(), key@) is None,
            },
    {
        let k = key.to_owned();
        let ghost es = self.entries();
        assert(es.skip(0) =~= es);
        for i in 0..self.entries.len()
            invariant
                es == self.entries(),
                k@ == key@,
                lookup(es, key@) == lookup(es.skip(i as int), key@),
        {
            assert(es.skip(i as int)[0] == es[i as int]);
            if self.entries[i].0.eq(&k) {
                return Some(&self.entries[i].1);
            }
            assert(es.skip(i as int).skip(1) =~= es.skip(i + 1));
        }
        None
    }

    /// Puts `value` under `key`.
    pub fn insert(&mut self, key: String, value: V)
        ensures
            final(self).entries() == with_entry(old(self).entries(), key@, value),
    {
        proof {
            use_type_invariant(&*self);
        }
        let ghost es = self.entries();
        let mut list: Vec<(String, V)> = Vec::new();
        std::mem::swap(&mut list, &mut self.entries);
        let ghost all = with_entry(es, key@, value);
        let mut i: usize = 0;
        assert(es.skip(0) =~= es);
        assert(es.take(0) + all =~= all);
        while i < list.len()
            invariant
                i <= list.len(),
                es == old(self).entries(),
                es == list@.map_values(|e: (String, V)| (e.0@, e.1)),
                all == es.take(i as int) + with_entry(es.skip(i as int), key@, value),
                all == with_entry(es, key@, value),
                ascending(es),
            decreases list.len() - i,
        {
            assert(es.skip(i as int)[0] == es[i as int]);
            assert(es.skip(i as int).skip(1) =~= es.skip(i + 1));
            proof {
                before_is_total(key@, es[i as int].0);
            }
            match place(key.as_str(), list[i].0.as_str()) {
                Place::Same => {
                    list.remove(i);
                    list.insert(i, (key, value));
                    assert(list@.map_values(|e: (String, V)| (e.0@, e.1)) =~= all);
                    proof {
                        with_entry_keeps_order(es, key@, value);
                    }
                    self.entries = list;
                    return;
                },
                Place::Before => {
                    list.insert(i, (key, value));
                    assert(list@.map_values(|e: (String, V)| (e.0@, e.1)) =~= all);
                    proof {
                        with_entry_keeps_order(es, key@, value);
                    }
                    self.entries = list;
                    return;
                },
                Place::After => {},
            }
            assert(es.take(i as int) + (seq![es[i as int]] + with_entry(es.skip(i + 1), key@, value))
                =~= es.take(i + 1) + with_entry(es.skip(i + 1), key@, value));
            i = i + 1;
        }
        list.push((key, value));
        assert(list@.map_values(|e: (String, V)| (e.0@, e.1)) =~= all);
        proof {
            with_entry_keeps_order(es, key@, value);
        }
        self.entries = list;
    }

    /// Puts `value` under `key`, which stands after all the keys of the map.
    pub fn insert_last(&mut self, key: String, value: V)
        requires
            forall|i: int|
                0 <= i < old(self).entries().len() ==> before(
                    #[trigger] old(self).entries()[i].0,
                    key@,
                ),
        ensures
            final(self).entries() == old(self).entries().push((key@, value)),
    {
        proof {
            use_type_invariant(&*self);
        }
        let ghost es = self.entries();
        let mut list: Vec<(String, V)> = Vec::new();
        std::mem::swap(&mut list, &mut self.entries);
        list.push((key, value));
        assert(list@.map_values(|e: (String, V)| (e.0@, e.1)) =~= es.push((key@, value)));
        self.entries = list;
    }

    /// The keys, in order.
    pub fn keys(&self) -> (r: Vec<String>)
        ensures
            texts(r@) == keys_of(self.entries()),
    {
        let mut r: Vec<String> = Vec::new();
        for i in 0..self.entries.len()
            invariant
                r@.len() == i,
                forall|j: int| 0 <= j < i ==> (#[trigger] r@[j])@ == self.entries()[j].0,
        {
            r.push(self.entries[i].0.clone());
        }
        assert(texts(r@) =~= keys_of(self.entries()));
        r
    }

    /// What an entry holds is smaller than the map.
    pub proof fn entry_is_smaller(self, i: int)
        requires
            0 <= i < self.entries().len(),
        ensures
            decreases_to!(self => self.entries()[i].1),
    {
        assert(decreases_to!(self.entries@ => self.entries@[i]));
        assert(decreases_to!(self.entries@[i] => self.entries@[i].1));
    }
}

impl<V: Clone> Clone for TextMap<V> {
    fn clone(&self) -> (r: Self)
        ensures
            keys_of(r.entries()) == keys_of(self.entries()),
            forall|i: int|
                0 <= i < self.entries().len() ==> cloned(
                    #[trigger] self.entries()[i].1,
                    r.entries()[i].1,
                ),
    {
        let mut r: TextMap<V> = TextMap::new();
        self.show_order();
        let n = self.len();
        for i in 0..n
            invariant
                n == self.entries().len(),
                ascending(self.entries()),
                r.entries().len() == i,
                forall|j: int| 0 <= j < i ==> (#[trigger] r.entries()[j]).0 == self.entries()[j].0,
                forall|j: int|
                    0 <= j < i ==> cloned(
                        #[trigger] self.entries()[j].1,
                        r.entries()[j].1,
                    ),
        {
            let key = self.key_at(i).clone();
            let value = self.value_at(i).clone();
            r.insert_last(key, value);
        }
        assert(keys_of(r.entries()) =~= keys_of(self.entries()));
        r
    }
}

/// The entries of a map that holds texts.
pub open spec fn text_entries(m: TextMap<String>) -> Seq<(Seq<char>, Seq<char>)> {
    mapped(m.entries(), |s: String| s@)
}

impl TextMap<String> {
    /// The text under `key`.
    pub fn get_text(&self, key: &str) -> (r: Option<&String>)
        ensures
            match r {
                Some(s) => lookup(text_entries(*self), key@) == Some(s@),
                None => lookup(text_entries(*self), key@) is None,
            },
    {
        proof {
            lookup_in_mapped(self.entries(), |s: String| s@, key@);
        }
        self.get(key)
    }

    /// Puts a text under `key`.
    pub fn insert_text(&mut self, key: &str, value: String)
        ensures
            text_entries(*final(self)) == with_entry(text_entries(*old(self)), key@, value@),
    {
        proof {
            with_entry_in_mapped(self.entries(), |s: String| s@, key@, value);
        }
        self.insert(key.to_owned(), value);
    }

    /// A map with the same texts.
    pub fn copy_texts(&self) -> (r: Self)
        ensures
            text_entries(r) == text_entries(*self),
    {
        let mut r: TextMap<String> = TextMap::new();
        self.show_order();
        let ghost es = text_entries(*self);
        let n = self.len();
        assert(text_entries(r) =~= es.take(0));
        for i in 0..n
            invariant
                n == self.entries().len(),
                ascending(self.entries()),
                es == text_entries(*self),
                text_entries(r) == es.take(i as int),
        {
            let key = self.key_at(i);
            let value = self.value_at(i).clone();
            assert(text_entries(r).len() == i);
            assert forall|j: int| 0 <= j < r.entries().len() implies before(
                #[trigger] r.entries()[j].0,
                key@,
            ) by {
                assert(text_entries(r)[j].0 == es[j].0);
                assert(es[j].0 == self.entries()[j].0);
            }
            let ghost done = r.entries();
            r.insert_last(key.clone(), value);
            assert(text_entries(r) =~= mapped(done, |s: String| s@).push((key@, value@)));
            assert(es.take(i as int).push(es[i as int]) =~= es.take(i + 1));
        }
        assert(es.take(es.len() as int) =~= es);
        r
    }

    /// The entries as a list of pairs.
    pub fn pairs(&self) -> (r: Vec<(String, String)>)
        ensures
            pair_texts(r@) == text_entries(*self),
    {
        let mut r: Vec<(String, String)> = Vec::new();
        let n = self.len();
        for i in 0..n
            invariant
                n == self.entries().len(),
                r@.len() == i,
                forall|j: int|
                    0 <= j < i ==> (#[trigger] r@[j]).0@ == self.entries()[j].0 && r@[j].1@
                        == self.entries()[j].1@,
        {
            r.push((self.key_at(i).clone(), self.value_at(i).clone()));
        }
        assert(pair_texts(r@) =~= text_entries(*self));
        r
    }
}

}
