//! A map from text keys to text values that keeps its entries in insertion
//! order, each key at most once.
use vstd::prelude::*;
use crate::text::text_eq;

verus! {

broadcast use vstd::string::group_string_axioms;

/// No key occurs twice among the entries.
pub open spec fn distinct_keys(es: Seq<(Seq<char>, Seq<char>)>) -> bool {
    forall|i: int, j: int| 0 <= i < j < es.len() ==> #[trigger] es[i].0 != #[trigger] es[j].0
}

/// Whether `k` is the key of some entry.
pub open spec fn has_key(es: Seq<(Seq<char>, Seq<char>)>, k: Seq<char>) -> bool {
    exists|i: int| 0 <= i < es.len() && #[trigger] es[i].0 == k
}

/// The position of the entry with key `k`, where there is one.
pub open spec fn key_position(es: Seq<(Seq<char>, Seq<char>)>, k: Seq<char>) -> int {
    choose|i: int| 0 <= i < es.len() && #[trigger] es[i].0 == k
}

/// The value stored under `k`, if any.
pub open spec fn entries_lookup(es: Seq<(Seq<char>, Seq<char>)>, k: Seq<char>) -> Option<Seq<char>> {
    if has_key(es, k) {
        Some(es[key_position(es, k)].1)
    } else {
        None
    }
}

/// The entries after storing `v` under `k`: an entry with key `k` keeps its
/// place and takes the new value; otherwise the pair goes at the end.
pub open spec fn entries_insert(es: Seq<(Seq<char>, Seq<char>)>, k: Seq<char>, v: Seq<char>) -> Seq<
    (Seq<char>, Seq<char>),
> {
    if has_key(es, k) {
        es.update(key_position(es, k), (k, v))
    } else {
        es.push((k, v))
    }
}

/// The entries of an empty map after storing each pair in order.
pub open spec fn inserted_all(pairs: Seq<(Seq<char>, Seq<char>)>) -> Seq<(Seq<char>, Seq<char>)>
    decreases pairs.len(),
{
    if pairs.len() == 0 {
        Seq::empty()
    } else {
        let front = inserted_all(pairs.drop_last());
        entries_insert(front, pairs.last().0, pairs.last().1)
    }
}

/// Storing keeps the keys distinct.
pub proof fn lemma_insert_distinct(es: Seq<(Seq<char>, Seq<char>)>, k: Seq<char>, v: Seq<char>)
    requires
        distinct_keys(es),
    ensures
        distinct_keys(entries_insert(es, k, v)),
        has_key(entries_insert(es, k, v), k),
{
    let r = entries_insert(es, k, v);
    if has_key(es, k) {
        let p = key_position(es, k);
        assert(r[p].0 == k);
        assert forall|i: int, j: int| 0 <= i < j < r.len() implies #[trigger] r[i].0 != #[trigger] r[j].0 by {
            assert(es[i].0 != es[j].0);
            if i == p {
                assert(es[p].0 == k);
            }
            if j == p {
                assert(es[p].0 == k);
            }
        }
    } else {
        assert(r[es.len() as int].0 == k);
        assert forall|i: int, j: int| 0 <= i < j < r.len() implies #[trigger] r[i].0 != #[trigger] r[j].0 by {
            if j == es.len() {
                assert(es[i].0 != k);
            }
        }
    }
}

/// A key whose length no entry's key has is not a key of the entries.
pub proof fn lemma_new_key(es: Seq<(Seq<char>, Seq<char>)>, k: Seq<char>)
    requires
        forall|i: int| 0 <= i < es.len() ==> (#[trigger] es[i]).0.len() != k.len(),
    ensures
        !has_key(es, k),
{
    if has_key(es, k) {
        let i = choose|i: int| 0 <= i < es.len() && #[trigger] es[i].0 == k;
        assert(es[i].0.len() != k.len());
    }
}

/// With distinct keys, the entry found for a key is the only one with it.
pub proof fn lemma_key_position_unique(es: Seq<(Seq<char>, Seq<char>)>, k: Seq<char>, i: int)
    requires
        distinct_keys(es),
        0 <= i < es.len(),
        es[i].0 == k,
    ensures
        has_key(es, k),
        key_position(es, k) == i,
{
    assert(has_key(es, k));
    let p = key_position(es, k);
    if p != i {
        if p < i {
            assert(es[p].0 != es[i].0);
        } else {
            assert(es[i].0 != es[p].0);
        }
    }
}

/// The position of the first entry of `es` with key `key`.
fn find_key(es: &Vec<(String, String)>, key: &str) -> (p: Option<usize>)
    ensures
        match p {
            Some(i) => i < es@.len() && es@[i as int].0@ == key@,
            None => !has_key(es@.map_values(|e: (String, String)| (e.0@, e.1@)), key@),
        },
{
    let ghost view = es@.map_values(|e: (String, String)| (e.0@, e.1@));
    let mut i: usize = 0;
    while i < es.len()
        invariant
            i <= es@.len(),
            view == es@.map_values(|e: (String, String)| (e.0@, e.1@)),
            forall|k: int| 0 <= k < i ==> #[trigger] view[k].0 != key@,
        decreases es.len() - i,
    {
        assert(view[i as int].0 == es@[i as int].0@);
        if text_eq(es[i].0.as_str(), key) {
            return Some(i);
        }
        i = i + 1;
    }
    None
}

/// A map from text keys to text values. Entries stay in the order in which
/// their keys were first stored.
#[derive(Debug)]
pub struct StringMap {
    entries: Vec<(String, String)>,
}

impl View for StringMap {
    type V = Seq<(Seq<char>, Seq<char>)>;

    closed spec fn view(&self) -> Seq<(Seq<char>, Seq<char>)> {
        self.entries@.map_values(|e: (String, String)| (e.0@, e.1@))
    }
}

impl StringMap {
    #[verifier::type_invariant]
    spec fn keys_distinct(&self) -> bool {
        distinct_keys(self@)
    }

    /// The value stored under `k`, if any.
    pub open spec fn lookup(&self, k: Seq<char>) -> Option<Seq<char>> {
        entries_lookup(self@, k)
    }

    /// An empty map.
    pub fn new() -> (m: StringMap)
        ensures
            m@ == Seq::<(Seq<char>, Seq<char>)>::empty(),
    {
        let m = StringMap { entries: Vec::new() };
        assert(m@ =~= Seq::<(Seq<char>, Seq<char>)>::empty());
        m
    }

    /// The number of entries.
    pub fn len(&self) -> (n: usize)
        ensures
            n == self@.len(),
    {
        self.entries.len()
    }

    /// Whether the map has no entry.
    pub fn is_empty(&self) -> (b: bool)
        ensures
            b == (self@.len() == 0),
    {
        self.entries.len() == 0
    }

    /// The key and the value of the entry at position `i`.
    pub fn entry(&self, i: usize) -> (e: (&String, &String))
        requires
            i < self@.len(),
        ensures
            (e.0@, e.1@) == self@[i as int],
    {
        let e = &self.entries[i];
        (&e.0, &e.1)
    }

    /// The position of the entry with key `key`.
    fn position(&self, key: &str) -> (p: Option<usize>)
        ensures
            match p {
                Some(i) => i < self@.len() && self@[i as int].0 == key@,
                None => !has_key(self@, key@),
            },
    {
        find_key(&self.entries, key)
    }

    /// Whether some entry has key `key`.
    pub fn contains_key(&self, key: &str) -> (b: bool)
        ensures
            b == has_key(self@, key@),
    {
        self.position(key).is_some()
    }

    /// The value stored under `key`, if any.
    pub fn get(&self, key: &str) -> (v: Option<&String>)
        ensures
            match v {
                Some(s) => self.lookup(key@) == Some(s@),
                None => self.lookup(key@) is None,
            },
    {
        proof {
            use_type_invariant(self);
        }
        match self.position(key) {
            Some(i) => {
                proof {
                    lemma_key_position_unique(self@, key@, i as int);
                }
                Some(&self.entries[i].1)
            },
            None => None,
        }
    }

    /// Stores `value` under `key`, and gives back the value that was stored
    /// there before, if any.
    pub fn insert(&mut self, key: String, value: String) -> (prev: Option<String>)
        ensures
            final(self)@ == entries_insert(old(self)@, key@, value@),
            match prev {
                Some(s) => old(self).lookup(key@) == Some(s@),
                None => old(self).lookup(key@) is None,
            },
    {
        proof {
            use_type_invariant(&*self);
        }
        let ghost before = self@;
        let mut es: Vec<(String, String)> = Vec::new();
        std::mem::swap(&mut es, &mut self.entries);
        assert(es@.map_values(|e: (String, String)| (e.0@, e.1@)) == before);
        let found = find_key(&es, key.as_str());
        let prev = match found {
            Some(p) => {
                proof {
                    assert(before[p as int].0 == key@);
                    lemma_key_position_unique(before, key@, p as int);
                }
                let old_value = es[p].1.clone();
                let ghost kk = key@;
                let ghost vv = value@;
                es.set(p, (key, value));
                assert(es@.map_values(|e: (String, String)| (e.0@, e.1@)) =~= before.update(
                    p as int,
                    (kk, vv),
                ));
                Some(old_value)
            },
            None => {
                let ghost kk = key@;
                let ghost vv = value@;
                es.push((key, value));
                assert(es@.map_values(|e: (String, String)| (e.0@, e.1@)) =~= before.push((kk, vv)));
                None
            },
        };
        proof {
            lemma_insert_distinct(before, key@, value@);
        }
        self.entries = es;
        prev
    }
}


/// Reading a key right after storing a value under it gives that value.
pub proof fn law_lookup_after_insert(es: Seq<(Seq<char>, Seq<char>)>, k: Seq<char>, v: Seq<char>)
    requires
        distinct_keys(es),
    ensures
        entries_lookup(entries_insert(es, k, v), k) == Some(v),
{
    let r = entries_insert(es, k, v);
    lemma_insert_distinct(es, k, v);
    if has_key(es, k) {
        let p = key_position(es, k);
        lemma_key_position_unique(r, k, p);
    } else {
        lemma_key_position_unique(r, k, es.len() as int);
    }
}

/// Storing a value under one key leaves the value under any other key as it
/// was.
pub proof fn law_insert_keeps_other_keys(
    es: Seq<(Seq<char>, Seq<char>)>,
    k: Seq<char>,
    v: Seq<char>,
    other: Seq<char>,
)
    requires
        distinct_keys(es),
        other != k,
    ensures
        entries_lookup(entries_insert(es, k, v), other) == entries_lookup(es, other),
{
    let r = entries_insert(es, k, v);
    lemma_insert_distinct(es, k, v);
    if has_key(es, other) {
        let q = key_position(es, other);
        assert(r[q].0 == other) by {
            if has_key(es, k) {
                assert(q != key_position(es, k));
            }
        }
        lemma_key_position_unique(r, other, q);
    } else {
        if has_key(r, other) {
            let q = choose|i: int| 0 <= i < r.len() && #[trigger] r[i].0 == other;
            if q < es.len() && !(has_key(es, k) && q == key_position(es, k)) {
                assert(es[q].0 == other);
            }
        }
    }
}

/// Storing adds an entry exactly when the key is new; the entries of other
/// keys keep their places.
pub proof fn law_insert_len(es: Seq<(Seq<char>, Seq<char>)>, k: Seq<char>, v: Seq<char>)
    ensures
        entries_insert(es, k, v).len() == es.len() + (if has_key(es, k) {
            0int
        } else {
            1int
        }),
        forall|i: int|
            0 <= i < es.len() && es[i].0 != k ==> #[trigger] entries_insert(es, k, v)[i] == es[i],
{
}

} // verus!
