//! A map keyed by names, kept in name order.
//!
//! Entries are held in a vector sorted strictly by their key's characters, so
//! each key occurs once and walking the entries visits the keys in order. The
//! abstract value of the map is a `Map` from key text to entry.
//!
//! This stands where a `BTreeMap` keyed by names would: vstd specifies
//! `BTreeMap` only for keys that obey its ordering model (`obeys_cmp`), and
//! it establishes that model for integer keys and tuples of them, not for
//! `String` nor for a name type whose `Ord` is derived. Ordering by the key's
//! characters here is the order such a map keeps, so snapshots, listings and
//! events come out in the same deterministic order.
use vstd::prelude::*;

use crate::text::{lemma_lex_irreflexive, lemma_lex_total, lemma_lex_transitive, lex_lt, same_text, text_lt};

verus! {

/// A key that is identified by its text.
pub trait TextKey {
    spec fn key_view(&self) -> Seq<char>;

    fn key_text(&self) -> (r: &str)
        ensures
            r@ == self.key_view(),
    ;
}

impl TextKey for String {
    open spec fn key_view(&self) -> Seq<char> {
        self@
    }

    fn key_text(&self) -> (r: &str) {
        self.as_str()
    }
}

/// The key text of entry `i`.
pub open spec fn key_of<K: TextKey, E>(s: Seq<(K, E)>, i: int) -> Seq<char> {
    s[i].0.key_view()
}

/// Keys strictly increase along the sequence.
pub open spec fn sorted_keys<K: TextKey, E>(s: Seq<(K, E)>) -> bool {
    forall|i: int, j: int|
        0 <= i < j < s.len() ==> lex_lt(#[trigger] key_of(s, i), #[trigger] key_of(s, j))
}

/// Some entry has key text `k`.
pub open spec fn holds_key<K: TextKey, E>(s: Seq<(K, E)>, k: Seq<char>) -> bool {
    exists|i: int| 0 <= i < s.len() && #[trigger] key_of(s, i) == k
}

/// The entries as a map from key text to value.
pub open spec fn entries_map<K: TextKey, E>(s: Seq<(K, E)>) -> Map<Seq<char>, E> {
    Map::new(
        |k: Seq<char>| holds_key(s, k),
        |k: Seq<char>| s[choose|i: int| 0 <= i < s.len() && #[trigger] key_of(s, i) == k].1,
    )
}

/// In a sorted sequence a key text names one entry.
pub proof fn lemma_key_unique<K: TextKey, E>(s: Seq<(K, E)>, i: int, j: int)
    requires
        sorted_keys(s),
        0 <= i < s.len(),
        0 <= j < s.len(),
        key_of(s, i) == key_of(s, j),
    ensures
        i == j,
{
    if i < j {
        assert(lex_lt(key_of(s, i), key_of(s, j)));
        lemma_lex_irreflexive(key_of(s, i));
    } else if j < i {
        assert(lex_lt(key_of(s, j), key_of(s, i)));
        lemma_lex_irreflexive(key_of(s, i));
    }
}

/// Entry `i` is what the map holds under its key.
pub proof fn lemma_entry_in_map<K: TextKey, E>(s: Seq<(K, E)>, i: int)
    requires
        sorted_keys(s),
        0 <= i < s.len(),
    ensures
        entries_map(s).contains_key(key_of(s, i)),
        entries_map(s)[key_of(s, i)] == s[i].1,
{
    let k = key_of(s, i);
    assert(holds_key(s, k));
    let j = choose|j: int| 0 <= j < s.len() && #[trigger] key_of(s, j) == k;
    lemma_key_unique(s, i, j);
}

/// Inserting a new key at its place keeps the order and adds it to the map.
pub proof fn lemma_insert_new<K: TextKey, E>(s: Seq<(K, E)>, p: int, key: K, v: E)
    requires
        sorted_keys(s),
        0 <= p <= s.len(),
        forall|j: int| 0 <= j < p ==> lex_lt(#[trigger] key_of(s, j), key.key_view()),
        forall|j: int| p <= j < s.len() ==> lex_lt(key.key_view(), #[trigger] key_of(s, j)),
    ensures
        sorted_keys(s.insert(p, (key, v))),
        entries_map(s.insert(p, (key, v))) =~= entries_map(s).insert(key.key_view(), v),
{
    let t = s.insert(p, (key, v));
    let kv = key.key_view();
    assert forall|i: int| 0 <= i < t.len() implies #[trigger] key_of(t, i) == (if i < p {
        key_of(s, i)
    } else if i == p {
        kv
    } else {
        key_of(s, i - 1)
    }) by {}
    assert forall|i: int, j: int| 0 <= i < j < t.len() implies lex_lt(
        #[trigger] key_of(t, i),
        #[trigger] key_of(t, j),
    ) by {
        if j < p {
            assert(key_of(t, i) == key_of(s, i) && key_of(t, j) == key_of(s, j));
        } else if j == p {
            assert(key_of(t, i) == key_of(s, i));
        } else if i < p {
            assert(key_of(t, i) == key_of(s, i) && key_of(t, j) == key_of(s, j - 1));
            assert(lex_lt(key_of(s, i), kv));
            assert(lex_lt(kv, key_of(s, j - 1)));
            lemma_lex_transitive(key_of(s, i), kv, key_of(s, j - 1));
        } else if i == p {
            assert(key_of(t, j) == key_of(s, j - 1));
        } else {
            assert(key_of(t, i) == key_of(s, i - 1) && key_of(t, j) == key_of(s, j - 1));
        }
    }
    assert forall|k: Seq<char>| #[trigger]
        entries_map(t).contains_key(k) <==> entries_map(s).insert(kv, v).contains_key(k) by {
        if holds_key(t, k) {
            let i = choose|i: int| 0 <= i < t.len() && #[trigger] key_of(t, i) == k;
            if i < p {
                assert(key_of(s, i) == k);
            } else if i > p {
                assert(key_of(s, i - 1) == k);
            }
        }
        if holds_key(s, k) {
            let i = choose|i: int| 0 <= i < s.len() && #[trigger] key_of(s, i) == k;
            if i < p {
                assert(key_of(t, i) == k);
            } else {
                assert(key_of(t, i + 1) == k);
            }
        }
        if k == kv {
            assert(key_of(t, p) == k);
        }
    }
    assert forall|k: Seq<char>| #[trigger] entries_map(t).contains_key(k) implies entries_map(t)[k]
        == entries_map(s).insert(kv, v)[k] by {
        let i = choose|i: int| 0 <= i < t.len() && #[trigger] key_of(t, i) == k;
        lemma_entry_in_map(t, i);
        if i < p {
            lemma_entry_in_map(s, i);
            assert(lex_lt(key_of(s, i), kv));
            lemma_lex_irreflexive(kv);
        } else if i > p {
            lemma_entry_in_map(s, i - 1);
            assert(lex_lt(kv, key_of(s, i - 1)));
            lemma_lex_irreflexive(kv);
        }
    }
}

/// Overwriting the entry at `p` with the same key text replaces its value.
pub proof fn lemma_replace<K: TextKey, E>(s: Seq<(K, E)>, p: int, key: K, v: E)
    requires
        sorted_keys(s),
        0 <= p < s.len(),
        key.key_view() == key_of(s, p),
    ensures
        sorted_keys(s.update(p, (key, v))),
        entries_map(s.update(p, (key, v))) =~= entries_map(s).insert(key.key_view(), v),
{
    let t = s.update(p, (key, v));
    let kv = key.key_view();
    assert forall|i: int| 0 <= i < t.len() implies #[trigger] key_of(t, i) == key_of(s, i) by {}
    assert forall|i: int, j: int| 0 <= i < j < t.len() implies lex_lt(
        #[trigger] key_of(t, i),
        #[trigger] key_of(t, j),
    ) by {
        assert(key_of(t, i) == key_of(s, i) && key_of(t, j) == key_of(s, j));
    }
    assert forall|k: Seq<char>| #[trigger]
        entries_map(t).contains_key(k) <==> entries_map(s).insert(kv, v).contains_key(k) by {
        if holds_key(t, k) {
            let i = choose|i: int| 0 <= i < t.len() && #[trigger] key_of(t, i) == k;
            assert(key_of(s, i) == k);
        }
        if holds_key(s, k) {
            let i = choose|i: int| 0 <= i < s.len() && #[trigger] key_of(s, i) == k;
            assert(key_of(t, i) == k);
        }
        if k == kv {
            assert(key_of(t, p) == k);
        }
    }
    assert forall|k: Seq<char>| #[trigger] entries_map(t).contains_key(k) implies entries_map(t)[k]
        == entries_map(s).insert(kv, v)[k] by {
        let i = choose|i: int| 0 <= i < t.len() && #[trigger] key_of(t, i) == k;
        lemma_entry_in_map(t, i);
        if k == kv {
            lemma_key_unique(t, i, p);
        } else {
            lemma_entry_in_map(s, i);
        }
    }
}

/// Removing the entry at `p` keeps the order and drops its key from the map.
pub proof fn lemma_remove_at<K: TextKey, E>(s: Seq<(K, E)>, p: int)
    requires
        sorted_keys(s),
        0 <= p < s.len(),
    ensures
        sorted_keys(s.remove(p)),
        entries_map(s.remove(p)) =~= entries_map(s).remove(key_of(s, p)),
{
    let t = s.remove(p);
    let kp = key_of(s, p);
    assert forall|i: int| 0 <= i < t.len() implies #[trigger] key_of(t, i) == (if i < p {
        key_of(s, i)
    } else {
        key_of(s, i + 1)
    }) by {}
    assert forall|i: int, j: int| 0 <= i < j < t.len() implies lex_lt(
        #[trigger] key_of(t, i),
        #[trigger] key_of(t, j),
    ) by {
        if j < p {
            assert(key_of(t, i) == key_of(s, i) && key_of(t, j) == key_of(s, j));
        } else if i < p {
            assert(key_of(t, i) == key_of(s, i) && key_of(t, j) == key_of(s, j + 1));
        } else {
            assert(key_of(t, i) == key_of(s, i + 1) && key_of(t, j) == key_of(s, j + 1));
        }
    }
    assert forall|k: Seq<char>| #[trigger]
        entries_map(t).contains_key(k) <==> entries_map(s).remove(kp).contains_key(k) by {
        if holds_key(t, k) {
            let i = choose|i: int| 0 <= i < t.len() && #[trigger] key_of(t, i) == k;
            if i < p {
                assert(key_of(s, i) == k);
                if k == kp {
                    lemma_key_unique(s, i, p);
                }
            } else {
                assert(key_of(s, i + 1) == k);
                if k == kp {
                    lemma_key_unique(s, i + 1, p);
                }
            }
        }
        if holds_key(s, k) && k != kp {
            let i = choose|i: int| 0 <= i < s.len() && #[trigger] key_of(s, i) == k;
            if i < p {
                assert(key_of(t, i) == k);
            } else {
                assert(i != p);
                assert(key_of(t, i - 1) == k);
            }
        }
    }
    assert forall|k: Seq<char>| #[trigger] entries_map(t).contains_key(k) implies entries_map(t)[k]
        == entries_map(s).remove(kp)[k] by {
        let i = choose|i: int| 0 <= i < t.len() && #[trigger] key_of(t, i) == k;
        lemma_entry_in_map(t, i);
        if i < p {
            lemma_entry_in_map(s, i);
        } else {
            lemma_entry_in_map(s, i + 1);
        }
    }
}

/// A sorted sequence's map has one key per entry.
pub proof fn lemma_map_len<K: TextKey, E>(s: Seq<(K, E)>)
    requires
        sorted_keys(s),
    ensures
        entries_map(s).dom().finite(),
        entries_map(s).len() == s.len(),
{
    let ks = Seq::new(s.len(), |i: int| key_of(s, i));
    assert(ks.no_duplicates()) by {
        assert forall|i: int, j: int| 0 <= i < ks.len() && 0 <= j < ks.len() && i != j implies ks[i]
            != ks[j] by {
            if ks[i] == ks[j] {
                lemma_key_unique(s, i, j);
            }
        }
    }
    assert(entries_map(s).dom() =~= ks.to_set()) by {
        assert forall|k: Seq<char>| #[trigger] entries_map(s).dom().contains(k) <==> ks.to_set().contains(k) by {
            if holds_key(s, k) {
                let i = choose|i: int| 0 <= i < s.len() && #[trigger] key_of(s, i) == k;
                assert(ks[i] == k);
            }
            if ks.contains(k) {
                let i = choose|i: int| 0 <= i < ks.len() && ks[i] == k;
                assert(key_of(s, i) == k);
            }
        }
    }
    ks.unique_seq_to_set();
}

/// Entries kept in key order, with unique keys.
pub struct SortedMap<K, E> {
    pub entries: Vec<(K, E)>,
}

impl<K: TextKey, E> View for SortedMap<K, E> {
    type V = Map<Seq<char>, E>;

    open spec fn view(&self) -> Map<Seq<char>, E> {
        entries_map(self.entries@)
    }
}

impl<K: TextKey, E> SortedMap<K, E> {
    /// Keys strictly increase along the entries.
    pub open spec fn wf(&self) -> bool {
        sorted_keys(self.entries@)
    }

    /// An empty map.
    pub fn new() -> (m: Self)
        ensures
            m.wf(),
            m@ == Map::<Seq<char>, E>::empty(),
            m.entries@.len() == 0,
    {
        let m = SortedMap { entries: Vec::new() };
        assert(m@ =~= Map::<Seq<char>, E>::empty());
        m
    }

    /// Where `key` is, or where it would go.
    pub fn find(&self, key: &str) -> (r: Result<usize, usize>)
        requires
            self.wf(),
        ensures
            match r {
                Ok(i) => i < self.entries@.len() && key_of(self.entries@, i as int) == key@,
                Err(p) => p <= self.entries@.len() && (forall|j: int|
                    0 <= j < p ==> lex_lt(#[trigger] key_of(self.entries@, j), key@)) && (forall|
                    j: int,
                | p <= j < self.entries@.len() ==> lex_lt(key@, #[trigger] key_of(self.entries@, j))),
            },
    {
        let mut i: usize = 0;
        while i < self.entries.len()
            invariant
                self.wf(),
                i <= self.entries@.len(),
                forall|j: int| 0 <= j < i ==> lex_lt(#[trigger] key_of(self.entries@, j), key@),
            decreases self.entries@.len() - i,
        {
            let here = self.entries[i].0.key_text();
            if same_text(here, key) {
                return Ok(i);
            }
            if text_lt(key, here) {
                proof {
                    let s = self.entries@;
                    assert forall|j: int| i <= j < s.len() implies lex_lt(
                        key@,
                        #[trigger] key_of(s, j),
                    ) by {
                        if j > i {
                            assert(lex_lt(key_of(s, i as int), key_of(s, j)));
                            lemma_lex_transitive(key@, key_of(s, i as int), key_of(s, j));
                        }
                    }
                }
                return Err(i);
            }
            proof {
                lemma_lex_total(key_of(self.entries@, i as int), key@);
            }
            i = i + 1;
        }
        Err(i)
    }

    /// Whether `key` is absent, given where the search stopped.
    proof fn lemma_absent(&self, key: Seq<char>, p: int)
        requires
            self.wf(),
            0 <= p <= self.entries@.len(),
            forall|j: int| 0 <= j < p ==> lex_lt(#[trigger] key_of(self.entries@, j), key),
            forall|j: int|
                p <= j < self.entries@.len() ==> lex_lt(key, #[trigger] key_of(self.entries@, j)),
        ensures
            !self@.contains_key(key),
    {
        if holds_key(self.entries@, key) {
            let i = choose|i: int| 0 <= i < self.entries@.len() && #[trigger] key_of(self.entries@, i) == key;
            lemma_lex_irreflexive(key);
            if i < p {
                assert(lex_lt(key_of(self.entries@, i), key));
            } else {
                assert(lex_lt(key, key_of(self.entries@, i)));
            }
        }
    }

    /// The value under `key`.
    pub fn get(&self, key: &str) -> (r: Option<&E>)
        requires
            self.wf(),
        ensures
            match r {
                Some(v) => self@.contains_key(key@) && *v == self@[key@],
                None => !self@.contains_key(key@),
            },
    {
        match self.find(key) {
            Ok(i) => {
                proof {
                    lemma_entry_in_map(self.entries@, i as int);
                }
                Some(&self.entries[i].1)
            },
            Err(p) => {
                proof {
                    self.lemma_absent(key@, p as int);
                }
                None
            },
        }
    }

    /// The stored key and value under `key`.
    pub fn get_key_value(&self, key: &str) -> (r: Option<(&K, &E)>)
        requires
            self.wf(),
        ensures
            match r {
                Some((k, v)) => self@.contains_key(key@) && k.key_view() == key@ && *v
                    == self@[key@],
                None => !self@.contains_key(key@),
            },
    {
        match self.find(key) {
            Ok(i) => {
                proof {
                    lemma_entry_in_map(self.entries@, i as int);
                }
                let entry = &self.entries[i];
                Some((&entry.0, &entry.1))
            },
            Err(p) => {
                proof {
                    self.lemma_absent(key@, p as int);
                }
                None
            },
        }
    }

    /// Put `value` under `key`, handing back what it replaced.
    pub fn insert(&mut self, key: K, value: E) -> (r: Option<E>)
        requires
            old(self).wf(),
        ensures
            final(self).wf(),
            final(self)@ == old(self)@.insert(key.key_view(), value),
            match r {
                Some(v) => old(self)@.contains_key(key.key_view()) && v == old(self)@[key.key_view()]
                    && final(self).entries@.len() == old(self).entries@.len(),
                None => !old(self)@.contains_key(key.key_view()) && final(self).entries@.len()
                    == old(self).entries@.len() + 1,
            },
    {
        let ghost kv = key.key_view();
        match self.find(key.key_text()) {
            Ok(i) => {
                let ghost s = self.entries@;
                proof {
                    lemma_entry_in_map(s, i as int);
                    lemma_replace(s, i as int, key, value);
                }
                let (_k, previous) = self.entries.remove(i);
                self.entries.insert(i, (key, value));
                assert(self.entries@ =~= s.update(i as int, (key, value)));
                Some(previous)
            },
            Err(p) => {
                let ghost s = self.entries@;
                proof {
                    self.lemma_absent(kv, p as int);
                    lemma_insert_new(s, p as int, key, value);
                }
                self.entries.insert(p, (key, value));
                None
            },
        }
    }

    /// Take out the entry under `key`, if there is one.
    pub fn remove(&mut self, key: &str) -> (r: Option<(K, E)>)
        requires
            old(self).wf(),
        ensures
            final(self).wf(),
            final(self)@ == old(self)@.remove(key@),
            match r {
                Some((k, v)) => old(self)@.contains_key(key@) && k.key_view() == key@ && v
                    == old(self)@[key@] && final(self).entries@.len() + 1 == old(self).entries@.len(),
                None => !old(self)@.contains_key(key@) && final(self).entries@ == old(self).entries@,
            },
    {
        match self.find(key) {
            Ok(i) => {
                let ghost s = self.entries@;
                proof {
                    lemma_entry_in_map(s, i as int);
                    lemma_remove_at(s, i as int);
                }
                let pair = self.entries.remove(i);
                Some(pair)
            },
            Err(p) => {
                proof {
                    self.lemma_absent(key@, p as int);
                    assert(self@.remove(key@) =~= self@);
                }
                None
            },
        }
    }

    /// How many entries the map holds.
    pub fn len(&self) -> (r: usize)
        requires
            self.wf(),
        ensures
            r == self@.len(),
            r == self.entries@.len(),
    {
        proof {
            lemma_map_len(self.entries@);
        }
        self.entries.len()
    }

    /// Whether the map holds nothing.
    pub fn is_empty(&self) -> (r: bool)
        requires
            self.wf(),
        ensures
            r == (self@ == Map::<Seq<char>, E>::empty()),
            r == (self.entries@.len() == 0),
    {
        let r = self.entries.len() == 0;
        if r {
            assert(self@ =~= Map::<Seq<char>, E>::empty());
        } else {
            proof {
                lemma_entry_in_map(self.entries@, 0);
                assert(!Map::<Seq<char>, E>::empty().contains_key(key_of(self.entries@, 0)));
            }
        }
        r
    }
}

} // verus!
