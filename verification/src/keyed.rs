//! Sequences of entries that are found by a textual key: the model of a
//! record and of the object graph, and the search both are built on.
//!
//! An entry list keeps its entries in the order in which their keys first
//! came in, and holds no key twice.

use vstd::prelude::*;
use crate::text::str_eq;

verus! {

/// `i` is the first place in `m` where `key` stands.
pub open spec fn is_first<T>(m: Seq<(Seq<char>, T)>, key: Seq<char>, i: int) -> bool {
    &&& 0 <= i < m.len()
    &&& m[i].0 == key
    &&& forall|j: int| 0 <= j < i ==> (#[trigger] m[j]).0 != key
}

/// The first place in `m` where `key` stands.
pub open spec fn key_index<T>(m: Seq<(Seq<char>, T)>, key: Seq<char>) -> Option<int> {
    if exists|i: int| is_first(m, key, i) {
        Some(choose|i: int| is_first(m, key, i))
    } else {
        None
    }
}

/// Whether `key` stands in `m`.
pub open spec fn contains_key<T>(m: Seq<(Seq<char>, T)>, key: Seq<char>) -> bool {
    key_index(m, key) is Some
}

/// What `m` holds under `key`.
pub open spec fn lookup<T>(m: Seq<(Seq<char>, T)>, key: Seq<char>) -> Option<T> {
    match key_index(m, key) {
        Some(i) => Some(m[i].1),
        None => None,
    }
}

/// `m` without the entry of `key`.
pub open spec fn without<T>(m: Seq<(Seq<char>, T)>, key: Seq<char>) -> Seq<(Seq<char>, T)> {
    match key_index(m, key) {
        Some(i) => m.remove(i),
        None => m,
    }
}

/// `m` with `value` under `key`: in the place of the value that stood there,
/// or at the end if `key` is new.
pub open spec fn with<T>(m: Seq<(Seq<char>, T)>, key: Seq<char>, value: T) -> Seq<(Seq<char>, T)> {
    match key_index(m, key) {
        Some(i) => m.update(i, (key, value)),
        None => m.push((key, value)),
    }
}

/// No key stands in `m` twice.
pub open spec fn unique_keys<T>(m: Seq<(Seq<char>, T)>) -> bool {
    forall|i: int, j: int| 0 <= i < j < m.len() ==> (#[trigger] m[i]).0 != (#[trigger] m[j]).0
}

/// The first place of a key is the index that `key_index` gives.
pub proof fn lemma_key_index_found<T>(m: Seq<(Seq<char>, T)>, key: Seq<char>, i: int)
    requires
        is_first(m, key, i),
    ensures
        key_index(m, key) == Some(i),
{
    let c = choose|c: int| is_first(m, key, c);
    if c < i {
        assert(m[c].0 != key);
    } else if i < c {
        assert(m[i].0 != key);
    }
}

/// A key that stands nowhere has no index.
pub proof fn lemma_key_index_absent<T>(m: Seq<(Seq<char>, T)>, key: Seq<char>)
    requires
        forall|j: int| 0 <= j < m.len() ==> (#[trigger] m[j]).0 != key,
    ensures
        key_index(m, key) is None,
{
    if exists|i: int| is_first(m, key, i) {
        let c = choose|c: int| is_first(m, key, c);
        assert(m[c].0 != key);
    }
}

/// What `key_index` gives is the first place of the key, and without one the
/// key stands nowhere.
pub proof fn lemma_key_index<T>(m: Seq<(Seq<char>, T)>, key: Seq<char>)
    ensures
        key_index(m, key) matches Some(i) ==> is_first(m, key, i),
        key_index(m, key) is None ==> forall|j: int|
            0 <= j < m.len() ==> (#[trigger] m[j]).0 != key,
{
    if key_index(m, key) is None {
        assert forall|j: int| 0 <= j < m.len() implies (#[trigger] m[j]).0 != key by {
            if m[j].0 == key {
                lemma_first_exists(m, key, j);
            }
        }
    }
}

/// A key that stands somewhere has a first place.
pub proof fn lemma_first_exists<T>(m: Seq<(Seq<char>, T)>, key: Seq<char>, j: int)
    requires
        0 <= j < m.len(),
        m[j].0 == key,
    ensures
        exists|i: int| is_first(m, key, i),
    decreases j,
{
    if forall|k: int| 0 <= k < j ==> (#[trigger] m[k]).0 != key {
        assert(is_first(m, key, j));
    } else {
        let k = choose|k: int| 0 <= k < j && (#[trigger] m[k]).0 == key;
        lemma_first_exists(m, key, k);
    }
}

/// Putting a value under a key keeps the keys unique, and the value is then
/// what the key leads to; every other key leads to what it led to before.
pub proof fn lemma_with<T>(m: Seq<(Seq<char>, T)>, key: Seq<char>, value: T, other: Seq<char>)
    requires
        unique_keys(m),
    ensures
        unique_keys(with(m, key, value)),
        lookup(with(m, key, value), key) == Some(value),
        other != key ==> lookup(with(m, key, value), other) == lookup(m, other),
{
    let w = with(m, key, value);
    lemma_key_index(m, key);
    lemma_key_index(m, other);
    match key_index(m, key) {
        Some(i) => {
            assert(is_first(w, key, i));
            lemma_key_index_found(w, key, i);
            if other != key {
                match key_index(m, other) {
                    Some(o) => {
                        assert(is_first(w, other, o)) by {
                            assert forall|j: int| 0 <= j < o implies (#[trigger] w[j]).0
                                != other by {
                                assert(m[j].0 != other);
                            }
                        }
                        lemma_key_index_found(w, other, o);
                    },
                    None => {
                        assert forall|j: int| 0 <= j < w.len() implies (#[trigger] w[j]).0
                            != other by {
                            assert(m[j].0 != other);
                        }
                        lemma_key_index_absent(w, other);
                    },
                }
            }
            assert forall|a: int, b: int| 0 <= a < b < w.len() implies (#[trigger] w[a]).0 != (
            #[trigger] w[b]).0 by {
                assert(m[a].0 != m[b].0);
            }
        },
        None => {
            assert(is_first(w, key, m.len() as int)) by {
                assert forall|j: int| 0 <= j < m.len() implies (#[trigger] w[j]).0 != key by {
                    assert(m[j].0 != key);
                }
            }
            lemma_key_index_found(w, key, m.len() as int);
            if other != key {
                match key_index(m, other) {
                    Some(o) => {
                        assert(is_first(w, other, o)) by {
                            assert forall|j: int| 0 <= j < o implies (#[trigger] w[j]).0
                                != other by {
                                assert(m[j].0 != other);
                            }
                        }
                        lemma_key_index_found(w, other, o);
                    },
                    None => {
                        assert forall|j: int| 0 <= j < w.len() implies (#[trigger] w[j]).0
                            != other by {
                            if j < m.len() {
                                assert(m[j].0 != other);
                            }
                        }
                        lemma_key_index_absent(w, other);
                    },
                }
            }
            assert forall|a: int, b: int| 0 <= a < b < w.len() implies (#[trigger] w[a]).0 != (
            #[trigger] w[b]).0 by {
                if b < m.len() {
                    assert(m[a].0 != m[b].0);
                } else {
                    assert(m[a].0 != key);
                }
            }
        },
    }
}

/// Taking a key out keeps the keys unique, and the key then leads nowhere;
/// every other key leads to what it led to before.
pub proof fn lemma_without<T>(m: Seq<(Seq<char>, T)>, key: Seq<char>, other: Seq<char>)
    requires
        unique_keys(m),
    ensures
        unique_keys(without(m, key)),
        lookup(without(m, key), key) is None,
        other != key ==> lookup(without(m, key), other) == lookup(m, other),
{
    let w = without(m, key);
    lemma_key_index(m, key);
    lemma_key_index(m, other);
    match key_index(m, key) {
        Some(i) => {
            assert forall|j: int| 0 <= j < w.len() implies (#[trigger] w[j]).0 != key by {
                if j < i {
                    assert(m[j].0 != m[i].0);
                } else {
                    assert(m[i].0 != m[j + 1].0);
                }
            }
            lemma_key_index_absent(w, key);
            assert forall|a: int, b: int| 0 <= a < b < w.len() implies (#[trigger] w[a]).0 != (
            #[trigger] w[b]).0 by {
                let a0 = if a < i { a } else { a + 1 };
                let b0 = if b < i { b } else { b + 1 };
                assert(m[a0].0 != m[b0].0);
            }
            if other != key {
                match key_index(m, other) {
                    Some(o) => {
                        let o1 = if o < i { o } else { o - 1 };
                        assert(is_first(w, other, o1)) by {
                            assert forall|j: int| 0 <= j < o1 implies (#[trigger] w[j]).0
                                != other by {
                                let j0 = if j < i { j } else { j + 1 };
                                assert(m[j0].0 != other);
                            }
                        }
                        lemma_key_index_found(w, other, o1);
                    },
                    None => {
                        assert forall|j: int| 0 <= j < w.len() implies (#[trigger] w[j]).0
                            != other by {
                            let j0 = if j < i { j } else { j + 1 };
                            assert(m[j0].0 != other);
                        }
                        lemma_key_index_absent(w, other);
                    },
                }
            }
        },
        None => {},
    }
}

/// The first place in `entries` whose key reads `key`.
pub fn find_key<V>(entries: &Vec<(String, V)>, key: &str) -> (r: Option<usize>)
    ensures
        match r {
            Some(i) => {
                &&& i < entries@.len()
                &&& entries@[i as int].0@ == key@
                &&& forall|j: int| 0 <= j < i ==> (#[trigger] entries@[j]).0@ != key@
            },
            None => forall|j: int| 0 <= j < entries@.len() ==> (#[trigger] entries@[j]).0@ != key@,
        },
{
    let mut i: usize = 0;
    while i < entries.len()
        invariant
            i <= entries@.len(),
            forall|j: int| 0 <= j < i ==> (#[trigger] entries@[j]).0@ != key@,
        decreases entries@.len() - i,
    {
        if str_eq(entries[i].0.as_str(), key) {
            return Some(i);
        }
        i += 1;
    }
    None
}

/// The first place in `texts` that reads `text`.
pub fn find_text(texts: &Vec<String>, text: &str) -> (r: Option<usize>)
    ensures
        match r {
            Some(i) => {
                &&& i < texts@.len()
                &&& texts@[i as int]@ == text@
                &&& forall|j: int| 0 <= j < i ==> (#[trigger] texts@[j])@ != text@
            },
            None => forall|j: int| 0 <= j < texts@.len() ==> (#[trigger] texts@[j])@ != text@,
        },
{
    let mut i: usize = 0;
    while i < texts.len()
        invariant
            i <= texts@.len(),
            forall|j: int| 0 <= j < i ==> (#[trigger] texts@[j])@ != text@,
        decreases texts@.len() - i,
    {
        if str_eq(texts[i].as_str(), text) {
            return Some(i);
        }
        i += 1;
    }
    None
}

} // verus!
