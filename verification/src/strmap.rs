//! A string-keyed map with exact-match lookup, stored as a vector of
//! key/value pairs with no duplicate keys.  Request headers and query
//! parameters use it; inserting an existing key overwrites its value, so the
//! last insertion wins.

use vstd::prelude::*;
use crate::strutil::str_eq;

verus! {

/// The entries of a map, as key/value pairs of character sequences.
pub type Entries = Seq<(Seq<char>, Seq<char>)>;

/// Index of the first entry with key `k` at or after position `i`, if any.
pub open spec fn find_key_from(m: Entries, k: Seq<char>, i: int) -> Option<int>
    decreases m.len() - i,
    when 0 <= i
{
    if i >= m.len() {
        None
    } else if m[i].0 == k {
        Some(i)
    } else {
        find_key_from(m, k, i + 1)
    }
}

/// What `find_key_from` returns: the first position at or after `i` whose
/// key is `k`, or `None` when no entry from `i` on has that key.
pub proof fn lemma_find_key_from(m: Entries, k: Seq<char>, i: int)
    requires
        0 <= i,
    ensures
        match find_key_from(m, k, i) {
            Some(j) => i <= j < m.len() && m[j].0 == k && forall|l: int|
                i <= l < j ==> m[l].0 != k,
            None => forall|l: int| i <= l < m.len() ==> m[l].0 != k,
        },
    decreases m.len() - i,
{
    if i < m.len() && m[i].0 != k {
        lemma_find_key_from(m, k, i + 1);
    }
}

/// Conversely, a position holding `k` with no earlier occurrence at or
/// after `a` is what `find_key_from` returns.
pub proof fn lemma_find_key_first(m: Entries, k: Seq<char>, a: int, j: int)
    requires
        0 <= a <= j < m.len(),
        m[j].0 == k,
        forall|l: int| a <= l < j ==> m[l].0 != k,
    ensures
        find_key_from(m, k, a) == Some(j),
    decreases j - a,
{
    if a < j {
        lemma_find_key_first(m, k, a + 1, j);
    }
}

/// The value bound to `k`, if any: the value of the first entry whose key
/// is `k`.
pub open spec fn map_get(m: Entries, k: Seq<char>) -> Option<Seq<char>> {
    match find_key_from(m, k, 0) {
        None => None,
        Some(j) => if 0 <= j < m.len() {
            Some(m[j].1)
        } else {
            None
        },
    }
}

/// `m` with `k` bound to `v`: the first entry keyed `k` is overwritten in
/// place, or a new entry is appended when none exists.
pub open spec fn map_insert(m: Entries, k: Seq<char>, v: Seq<char>) -> Entries {
    match find_key_from(m, k, 0) {
        None => m.push((k, v)),
        Some(j) => if 0 <= j < m.len() {
            m.update(j, (k, v))
        } else {
            m.push((k, v))
        },
    }
}

/// No two entries share a key.
pub open spec fn entries_wf(m: Entries) -> bool {
    forall|i: int, j: int| 0 <= i < j < m.len() ==> m[i].0 != m[j].0
}

/// After an insert, looking up the inserted key yields the new value.
pub proof fn lemma_get_insert_same(m: Entries, k: Seq<char>, v: Seq<char>)
    ensures
        map_get(map_insert(m, k, v), k) == Some(v),
{
    lemma_find_key_from(m, k, 0);
    let m2 = map_insert(m, k, v);
    match find_key_from(m, k, 0) {
        None => {
            lemma_find_key_first(m2, k, 0, m.len() as int);
        },
        Some(j) => {
            lemma_find_key_first(m2, k, 0, j);
        },
    }
}

/// An insert leaves every other key's binding unchanged.
pub proof fn lemma_get_insert_other(m: Entries, k: Seq<char>, v: Seq<char>, k2: Seq<char>)
    requires
        k2 != k,
    ensures
        map_get(map_insert(m, k, v), k2) == map_get(m, k2),
{
    lemma_find_key_from(m, k, 0);
    let m2 = map_insert(m, k, v);
    lemma_find_key_from(m2, k2, 0);
    lemma_find_key_from(m, k2, 0);
    match find_key_from(m, k2, 0) {
        None => {
            if find_key_from(m2, k2, 0) is Some {
                let j2 = find_key_from(m2, k2, 0)->0;
                assert(m2[j2].0 == k2);
                assert(false);
            }
        },
        Some(j2) => {
            lemma_find_key_first(m2, k2, 0, j2);
        },
    }
}

/// Of two inserts with the same key, the later one wins: the earlier value
/// is gone.
pub proof fn lemma_insert_twice_last_wins(m: Entries, k: Seq<char>, v1: Seq<char>, v2: Seq<char>)
    ensures
        map_get(map_insert(map_insert(m, k, v1), k, v2), k) == Some(v2),
{
    lemma_get_insert_same(map_insert(m, k, v1), k, v2);
}

/// An insert preserves the absence of duplicate keys.
pub proof fn lemma_insert_wf(m: Entries, k: Seq<char>, v: Seq<char>)
    requires
        entries_wf(m),
    ensures
        entries_wf(map_insert(m, k, v)),
{
    lemma_find_key_from(m, k, 0);
}

/// A string-keyed map with no duplicate keys and exact-match lookup.
#[derive(Debug)]
pub struct StrMap {
    pairs: Vec<(String, String)>,
}

impl View for StrMap {
    type V = Entries;

    closed spec fn view(&self) -> Entries {
        self.pairs.deep_view()
    }
}

impl StrMap {
    /// No two entries share a key.  An empty map is well formed and
    /// `insert` preserves well-formedness (`lemma_insert_wf`), so every map
    /// built from `new` and `insert` alone stays well formed.
    pub open spec fn wf(self) -> bool {
        entries_wf(self@)
    }

    /// Creates an empty map.
    pub fn new() -> (r: StrMap)
        ensures
            r@ == Seq::<(Seq<char>, Seq<char>)>::empty(),
    {
        let m = StrMap { pairs: Vec::new() };
        proof {
            assert(m@ =~= Seq::<(Seq<char>, Seq<char>)>::empty());
        }
        m
    }

    /// The number of entries.
    pub fn len(&self) -> (r: usize)
        ensures
            r == self@.len(),
    {
        self.pairs.len()
    }

    /// Whether the map has no entries.
    pub fn is_empty(&self) -> (r: bool)
        ensures
            r == (self@.len() == 0),
    {
        self.pairs.is_empty()
    }

    /// Position of the first entry whose key is `k`, if any.
    fn find_index(&self, k: &str) -> (r: Option<usize>)
        ensures
            match r {
                Some(j) => Some(j as int) == find_key_from(self@, k@, 0),
                None => find_key_from(self@, k@, 0) is None,
            },
    {
        let n = self.pairs.len();
        let mut i: usize = 0;
        while i < n
            invariant
                i <= n,
                n == self@.len(),
                find_key_from(self@, k@, 0) == find_key_from(self@, k@, i as int),
            decreases n - i,
        {
            if str_eq(self.pairs[i].0.as_str(), k) {
                return Some(i);
            }
            i = i + 1;
        }
        None
    }

    /// Looks up the value bound to `k`.
    pub fn get<'a>(&'a self, k: &str) -> (r: Option<&'a String>)
        ensures
            match r {
                Some(v) => map_get(self@, k@) == Some(v@),
                None => map_get(self@, k@) is None,
            },
    {
        proof {
            lemma_find_key_from(self@, k@, 0);
        }
        match self.find_index(k) {
            Some(i) => Some(&self.pairs[i].1),
            None => None,
        }
    }

    /// Binds `k` to `v`, overwriting any existing binding: the last insert
    /// for a key wins.
    pub fn insert(&mut self, k: String, v: String)
        ensures
            final(self)@ == map_insert(old(self)@, k@, v@),
    {
        proof {
            lemma_find_key_from(self@, k@, 0);
        }
        match self.find_index(k.as_str()) {
            Some(i) => {
                self.pairs.remove(i);
                self.pairs.insert(i, (k, v));
                proof {
                    assert(self@ =~= map_insert(old(self)@, k@, v@));
                }
            },
            None => {
                self.pairs.push((k, v));
                proof {
                    assert(self@ =~= map_insert(old(self)@, k@, v@));
                }
            },
        }
    }

    /// The key of the entry at position `i`.
    pub fn key_at<'a>(&'a self, i: usize) -> (r: &'a String)
        requires
            i < self@.len(),
        ensures
            r@ == self@[i as int].0,
    {
        &self.pairs[i].0
    }

    /// The value of the entry at position `i`.
    pub fn val_at<'a>(&'a self, i: usize) -> (r: &'a String)
        requires
            i < self@.len(),
        ensures
            r@ == self@[i as int].1,
    {
        &self.pairs[i].1
    }
}

} // verus!
