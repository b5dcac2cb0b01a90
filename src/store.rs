//! An insertion-ordered string-keyed storage map with copy-out snapshots.
use vstd::prelude::*;

verus! {

/// One storage pair as seen by the specification: key and value as character sequences.
pub type PairModel = (Seq<char>, Seq<char>);

/// The character view of a sequence of owned pairs.
pub open spec fn pairs_view(v: Seq<(String, String)>) -> Seq<PairModel> {
    v.map_values(|e: (String, String)| (e.0@, e.1@))
}

/// No key occurs twice.
pub open spec fn keys_unique(s: Seq<PairModel>) -> bool {
    forall|i: int, j: int| 0 <= i < j < s.len() ==> s[i].0 != s[j].0
}

/// The key occurs at some position.
pub open spec fn has_key(s: Seq<PairModel>, k: Seq<char>) -> bool {
    exists|i: int| 0 <= i < s.len() && s[i].0 == k
}

/// The position of the key, if it is present.
pub open spec fn key_index(s: Seq<PairModel>, k: Seq<char>) -> int {
    choose|i: int| 0 <= i < s.len() && s[i].0 == k
}

/// The value stored under the key.
pub open spec fn lookup(s: Seq<PairModel>, k: Seq<char>) -> Option<Seq<char>> {
    if has_key(s, k) {
        Some(s[key_index(s, k)].1)
    } else {
        None
    }
}

/// Upsert: a present key keeps its position and takes the new value; a new key is appended.
pub open spec fn upsert(s: Seq<PairModel>, k: Seq<char>, v: Seq<char>) -> Seq<PairModel> {
    if has_key(s, k) {
        s.update(key_index(s, k), (k, v))
    } else {
        s.push((k, v))
    }
}

/// Removal of the key, if present; the remaining pairs keep their relative order.
pub open spec fn remove_key(s: Seq<PairModel>, k: Seq<char>) -> Seq<PairModel> {
    if has_key(s, k) {
        s.remove(key_index(s, k))
    } else {
        s
    }
}

/// In a sequence with unique keys, the position of a present key is the one holding it.
pub proof fn lemma_key_index_unique(s: Seq<PairModel>, k: Seq<char>, i: int)
    requires
        keys_unique(s),
        0 <= i < s.len(),
        s[i].0 == k,
    ensures
        has_key(s, k),
        key_index(s, k) == i,
        lookup(s, k) == Some(s[i].1),
{
    assert(has_key(s, k));
    let j = key_index(s, k);
    if j < i {
        assert(s[j].0 != s[i].0);
    } else if i < j {
        assert(s[i].0 != s[j].0);
    }
}

/// Copies pairs into a fresh vector.
pub fn copy_pairs(v: &Vec<(String, String)>) -> (r: Vec<(String, String)>)
    ensures
        pairs_view(r@) == pairs_view(v@),
{
    let mut r: Vec<(String, String)> = Vec::new();
    let mut i: usize = 0;
    while i < v.len()
        invariant
            i <= v.len(),
            r.len() == i,
            forall|j: int| 0 <= j < i ==> r@[j].0@ == v@[j].0@ && r@[j].1@ == v@[j].1@,
        decreases v.len() - i,
    {
        let k = v[i].0.clone();
        let val = v[i].1.clone();
        r.push((k, val));
        i = i + 1;
    }
    assert(pairs_view(r@) =~= pairs_view(v@));
    r
}

/// The position of a key among pairs, if present.
pub fn find_key(v: &Vec<(String, String)>, key: &String) -> (r: Option<usize>)
    ensures
        match r {
            Some(i) => i < v.len() && pairs_view(v@)[i as int].0 == key@,
            None => !has_key(pairs_view(v@), key@),
        },
{
    let mut i: usize = 0;
    while i < v.len()
        invariant
            i <= v.len(),
            forall|j: int| 0 <= j < i ==> pairs_view(v@)[j].0 != key@,
        decreases v.len() - i,
    {
        if v[i].0 == *key {
            return Some(i);
        }
        i = i + 1;
    }
    None
}

/// A live storage map that keeps keys in insertion order. Keys are found by a linear scan
/// of the pairs, so `get`, `set` and `remove` take time linear in the number of keys.
pub struct StorageInspector {
    entries: Vec<(String, String)>,
}

impl View for StorageInspector {
    type V = Seq<PairModel>;

    closed spec fn view(&self) -> Seq<PairModel> {
        pairs_view(self.entries@)
    }
}

impl StorageInspector {
    /// Keys are unique at all times.
    pub open spec fn wf(&self) -> bool {
        keys_unique(self@)
    }

    /// An empty store.
    pub fn new() -> (r: Self)
        ensures
            r.wf(),
            r@ == Seq::<PairModel>::empty(),
    {
        let r = StorageInspector { entries: Vec::new() };
        assert(r@ =~= Seq::<PairModel>::empty());
        r
    }

    /// Number of stored pairs.
    pub fn len(&self) -> (r: usize)
        ensures
            r == self@.len(),
    {
        self.entries.len()
    }

    /// Inserts or updates a key; an existing key keeps its position.
    pub fn set(&mut self, key: String, value: String)
        requires
            old(self).wf(),
        ensures
            final(self).wf(),
            final(self)@ == upsert(old(self)@, key@, value@),
    {
        let ghost s0 = self@;
        match find_key(&self.entries, &key) {
            Some(i) => {
                proof {
                    lemma_key_index_unique(s0, key@, i as int);
                }
                self.entries.set(i, (key, value));
                assert(self@ =~= upsert(s0, key@, value@));
            },
            None => {
                self.entries.push((key, value));
                assert(self@ =~= upsert(s0, key@, value@));
            },
        }
    }

    /// The value stored under a key.
    pub fn get(&self, key: &String) -> (r: Option<String>)
        requires
            self.wf(),
        ensures
            match r {
                Some(v) => lookup(self@, key@) == Some(v@),
                None => lookup(self@, key@) is None,
            },
    {
        match find_key(&self.entries, key) {
            Some(i) => {
                proof {
                    lemma_key_index_unique(self@, key@, i as int);
                }
                Some(self.entries[i].1.clone())
            },
            None => None,
        }
    }

    /// Removes a key; returns whether it was present.
    pub fn remove(&mut self, key: &String) -> (r: bool)
        requires
            old(self).wf(),
        ensures
            final(self).wf(),
            r == has_key(old(self)@, key@),
            final(self)@ == remove_key(old(self)@, key@),
    {
        let ghost s0 = self@;
        match find_key(&self.entries, key) {
            Some(i) => {
                proof {
                    lemma_key_index_unique(s0, key@, i as int);
                }
                self.entries.remove(i);
                assert(self@ =~= remove_key(s0, key@));
                true
            },
            None => false,
        }
    }

    /// An independent copy of all pairs, in insertion order.
    pub fn snapshot(&self) -> (r: Vec<(String, String)>)
        ensures
            pairs_view(r@) == self@,
    {
        copy_pairs(&self.entries)
    }
}

} // verus!
