//! A string-keyed association list: the key/value store behind thread
//! attributes, colour-group metadata and the groups of a thread grouping.
//!
//! Entries keep their insertion order and no key occurs twice.

use vstd::prelude::*;

verus! {

/// Whether no key occurs twice in an entry sequence.
pub open spec fn keys_distinct<V>(s: Seq<(Seq<char>, V)>) -> bool {
    forall|i: int, j: int| 0 <= i < s.len() && 0 <= j < s.len() && i != j ==> s[i].0 != s[j].0
}

/// Whether `k` is the key of some entry.
pub open spec fn has_key<V>(s: Seq<(Seq<char>, V)>, k: Seq<char>) -> bool {
    exists|i: int| 0 <= i < s.len() && s[i].0 == k
}

/// The position of the entry with key `k` (meaningful when `has_key(s, k)`).
pub open spec fn key_pos<V>(s: Seq<(Seq<char>, V)>, k: Seq<char>) -> int {
    choose|i: int| 0 <= i < s.len() && s[i].0 == k
}

/// The value stored under `k`, if any.
pub open spec fn lookup<V>(s: Seq<(Seq<char>, V)>, k: Seq<char>) -> Option<V> {
    if has_key(s, k) {
        Some(s[key_pos(s, k)].1)
    } else {
        None
    }
}

/// The keys, in entry order.
pub open spec fn keys_of<V>(s: Seq<(Seq<char>, V)>) -> Seq<Seq<char>> {
    s.map_values(|e: (Seq<char>, V)| e.0)
}

/// The entry sequence after storing `v` under `k`: an existing entry keeps its
/// place and gets the new value, a new key goes to the end.
pub open spec fn store<V>(s: Seq<(Seq<char>, V)>, k: Seq<char>, v: V) -> Seq<(Seq<char>, V)> {
    if has_key(s, k) {
        s.update(key_pos(s, k), (k, v))
    } else {
        s.push((k, v))
    }
}

/// The entry sequence without the entry of key `k`.
pub open spec fn erase<V>(s: Seq<(Seq<char>, V)>, k: Seq<char>) -> Seq<(Seq<char>, V)> {
    if has_key(s, k) {
        s.remove(key_pos(s, k))
    } else {
        s
    }
}

/// With distinct keys, an entry at position `i` is the one that `key_pos` finds.
pub proof fn lemma_key_pos_unique<V>(s: Seq<(Seq<char>, V)>, i: int)
    requires
        keys_distinct(s),
        0 <= i < s.len(),
    ensures
        has_key(s, s[i].0),
        key_pos(s, s[i].0) == i,
        lookup(s, s[i].0) == Some(s[i].1),
{
    assert(has_key(s, s[i].0));
}

/// Storing keeps the keys distinct; reading a stored key gives the stored value
/// and every other key keeps its value.
pub proof fn lemma_store<V>(s: Seq<(Seq<char>, V)>, k: Seq<char>, v: V)
    requires
        keys_distinct(s),
    ensures
        keys_distinct(store(s, k, v)),
        lookup(store(s, k, v), k) == Some(v),
        forall|k2: Seq<char>| k2 != k ==> lookup(#[trigger] store(s, k, v), k2) == lookup(s, k2),
        store(s, k, v).len() == if has_key(s, k) {
            s.len()
        } else {
            s.len() + 1
        },
{
    let t = store(s, k, v);
    if has_key(s, k) {
        let p = key_pos(s, k);
        assert(t[p].0 == k);
        lemma_key_pos_unique(t, p);
        assert forall|k2: Seq<char>| k2 != k implies lookup(t, k2) == lookup(s, k2) by {
            if has_key(s, k2) {
                let q = key_pos(s, k2);
                assert(t[q] == s[q]);
                lemma_key_pos_unique(t, q);
            }
            if has_key(t, k2) {
                let q = key_pos(t, k2);
                assert(t[q] == s[q]);
            }
        }
    } else {
        assert(t[s.len() as int].0 == k);
        lemma_key_pos_unique(t, s.len() as int);
        assert forall|k2: Seq<char>| k2 != k implies lookup(t, k2) == lookup(s, k2) by {
            if has_key(s, k2) {
                let q = key_pos(s, k2);
                assert(t[q] == s[q]);
                lemma_key_pos_unique(t, q);
            }
            if has_key(t, k2) {
                let q = key_pos(t, k2);
                assert(q < s.len());
                assert(t[q] == s[q]);
            }
        }
    }
}

/// Storing under a key that is not there and then erasing that key gives
/// the entries back: adding a group, an attribute or a metadata entry under
/// a new name and removing it again undoes the addition.
pub proof fn lemma_store_then_erase<V>(s: Seq<(Seq<char>, V)>, k: Seq<char>, v: V)
    requires
        keys_distinct(s),
        !has_key(s, k),
    ensures
        erase(store(s, k, v), k) == s,
{
    let t = store(s, k, v);
    lemma_store(s, k, v);
    assert(t == s.push((k, v)));
    assert(t[s.len() as int].0 == k);
    lemma_key_pos_unique(t, s.len() as int);
    assert(t.remove(s.len() as int) =~= s);
}

/// Erasing keeps the keys distinct, removes the key and keeps every other key's value.
pub proof fn lemma_erase<V>(s: Seq<(Seq<char>, V)>, k: Seq<char>)
    requires
        keys_distinct(s),
    ensures
        keys_distinct(erase(s, k)),
        lookup(erase(s, k), k) is None,
        forall|k2: Seq<char>| k2 != k ==> lookup(#[trigger] erase(s, k), k2) == lookup(s, k2),
        erase(s, k).len() == if has_key(s, k) {
            s.len() - 1
        } else {
            s.len() as int
        },
{
    let t = erase(s, k);
    if has_key(s, k) {
        let p = key_pos(s, k);
        assert forall|i: int| 0 <= i < t.len() implies #[trigger] t[i] == s[if i < p {
            i
        } else {
            i + 1
        }] by {}
        assert(!has_key(t, k)) by {
            if has_key(t, k) {
                let q = key_pos(t, k);
                if q < p {
                    assert(t[q] == s[q]);
                } else {
                    assert(t[q] == s[q + 1]);
                }
            }
        }
        assert forall|k2: Seq<char>| k2 != k implies lookup(t, k2) == lookup(s, k2) by {
            if has_key(s, k2) {
                let q = key_pos(s, k2);
                assert(q != p);
                if q < p {
                    assert(t[q] == s[q]);
                    lemma_key_pos_unique(t, q);
                } else {
                    assert(t[q - 1] == s[q]);
                    lemma_key_pos_unique(t, q - 1);
                }
            }
            if has_key(t, k2) {
                let q = key_pos(t, k2);
                if q < p {
                    assert(t[q] == s[q]);
                } else {
                    assert(t[q] == s[q + 1]);
                }
            }
        }
    }
}

/// Extending a prefix of a list with distinct keys by its next entry makes that
/// entry's key find its value and leaves every other key as it was.
pub proof fn lemma_take_next<V>(s: Seq<(Seq<char>, V)>, i: int, k: Seq<char>)
    requires
        keys_distinct(s),
        0 <= i < s.len(),
    ensures
        keys_distinct(s.take(i)),
        keys_distinct(s.take(i + 1)),
        k == s[i].0 ==> lookup(s.take(i + 1), k) == Some(s[i].1) && !has_key(s.take(i), k),
        k != s[i].0 ==> has_key(s.take(i + 1), k) == has_key(s.take(i), k) && lookup(
            s.take(i + 1),
            k,
        ) == lookup(s.take(i), k),
{
    let a = s.take(i);
    let b = s.take(i + 1);
    assert(keys_distinct(a));
    assert(keys_distinct(b));
    if k == s[i].0 {
        assert(b[i].0 == k);
        lemma_key_pos_unique(b, i);
        if has_key(a, k) {
            let q = key_pos(a, k);
            assert(s[q].0 == s[i].0);
        }
    } else {
        if has_key(a, k) {
            let q = key_pos(a, k);
            assert(b[q] == a[q]);
            lemma_key_pos_unique(b, q);
            lemma_key_pos_unique(a, q);
        }
        if has_key(b, k) {
            let q = key_pos(b, k);
            assert(q != i);
            assert(a[q] == b[q]);
        }
    }
}

/// The entries of a vector of owned keys and values, keys taken as characters.
pub open spec fn entries_view<V>(v: Seq<(String, V)>) -> Seq<(Seq<char>, V)> {
    v.map_values(|e: (String, V)| (e.0@, e.1))
}

/// An association list with string keys.
#[derive(Debug, Clone, PartialEq, Eq)]
pub struct AssocList<V> {
    entries: Vec<(String, V)>,
}

impl<V> View for AssocList<V> {
    type V = Seq<(Seq<char>, V)>;

    closed spec fn view(&self) -> Seq<(Seq<char>, V)> {
        entries_view(self.entries@)
    }
}

impl<V> AssocList<V> {
    /// Well-formedness: no key occurs twice.
    pub open spec fn wf(&self) -> bool {
        keys_distinct(self@)
    }

    /// An empty list.
    pub fn new() -> (m: Self)
        ensures
            m.wf(),
            m@ == Seq::<(Seq<char>, V)>::empty(),
    {
        let m = AssocList { entries: Vec::new() };
        assert(m@ =~= Seq::<(Seq<char>, V)>::empty());
        m
    }

    /// Number of entries.
    pub fn len(&self) -> (n: usize)
        ensures
            n == self@.len(),
    {
        self.entries.len()
    }

    /// Whether there is no entry.
    pub fn is_empty(&self) -> (b: bool)
        ensures
            b == (self@.len() == 0),
    {
        self.entries.len() == 0
    }

    /// Position of the entry with the given key.
    fn position(&self, key: &str) -> (r: Option<usize>)
        requires
            self.wf(),
        ensures
            r is None <==> !has_key(self@, key@),
            r matches Some(i) ==> i < self@.len() && i == key_pos(self@, key@) && self@[i as int].0
                == key@,
    {
        let k = key.to_owned();
        let mut i: usize = 0;
        while i < self.entries.len()
            invariant
                k@ == key@,
                self.wf(),
                i <= self.entries@.len(),
                self@.len() == self.entries@.len(),
                forall|j: int| 0 <= j < i ==> self@[j].0 != key@,
            decreases self.entries@.len() - i,
        {
            assert(self@[i as int].0 == self.entries@[i as int].0@);
            if self.entries[i].0 == k {
                proof {
                    lemma_key_pos_unique(self@, i as int);
                }
                return Some(i);
            }
            i = i + 1;
        }
        None
    }

    /// Whether an entry has the given key.
    pub fn contains_key(&self, key: &str) -> (b: bool)
        requires
            self.wf(),
        ensures
            b == has_key(self@, key@),
    {
        self.position(key).is_some()
    }

    /// The value stored under the given key.
    pub fn get(&self, key: &str) -> (r: Option<&V>)
        requires
            self.wf(),
        ensures
            r matches Some(v) ==> lookup(self@, key@) == Some(*v),
            r is None ==> lookup(self@, key@) is None,
    {
        match self.position(key) {
            Some(i) => {
                assert(self@[i as int].1 == self.entries@[i as int].1);
                Some(&self.entries[i].1)
            },
            None => None,
        }
    }

    /// Mutable access to the value stored under a key.
    pub fn get_mut(&mut self, key: &str) -> (r: Option<&mut V>)
        requires
            old(self).wf(),
        ensures
            r is None ==> lookup(old(self)@, key@) is None && final(self)@ == old(self)@,
            r matches Some(v) ==> lookup(old(self)@, key@) == Some(*v) && final(self)@ == store(
                old(self)@,
                key@,
                *final(v),
            ),
    {
        match self.position(key) {
            Some(i) => {
                let ghost before = self@;
                proof {
                    lemma_key_pos_unique(before, i as int);
                }
                let e = &mut self.entries[i];
                Some(&mut e.1)
            },
            None => None,
        }
    }

    /// Stores a value under a key; returns the value that was there before.
    pub fn insert(&mut self, key: String, value: V) -> (old_value: Option<V>)
        requires
            old(self).wf(),
        ensures
            final(self).wf(),
            final(self)@ == store(old(self)@, key@, value),
            old_value == lookup(old(self)@, key@),
    {
        proof {
            lemma_store(self@, key@, value);
        }
        let ghost k = key@;
        match self.position(key.as_str()) {
            Some(i) => {
                let ghost before = self@;
                let (_, previous) = self.entries.remove(i);
                self.entries.insert(i, (key, value));
                assert(self@ =~= store(before, k, value));
                Some(previous)
            },
            None => {
                let ghost before = self@;
                self.entries.push((key, value));
                assert(self@ =~= store(before, k, value));
                None
            },
        }
    }

    /// Removes the entry of a key; returns its value.
    pub fn remove(&mut self, key: &str) -> (old_value: Option<V>)
        requires
            old(self).wf(),
        ensures
            final(self).wf(),
            final(self)@ == erase(old(self)@, key@),
            old_value == lookup(old(self)@, key@),
    {
        proof {
            lemma_erase(self@, key@);
        }
        match self.position(key) {
            Some(i) => {
                let ghost before = self@;
                let (_, previous) = self.entries.remove(i);
                assert(self@ =~= erase(before, key@));
                Some(previous)
            },
            None => None,
        }
    }

    /// Removes every entry.
    pub fn clear(&mut self)
        ensures
            final(self).wf(),
            final(self)@ == Seq::<(Seq<char>, V)>::empty(),
    {
        self.entries.clear();
        assert(self@ =~= Seq::<(Seq<char>, V)>::empty());
    }

    /// The key and value at a position.
    pub fn entry_at(&self, i: usize) -> (r: (&String, &V))
        requires
            i < self@.len(),
        ensures
            r.0@ == self@[i as int].0,
            *r.1 == self@[i as int].1,
    {
        let e = &self.entries[i];
        (&e.0, &e.1)
    }
}

impl<V> AssocList<V> {
    /// The entries, in order, giving up the list.
    pub fn into_entries(self) -> (v: Vec<(String, V)>)
        ensures
            entries_view(v@) == self@,
    {
        self.entries
    }
}

impl AssocList<String> {
    /// A copy of the list.
    pub fn duplicate(&self) -> (r: Self)
        ensures
            r@ == self@,
    {
        let mut entries: Vec<(String, String)> = Vec::new();
        let mut i: usize = 0;
        while i < self.entries.len()
            invariant
                i <= self.entries@.len(),
                entries@.len() == i,
                forall|j: int| 0 <= j < i ==> #[trigger] entries@[j] == self.entries@[j],
            decreases self.entries@.len() - i,
        {
            let e = &self.entries[i];
            entries.push((e.0.clone(), e.1.clone()));
            i = i + 1;
        }
        let r = AssocList { entries };
        assert(r.entries@ =~= self.entries@);
        r
    }
}

} // verus!
