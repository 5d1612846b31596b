//! Small maps and sets with string keys, kept in the order of insertion.

use crate::text::str_eq;
use vstd::prelude::*;

verus! {

/// A key with its value.
struct Entry<V> {
    key: String,
    value: V,
}

/// The keys of the entries, in order.
spec fn entry_keys<V>(e: Seq<Entry<V>>) -> Seq<Seq<char>> {
    Seq::new(e.len(), |i: int| e[i].key@)
}

/// The position of the first entry with the key, or the length.
spec fn key_index<V>(e: Seq<Entry<V>>, key: Seq<char>) -> int
    decreases e.len(),
{
    if e.len() == 0 || e[0].key@ == key {
        0
    } else {
        1 + key_index(e.skip(1), key)
    }
}

proof fn lemma_key_index<V>(e: Seq<Entry<V>>, key: Seq<char>)
    ensures
        0 <= key_index(e, key) <= e.len(),
        key_index(e, key) < e.len() ==> e[key_index(e, key)].key@ == key,
        forall|i: int| 0 <= i < key_index(e, key) ==> (#[trigger] e[i]).key@ != key,
    decreases e.len(),
{
    if e.len() > 0 && e[0].key@ != key {
        lemma_key_index(e.skip(1), key);
        assert forall|i: int| 0 <= i < key_index(e, key) implies (#[trigger] e[i]).key@ != key by {
            if i > 0 {
                assert(e.skip(1)[i - 1] == e[i]);
            }
        }
    }
}

proof fn lemma_key_index_is<V>(e: Seq<Entry<V>>, key: Seq<char>, i: int)
    requires
        0 <= i < e.len(),
        e[i].key@ == key,
        entry_keys(e).no_duplicates(),
    ensures
        key_index(e, key) == i,
{
    lemma_key_index(e, key);
    let k = key_index(e, key);
    if k != i {
        assert(entry_keys(e)[k] == entry_keys(e)[i]);
    }
}

spec fn entry_map<V>(e: Seq<Entry<V>>) -> Map<Seq<char>, V> {
    Map::new(|k: Seq<char>| key_index(e, k) < e.len(), |k: Seq<char>| e[key_index(e, k)].value)
}

proof fn lemma_entry_dom<V>(e: Seq<Entry<V>>)
    ensures
        entry_map(e).dom() == entry_keys(e).to_set(),
{
    assert forall|k: Seq<char>| entry_map(e).dom().contains(k) <==> entry_keys(e).to_set().contains(
        k,
    ) by {
        lemma_key_index(e, k);
        if entry_map(e).dom().contains(k) {
            assert(entry_keys(e)[key_index(e, k)] == k);
        }
        if entry_keys(e).contains(k) {
            let i = choose|i: int| 0 <= i < e.len() && entry_keys(e)[i] == k;
            assert(e[i].key@ == k);
        }
    }
    assert(entry_map(e).dom() =~= entry_keys(e).to_set());
}

/// A map from strings, in the order in which the keys came.
pub struct StringMap<V> {
    entries: Vec<Entry<V>>,
}

impl<V> View for StringMap<V> {
    type V = Map<Seq<char>, V>;

    closed spec fn view(&self) -> Map<Seq<char>, V> {
        entry_map(self.entries@)
    }
}

impl<V> StringMap<V> {
    /// No key stands twice.
    #[verifier::type_invariant]
    spec fn keys_once(&self) -> bool {
        entry_keys(self.entries@).no_duplicates()
    }

    /// The keys, in order.
    pub closed spec fn keys(&self) -> Seq<Seq<char>> {
        entry_keys(self.entries@)
    }

    /// An empty map.
    pub fn new() -> (r: Self)
        ensures
            r@ == Map::<Seq<char>, V>::empty(),
            r.keys() == Seq::<Seq<char>>::empty(),
    {
        let r: Self = StringMap { entries: Vec::new() };
        assert(r@ =~= Map::<Seq<char>, V>::empty());
        r
    }

    /// How many keys there are.
    pub fn len(&self) -> (n: usize)
        ensures
            n == self@.dom().len(),
            n == self.keys().len(),
            self@.dom().finite(),
            self.keys().no_duplicates(),
            self.keys().to_set() == self@.dom(),
    {
        proof {
            use_type_invariant(self);
            lemma_entry_dom(self.entries@);
            entry_keys(self.entries@).unique_seq_to_set();
        }
        self.entries.len()
    }

    /// Whether there is no key.
    pub fn is_empty(&self) -> (r: bool)
        ensures
            r == (self@.dom() == Set::<Seq<char>>::empty()),
            r == (self.keys().len() == 0),
    {
        proof {
            lemma_entry_dom(self.entries@);
            if self.entries@.len() > 0 {
                assert(entry_keys(self.entries@).to_set().contains(entry_keys(self.entries@)[0]));
            } else {
                assert(entry_keys(self.entries@).to_set() =~= Set::<Seq<char>>::empty());
            }
        }
        self.entries.len() == 0
    }

    fn position(&self, key: &str) -> (i: usize)
        ensures
            i == key_index(self.entries@, key@),
            i <= self.entries@.len(),
    {
        let mut i: usize = 0;
        assert(self.entries@.skip(0) =~= self.entries@);
        while i < self.entries.len()
            invariant
                i <= self.entries@.len(),
                key_index(self.entries@, key@) == i + key_index(
                    self.entries@.skip(i as int),
                    key@,
                ),
            decreases self.entries@.len() - i,
        {
            if str_eq(self.entries[i].key.as_str(), key) {
                return i;
            }
            assert(self.entries@.skip(i as int).skip(1) =~= self.entries@.skip(i + 1));
            i += 1;
        }
        i
    }

    /// The value of the key.
    pub fn get(&self, key: &str) -> (r: Option<&V>)
        ensures
            match r {
                Some(v) => self@.dom().contains(key@) && *v == self@[key@],
                None => !self@.dom().contains(key@),
            },
    {
        let i: usize = self.position(key);
        if i < self.entries.len() {
            Some(&self.entries[i].value)
        } else {
            None
        }
    }

    /// Whether the map has the key.
    pub fn contains_key(&self, key: &str) -> (r: bool)
        ensures
            r == self@.dom().contains(key@),
    {
        self.position(key) < self.entries.len()
    }

    /// The key at a position.
    pub fn key_at(&self, i: usize) -> (r: &str)
        requires
            i < self.keys().len(),
        ensures
            r@ == self.keys()[i as int],
            self@.dom().contains(r@),
    {
        proof {
            lemma_entry_dom(self.entries@);
            assert(entry_keys(self.entries@).contains(entry_keys(self.entries@)[i as int]));
        }
        self.entries[i].key.as_str()
    }

    /// The value at a position.
    pub fn value_at(&self, i: usize) -> (r: &V)
        requires
            i < self.keys().len(),
        ensures
            *r == self@[self.keys()[i as int]],
    {
        proof {
            use_type_invariant(self);
            lemma_key_index_is(self.entries@, self.keys()[i as int], i as int);
        }
        &self.entries[i].value
    }

    /// Sets the value of a key; a new key comes last.
    pub fn insert(&mut self, key: String, value: V)
        ensures
            final(self)@ == old(self)@.insert(key@, value),
            final(self).keys() == (if old(self)@.dom().contains(key@) {
                old(self).keys()
            } else {
                old(self).keys().push(key@)
            }),
    {
        proof {
            use_type_invariant(&*self);
            lemma_key_index(self.entries@, key@);
        }
        let ghost e0 = self.entries@;
        let at: usize = self.position(key.as_str());
        let mut entries: Vec<Entry<V>> = Vec::new();
        std::mem::swap(&mut entries, &mut self.entries);
        if at < entries.len() {
            let ghost name = key@;
            entries.set(at, Entry { key, value });
            proof {
                let e1 = entries@;
                assert(entry_keys(e1) =~= entry_keys(e0));
                assert forall|k: Seq<char>| true implies {
                    &&& #[trigger] key_index(e1, k) == key_index(e0, k)
                    &&& 0 <= key_index(e0, k)
                    &&& key_index(e0, k) < e0.len() ==> e0[key_index(e0, k)].key@ == k
                } by {
                    lemma_same_keys(e0, e1, k);
                    lemma_key_index(e0, k);
                }
                assert(entry_map(e1) =~= entry_map(e0).insert(name, value));
            }
        } else {
            let ghost name = key@;
            entries.push(Entry { key, value });
            proof {
                let e1 = entries@;
                assert(e1.drop_last() =~= e0);
                assert(entry_keys(e1) =~= entry_keys(e0).push(name));
                assert forall|i: int| 0 <= i < e0.len() implies #[trigger] entry_keys(e0)[i]
                    != name by {
                    assert(e0[i].key@ != name);
                }
                assert forall|k: Seq<char>| true implies #[trigger] key_index(e1, k) == (if k
                    == name {
                    e0.len() as int
                } else if key_index(e0, k) < e0.len() {
                    key_index(e0, k)
                } else {
                    (e0.len() + 1) as int
                }) by {
                    lemma_key_index_push(e0, e1, k);
                    lemma_key_index(e0, k);
                }
                assert forall|k: Seq<char>| #[trigger]
                    key_index(e0, k) >= 0 by {
                    lemma_key_index(e0, k);
                }
                assert(entry_map(e1) =~= entry_map(e0).insert(name, value));
            }
        }
        self.entries = entries;
    }

    /// Removes a key and returns its value.
    pub fn remove(&mut self, key: &str) -> (r: Option<V>)
        ensures
            r == (if old(self)@.dom().contains(key@) {
                Some(old(self)@[key@])
            } else {
                None
            }),
            final(self)@ == old(self)@.remove(key@),
            !old(self)@.dom().contains(key@) ==> final(self).keys() == old(self).keys(),
    {
        proof {
            use_type_invariant(&*self);
            lemma_key_index(self.entries@, key@);
        }
        let ghost e0 = self.entries@;
        let at: usize = self.position(key);
        if at >= self.entries.len() {
            assert(entry_map(e0).remove(key@) =~= entry_map(e0));
            return None;
        }
        let mut entries: Vec<Entry<V>> = Vec::new();
        std::mem::swap(&mut entries, &mut self.entries);
        let removed: Entry<V> = entries.remove(at);
        proof {
            let e1 = entries@;
            assert(entry_keys(e1) =~= entry_keys(e0).remove(at as int));
            assert forall|i: int, j: int| 0 <= i < j < e1.len() implies entry_keys(e1)[i]
                != entry_keys(e1)[j] by {
                let a = if i < at {
                    i
                } else {
                    i + 1
                };
                let b = if j < at {
                    j
                } else {
                    j + 1
                };
                assert(entry_keys(e1)[i] == entry_keys(e0)[a]);
                assert(entry_keys(e1)[j] == entry_keys(e0)[b]);
            }
            assert(entry_keys(e1).no_duplicates());
            assert forall|k: Seq<char>| k != key@ implies {
                &&& (#[trigger] key_index(e1, k) < e1.len()) == (key_index(e0, k) < e0.len())
                &&& key_index(e0, k) < e0.len() ==> e1[key_index(e1, k)] == e0[key_index(e0, k)]
            } by {
                lemma_key_index(e0, k);
                lemma_key_index(e1, k);
                let i0 = key_index(e0, k);
                let i1 = key_index(e1, k);
                if i0 < e0.len() {
                    let m = if i0 < at {
                        i0
                    } else {
                        i0 - 1
                    };
                    assert(e1[m] == e0[i0]);
                    lemma_key_index_is(e1, k, m);
                }
                if i1 < e1.len() {
                    let m = if i1 < at {
                        i1
                    } else {
                        i1 + 1
                    };
                    assert(e0[m] == e1[i1]);
                    lemma_key_index_is(e0, k, m);
                }
            }
            lemma_key_index(e1, key@);
            if key_index(e1, key@) < e1.len() {
                let i1 = key_index(e1, key@);
                let m = if i1 < at {
                    i1
                } else {
                    i1 + 1
                };
                assert(entry_keys(e0)[m] == entry_keys(e0)[at as int]);
            }
            assert(entry_map(e1) =~= entry_map(e0).remove(key@));
        }
        self.entries = entries;
        Some(removed.value)
    }
}

impl<V: Clone> Clone for StringMap<V> {
    fn clone(&self) -> (r: Self)
        ensures
            r.keys() == self.keys(),
            r@.dom() == self@.dom(),
            forall|k: Seq<char>| #[trigger]
                self@.dom().contains(k) ==> cloned::<V>(self@[k], r@[k]),
    {
        proof {
            use_type_invariant(self);
        }
        let mut entries: Vec<Entry<V>> = Vec::new();
        let mut i: usize = 0;
        while i < self.entries.len()
            invariant
                i <= self.entries@.len(),
                entries@.len() == i,
                forall|j: int|
                    0 <= j < i ==> (#[trigger] entries@[j]).key@ == self.entries@[j].key@
                        && cloned::<V>(self.entries@[j].value, entries@[j].value),
            decreases self.entries@.len() - i,
        {
            entries.push(
                Entry {
                    key: self.entries[i].key.clone(),
                    value: self.entries[i].value.clone(),
                },
            );
            i += 1;
        }
        proof {
            let e0 = self.entries@;
            let e1 = entries@;
            assert(entry_keys(e1) =~= entry_keys(e0));
            lemma_entry_dom(e0);
            lemma_entry_dom(e1);
            assert forall|k: Seq<char>| #[trigger]
                entry_map(e0).dom().contains(k) implies cloned::<V>(
                entry_map(e0)[k],
                entry_map(e1)[k],
            ) by {
                lemma_key_index(e0, k);
                lemma_same_keys(e0, e1, k);
            }
        }
        StringMap { entries }
    }
}

proof fn lemma_same_keys<V>(a: Seq<Entry<V>>, b: Seq<Entry<V>>, k: Seq<char>)
    requires
        entry_keys(a) == entry_keys(b),
    ensures
        key_index(a, k) == key_index(b, k),
    decreases a.len(),
{
    assert(entry_keys(a).len() == a.len());
    assert(entry_keys(b).len() == b.len());
    if a.len() > 0 {
        assert(entry_keys(a)[0] == a[0].key@);
        assert(entry_keys(b)[0] == b[0].key@);
        assert forall|i: int| 0 <= i < a.len() - 1 implies a.skip(1)[i].key@ == b.skip(1)[i].key@ by {
            assert(entry_keys(a)[i + 1] == entry_keys(b)[i + 1]);
        }
        assert(entry_keys(a.skip(1)) =~= entry_keys(b.skip(1)));
        lemma_same_keys(a.skip(1), b.skip(1), k);
    }
}

proof fn lemma_key_index_push<V>(a: Seq<Entry<V>>, b: Seq<Entry<V>>, k: Seq<char>)
    requires
        b.len() == a.len() + 1,
        b.drop_last() == a,
    ensures
        key_index(b, k) == (if key_index(a, k) < a.len() {
            key_index(a, k)
        } else if b.last().key@ == k {
            a.len() as int
        } else {
            (a.len() + 1) as int
        }),
    decreases a.len(),
{
    lemma_key_index(a, k);
    if a.len() > 0 {
        assert(a[0] == b[0]);
        assert(b.skip(1).drop_last() =~= a.skip(1));
        lemma_key_index_push(a.skip(1), b.skip(1), k);
    } else {
        reveal_with_fuel(key_index, 2);
    }
}

/// A set of strings.
pub struct StringSet {
    members: StringMap<()>,
}

impl View for StringSet {
    type V = Set<Seq<char>>;

    closed spec fn view(&self) -> Set<Seq<char>> {
        self.members@.dom()
    }
}

impl StringSet {
    /// An empty set.
    pub fn new() -> (r: Self)
        ensures
            r@ == Set::<Seq<char>>::empty(),
    {
        let r: Self = StringSet { members: StringMap::new() };
        assert(r@ =~= Set::<Seq<char>>::empty());
        r
    }

    /// Whether the set has no members.
    pub fn is_empty(&self) -> (r: bool)
        ensures
            r == (self@ == Set::<Seq<char>>::empty()),
    {
        let r: bool = self.members.is_empty();
        proof {
            if r {
                assert(self@ =~= Set::<Seq<char>>::empty());
            }
        }
        r
    }

    /// Whether the set has the member.
    pub fn contains(&self, member: &str) -> (r: bool)
        ensures
            r == self@.contains(member@),
    {
        self.members.contains_key(member)
    }

    /// Adds a member and says whether it was new.
    pub fn insert(&mut self, member: String) -> (added: bool)
        ensures
            added == !old(self)@.contains(member@),
            final(self)@ == old(self)@.insert(member@),
    {
        let ghost before = self@;
        let added: bool = !self.members.contains_key(member.as_str());
        let ghost name = member@;
        self.members.insert(member, ());
        assert(self@ =~= before.insert(name));
        added
    }

    /// Removes a member.
    pub fn remove(&mut self, member: &str)
        ensures
            final(self)@ == old(self)@.remove(member@),
    {
        let ghost before = self@;
        let _ = self.members.remove(member);
        assert(self@ =~= before.remove(member@));
    }

    /// Removes every member.
    pub fn clear(&mut self)
        ensures
            final(self)@ == Set::<Seq<char>>::empty(),
    {
        self.members = StringMap::new();
        assert(self@ =~= Set::<Seq<char>>::empty());
    }
}

impl Clone for StringSet {
    fn clone(&self) -> (r: Self)
        ensures
            r@ == self@,
    {
        StringSet { members: self.members.clone() }
    }
}

} // verus!
