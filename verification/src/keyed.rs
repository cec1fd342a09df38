//! A hash map with text keys that can be listed.

use vstd::hash_map::StringHashMap;
use vstd::prelude::*;
use vstd::string::*;

verus! {

/// A map from texts, which can list its keys.
#[verifier::reject_recursive_types(V)]
pub struct KeyedMap<V> {
    keys: Vec<String>,
    entries: StringHashMap<V>,
}

impl<V> View for KeyedMap<V> {
    type V = Map<Seq<char>, V>;

    closed spec fn view(&self) -> Map<Seq<char>, V> {
        self.entries@
    }
}

impl<V> KeyedMap<V> {
    /// The keys are those of the entries, each of them once.
    pub closed spec fn wf(&self) -> bool {
        &&& self.entries@.dom().finite()
        &&& self.entries@.len() == self.keys@.len()
        &&& forall|i: int|
            0 <= i < self.keys@.len() ==> self.entries@.contains_key((#[trigger] self.keys@[i])@)
        &&& forall|k: Seq<char>| #[trigger]
            self.entries@.contains_key(k) ==> exists|i: int|
                0 <= i < self.keys@.len() && (#[trigger] self.keys@[i])@ == k
        &&& forall|i: int, j: int|
            #![trigger self.keys@[i], self.keys@[j]]
            0 <= i < j < self.keys@.len() ==> self.keys@[i]@ != self.keys@[j]@
    }

    /// There are finitely many entries.
    pub proof fn lemma_wf(&self)
        requires
            self.wf(),
        ensures
            self@.dom().finite(),
    {
    }

    /// A map without entries.
    pub fn new() -> (m: Self)
        ensures
            m.wf(),
            m@ == Map::<Seq<char>, V>::empty(),
    {
        KeyedMap { keys: Vec::new(), entries: StringHashMap::new() }
    }

    /// How many entries there are.
    pub fn len(&self) -> (n: usize)
        requires
            self.wf(),
        ensures
            n == self@.len(),
            self@.dom().finite(),
    {
        self.keys.len()
    }

    /// Whether there is an entry for a key.
    pub fn contains_key(&self, key: &str) -> (b: bool)
        ensures
            b == self@.contains_key(key@),
    {
        self.entries.contains_key(key)
    }

    /// The entry for a key.
    pub fn get(&self, key: &str) -> (value: Option<&V>)
        ensures
            match value {
                Some(v) => self@.contains_key(key@) && *v == self@[key@],
                None => !self@.contains_key(key@),
            },
    {
        self.entries.get(key)
    }

    /// One of the keys, if there are any.
    pub fn any_key(&self) -> (key: Option<String>)
        requires
            self.wf(),
        ensures
            match key {
                Some(k) => self@.contains_key(k@),
                None => self@ == Map::<Seq<char>, V>::empty(),
            },
    {
        if self.keys.len() == 0 {
            assert(self@ =~= Map::empty());
            None
        } else {
            let k = self.keys[0].clone();
            assert(self@.contains_key(self.keys@[0]@));
            Some(k)
        }
    }

    /// All keys.
    pub fn keys(&self) -> (keys: Vec<String>)
        requires
            self.wf(),
        ensures
            keys.len() == self@.len(),
            forall|i: int| 0 <= i < keys.len() ==> self@.contains_key((#[trigger] keys@[i])@),
            forall|k: Seq<char>| #[trigger]
                self@.contains_key(k) ==> exists|i: int|
                    0 <= i < keys.len() && (#[trigger] keys@[i])@ == k,
    {
        let mut keys: Vec<String> = Vec::new();
        let mut i: usize = 0;
        while i < self.keys.len()
            invariant
                i <= self.keys.len(),
                keys.len() == i,
                forall|j: int| 0 <= j < i ==> #[trigger] keys@[j] == self.keys@[j],
            decreases self.keys.len() - i,
        {
            keys.push(self.keys[i].clone());
            i += 1;
        }
        assert(keys@ =~= self.keys@);
        keys
    }

    /// Sets the entry for a key.
    pub fn insert(&mut self, key: String, value: V)
        requires
            old(self).wf(),
        ensures
            final(self).wf(),
            final(self)@ == old(self)@.insert(key@, value),
    {
        if !self.entries.contains_key(key.as_str()) {
            self.keys.push(key.clone());
        }
        self.entries.insert(key, value);
        proof {
            assert forall|k: Seq<char>| #[trigger]
                self.entries@.contains_key(k) implies exists|i: int|
                0 <= i < self.keys@.len() && (#[trigger] self.keys@[i])@ == k by {
                if old(self).entries@.contains_key(k) {
                    let i = choose|i: int|
                        0 <= i < old(self).keys@.len() && (#[trigger] old(self).keys@[i])@ == k;
                    assert(self.keys@[i]@ == k);
                } else {
                    assert(self.keys@[self.keys@.len() - 1]@ == k);
                }
            }
            assert forall|i: int| 0 <= i < self.keys@.len() implies self.entries@.contains_key(
                (#[trigger] self.keys@[i])@,
            ) by {
                if i < old(self).keys@.len() {
                    assert(self.keys@[i] == old(self).keys@[i]);
                }
            }
            assert forall|i: int, j: int|
                #![trigger self.keys@[i], self.keys@[j]]
                0 <= i < j < self.keys@.len() implies self.keys@[i]@ != self.keys@[j]@ by {
                assert(self.keys@[i] == old(self).keys@[i]);
                if j < old(self).keys@.len() {
                    assert(self.keys@[j] == old(self).keys@[j]);
                }
            }
        }
    }

    /// Removes the entry for a key, if there is one.
    pub fn remove(&mut self, key: &str)
        requires
            old(self).wf(),
        ensures
            final(self).wf(),
            final(self)@ == old(self)@.remove(key@),
    {
        let wanted: String = key.to_owned();
        let mut i: usize = 0;
        while i < self.keys.len()
            invariant
                i <= self.keys.len(),
                wanted@ == key@,
                *self == *old(self),
                old(self).wf(),
                forall|j: int| 0 <= j < i ==> (#[trigger] self.keys@[j])@ != key@,
            decreases self.keys.len() - i,
        {
            if self.keys[i] == wanted {
                self.keys.remove(i);
                self.entries.remove(key);
                proof {
                    let before = old(self).keys@;
                    assert forall|k: Seq<char>| #[trigger]
                        self.entries@.contains_key(k) implies exists|j: int|
                        0 <= j < self.keys@.len() && (#[trigger] self.keys@[j])@ == k by {
                        assert(old(self).entries@.contains_key(k));
                        let j = choose|j: int|
                            0 <= j < before.len() && (#[trigger] before[j])@ == k;
                        if j < i {
                            assert(self.keys@[j]@ == k);
                        } else {
                            assert(self.keys@[j - 1]@ == k);
                        }
                    }
                    assert forall|j: int|
                        0 <= j < self.keys@.len() implies self.entries@.contains_key(
                        (#[trigger] self.keys@[j])@,
                    ) by {
                        let p = if j < i { j } else { j + 1 };
                        assert(self.keys@[j] == before[p]);
                        assert(before[p]@ != before[i as int]@);
                    }
                    assert forall|a: int, b: int|
                        #![trigger self.keys@[a], self.keys@[b]]
                        0 <= a < b < self.keys@.len() implies self.keys@[a]@ != self.keys@[b]@ by {
                        let p = if a < i { a } else { a + 1 };
                        let q = if b < i { b } else { b + 1 };
                        assert(self.keys@[a] == before[p]);
                        assert(self.keys@[b] == before[q]);
                    }
                }
                return ;
            }
            i += 1;
        }
        assert(!self@.contains_key(key@));
        assert(self@ =~= old(self)@.remove(key@));
    }
}

} // verus!
