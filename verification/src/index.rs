//! A map from byte strings to values, kept as two parallel vectors in which
//! no key stands twice.

use vstd::prelude::*;
use vstd::slice::slice_to_vec;

verus! {

/// Whether `a` and `b` hold the same bytes.
pub fn bytes_eq(a: &[u8], b: &[u8]) -> (r: bool)
    ensures
        r == (a@ == b@),
{
    if a.len() != b.len() {
        return false;
    }
    let mut i: usize = 0;
    while i < a.len()
        invariant
            a@.len() == b@.len(),
            i <= a@.len(),
            a@.take(i as int) == b@.take(i as int),
        decreases a@.len() - i,
    {
        if a[i] != b[i] {
            assert(a@[i as int] != b@[i as int]);
            return false;
        }
        i += 1;
        assert(a@.take(i as int) =~= a@.take(i - 1).push(a@[i - 1]));
        assert(b@.take(i as int) =~= b@.take(i - 1).push(b@[i - 1]));
    }
    assert(a@.take(i as int) =~= a@);
    assert(b@.take(i as int) =~= b@);
    true
}

/// A map from byte strings to `V`.
pub struct ByteMap<V> {
    keys: Vec<Vec<u8>>,
    values: Vec<V>,
}

impl<V> ByteMap<V> {
    /// Every key has its value, and no key stands twice.
    pub closed spec fn wf(&self) -> bool {
        &&& self.keys@.len() == self.values@.len()
        &&& forall|i: int, j: int|
            0 <= i < j < self.keys@.len() ==> self.keys@[i]@ != self.keys@[j]@
    }

    /// Where `k` stands among the keys.
    pub closed spec fn slot(&self, k: Seq<u8>) -> int {
        choose|i: int| 0 <= i < self.keys@.len() && self.keys@[i]@ == k
    }

    /// The map that the two vectors stand for.
    pub closed spec fn view(&self) -> Map<Seq<u8>, V> {
        Map::new(
            |k: Seq<u8>| exists|i: int| 0 <= i < self.keys@.len() && self.keys@[i]@ == k,
            |k: Seq<u8>| self.values@[self.slot(k)],
        )
    }

    proof fn lemma_slot(&self, i: int)
        requires
            self.wf(),
            0 <= i < self.keys@.len(),
        ensures
            self@.contains_key(self.keys@[i]@),
            self.slot(self.keys@[i]@) == i,
            self@[self.keys@[i]@] == self.values@[i],
    {
        let k = self.keys@[i]@;
        let j = self.slot(k);
        assert(0 <= j < self.keys@.len() && self.keys@[j]@ == k);
        if j < i {
            assert(self.keys@[j]@ != self.keys@[i]@);
        } else if i < j {
            assert(self.keys@[i]@ != self.keys@[j]@);
        }
    }

    /// The empty map.
    pub fn new() -> (m: Self)
        ensures
            m.wf(),
            m@ == Map::<Seq<u8>, V>::empty(),
    {
        let m = ByteMap { keys: Vec::new(), values: Vec::new() };
        assert(m@ =~= Map::<Seq<u8>, V>::empty());
        m
    }

    fn find(&self, key: &[u8]) -> (r: Option<usize>)
        requires
            self.wf(),
        ensures
            match r {
                Some(i) => i < self.keys@.len() && self.keys@[i as int]@ == key@,
                None => forall|i: int| 0 <= i < self.keys@.len() ==> self.keys@[i]@ != key@,
            },
    {
        let mut i: usize = 0;
        while i < self.keys.len()
            invariant
                i <= self.keys@.len(),
                forall|j: int| 0 <= j < i ==> self.keys@[j]@ != key@,
            decreases self.keys@.len() - i,
        {
            if bytes_eq(self.keys[i].as_slice(), key) {
                return Some(i);
            }
            i += 1;
        }
        None
    }

    /// The value under `key`, if there is one.
    pub fn get(&self, key: &[u8]) -> (r: Option<&V>)
        requires
            self.wf(),
        ensures
            match r {
                Some(v) => self@.contains_key(key@) && *v == self@[key@],
                None => !self@.contains_key(key@),
            },
    {
        match self.find(key) {
            Some(i) => {
                proof {
                    self.lemma_slot(i as int);
                }
                Some(&self.values[i])
            },
            None => None,
        }
    }

    /// Puts `value` under `key`, in place of what was there.
    pub fn insert(&mut self, key: Vec<u8>, value: V)
        requires
            old(self).wf(),
        ensures
            final(self).wf(),
            final(self)@ == old(self)@.insert(key@, value),
    {
        let found = self.find(key.as_slice());
        match found {
            Some(i) => {
                self.values.set(i, value);
                proof {
                    assert(self.wf());
                    assert forall|k: Seq<u8>| #[trigger]
                        self@.contains_key(k) implies self@[k] == old(self)@.insert(
                        key@,
                        value,
                    )[k] by {
                        let j = self.slot(k);
                        self.lemma_slot(j);
                        old(self).lemma_slot(j);
                    }
                    assert(self@.contains_key(key@));
                    assert(self@ =~= old(self)@.insert(key@, value));
                }
            },
            None => {
                self.keys.push(key);
                self.values.push(value);
                proof {
                    let n = old(self).keys@.len() as int;
                    assert(self.wf());
                    assert(self.keys@[n]@ == key@);
                    assert forall|k: Seq<u8>| #[trigger]
                        old(self)@.insert(key@, value).contains_key(k) implies self@.contains_key(
                        k,
                    ) && self@[k] == old(self)@.insert(key@, value)[k] by {
                        if k == key@ {
                            self.lemma_slot(n);
                        } else {
                            let j = old(self).slot(k);
                            old(self).lemma_slot(j);
                            assert(self.keys@[j]@ == k);
                            self.lemma_slot(j);
                        }
                    }
                    assert forall|k: Seq<u8>| #[trigger]
                        self@.contains_key(k) implies old(self)@.insert(key@, value).contains_key(
                        k,
                    ) by {
                        let j = self.slot(k);
                        if j < n {
                            assert(old(self).keys@[j]@ == k);
                        }
                    }
                    assert(self@ =~= old(self)@.insert(key@, value));
                }
            },
        }
    }

    /// Takes `key` and its value out, if it is there.
    pub fn remove(&mut self, key: &[u8])
        requires
            old(self).wf(),
        ensures
            final(self).wf(),
            final(self)@ == old(self)@.remove(key@),
    {
        let found = self.find(key);
        match found {
            Some(i) => {
                self.keys.remove(i);
                self.values.remove(i);
                proof {
                    let n = self.keys@.len() as int;
                    assert(self.wf());
                    assert forall|k: Seq<u8>| #[trigger]
                        old(self)@.remove(key@).contains_key(k) implies self@.contains_key(k)
                        && self@[k] == old(self)@[k] by {
                        let j = old(self).slot(k);
                        old(self).lemma_slot(j);
                        old(self).lemma_slot(i as int);
                        if j < i {
                            assert(self.keys@[j]@ == k);
                            self.lemma_slot(j);
                        } else {
                            assert(self.keys@[j - 1]@ == k);
                            self.lemma_slot(j - 1);
                        }
                    }
                    assert forall|k: Seq<u8>| #[trigger]
                        self@.contains_key(k) implies old(self)@.remove(key@).contains_key(
                        k,
                    ) by {
                        let j = self.slot(k);
                        if j < i {
                            assert(old(self).keys@[j]@ == k);
                        } else {
                            assert(old(self).keys@[j + 1]@ == k);
                        }
                    }
                    assert(self@ =~= old(self)@.remove(key@));
                }
            },
            None => {
                assert(self@ =~= old(self)@.remove(key@));
            },
        }
    }
}

/// The store's index: the latest value of every key that has one.
pub struct Index {
    map: ByteMap<Vec<u8>>,
}

impl Index {
    /// The invariant of the map underneath.
    pub closed spec fn wf(&self) -> bool {
        self.map.wf()
    }

    /// The index as a map from keys to values.
    pub closed spec fn view(&self) -> Map<Seq<u8>, Seq<u8>> {
        self.map@.map_values(|v: Vec<u8>| v@)
    }

    /// The empty index.
    pub fn new() -> (m: Self)
        ensures
            m.wf(),
            m@ == Map::<Seq<u8>, Seq<u8>>::empty(),
    {
        let m = Index { map: ByteMap::new() };
        assert(m@ =~= Map::<Seq<u8>, Seq<u8>>::empty());
        m
    }

    /// A copy of the value under `key`, if there is one.
    pub fn get(&self, key: &[u8]) -> (r: Option<Vec<u8>>)
        requires
            self.wf(),
        ensures
            match r {
                Some(v) => self@.contains_key(key@) && v@ == self@[key@],
                None => !self@.contains_key(key@),
            },
    {
        match self.map.get(key) {
            Some(v) => Some(slice_to_vec(v.as_slice())),
            None => None,
        }
    }

    /// Puts `value` under `key`, in place of what was there.
    pub fn insert(&mut self, key: Vec<u8>, value: Vec<u8>)
        requires
            old(self).wf(),
        ensures
            final(self).wf(),
            final(self)@ == old(self)@.insert(key@, value@),
    {
        self.map.insert(key, value);
        assert(self@ =~= old(self)@.insert(key@, value@));
    }

    /// Takes `key` and its value out, if it is there.
    pub fn remove(&mut self, key: &[u8])
        requires
            old(self).wf(),
        ensures
            final(self).wf(),
            final(self)@ == old(self)@.remove(key@),
    {
        self.map.remove(key);
        assert(self@ =~= old(self)@.remove(key@));
    }
}

} // verus!
