//! A small association list with unique keys, viewed as a map.
//!
//! The canisters' records (posts, users, packs, ...) live in `KeyedList`s: insertion
//! keeps the position of an existing key and appends a new one, so the order in which
//! entries were first inserted is kept, which the paging functions rely on.
use vstd::prelude::*;
use crate::principal::PrincipalId;

verus! {

/// A key whose equality is decided by its spec model.
pub trait KeyModel: Sized {
    type Model;

    spec fn model(&self) -> Self::Model;

    fn same_key(&self, other: &Self) -> (r: bool)
        ensures
            r == (self.model() == other.model()),
    ;
}

impl KeyModel for u64 {
    type Model = u64;

    open spec fn model(&self) -> u64 {
        *self
    }

    fn same_key(&self, other: &Self) -> (r: bool) {
        *self == *other
    }
}

impl KeyModel for u32 {
    type Model = u32;

    open spec fn model(&self) -> u32 {
        *self
    }

    fn same_key(&self, other: &Self) -> (r: bool) {
        *self == *other
    }
}

impl KeyModel for String {
    type Model = Seq<char>;

    open spec fn model(&self) -> Seq<char> {
        self@
    }

    fn same_key(&self, other: &Self) -> (r: bool) {
        *self == *other
    }
}

impl KeyModel for PrincipalId {
    type Model = PrincipalId;

    open spec fn model(&self) -> PrincipalId {
        *self
    }

    fn same_key(&self, other: &Self) -> (r: bool) {
        self.same(other)
    }
}

/// Entries with pairwise distinct keys.
pub struct KeyedList<K, T> {
    pub entries: Vec<(K, T)>,
}

impl<K: KeyModel, T> KeyedList<K, T> {
    /// No key occurs twice.
    pub open spec fn wf(&self) -> bool {
        forall|i: int, j: int|
            0 <= i < j < self.entries@.len() ==> #[trigger] self.entries@[i].0.model()
                != #[trigger] self.entries@[j].0.model()
    }

    /// Some entry has a key with model `m`.
    pub open spec fn has(&self, m: K::Model) -> bool {
        exists|i: int| 0 <= i < self.entries@.len() && #[trigger] self.entries@[i].0.model() == m
    }

    /// The position of the entry with key model `m`, where `has(m)`.
    pub open spec fn pos(&self, m: K::Model) -> int {
        choose|i: int| 0 <= i < self.entries@.len() && #[trigger] self.entries@[i].0.model() == m
    }

    /// The list as a map from key models to values.
    pub open spec fn as_map(&self) -> Map<K::Model, T> {
        Map::new(|m: K::Model| self.has(m), |m: K::Model| self.entries@[self.pos(m)].1)
    }

    /// The position of an existing key is the unique one that holds it.
    pub proof fn lemma_pos(&self, i: int)
        requires
            self.wf(),
            0 <= i < self.entries@.len(),
        ensures
            self.has(self.entries@[i].0.model()),
            self.pos(self.entries@[i].0.model()) == i,
            self.as_map().contains_key(self.entries@[i].0.model()),
            self.as_map()[self.entries@[i].0.model()] == self.entries@[i].1,
    {
        let m = self.entries@[i].0.model();
        assert(self.entries@[i].0.model() == m);
        let j = self.pos(m);
        if j != i {
            if j < i {
                assert(self.entries@[j].0.model() != self.entries@[i].0.model());
            } else {
                assert(self.entries@[i].0.model() != self.entries@[j].0.model());
            }
        }
    }

    /// An empty list.
    pub fn new() -> (r: Self)
        ensures
            r.wf(),
            r.entries@ == Seq::<(K, T)>::empty(),
            r.as_map() == Map::<K::Model, T>::empty(),
    {
        let r = KeyedList { entries: Vec::new() };
        assert(r.as_map() =~= Map::<K::Model, T>::empty());
        r
    }

    /// The number of entries.
    pub fn len(&self) -> (r: usize)
        ensures
            r == self.entries@.len(),
    {
        self.entries.len()
    }

    /// The position of the entry with this key, if any.
    pub fn position(&self, key: &K) -> (r: Option<usize>)
        requires
            self.wf(),
        ensures
            r is None <==> !self.has(key.model()),
            r matches Some(i) ==> i < self.entries@.len() && self.entries@[i as int].0.model()
                == key.model() && self.pos(key.model()) == i,
            r is None ==> !self.as_map().contains_key(key.model()),
    {
        let mut i: usize = 0;
        while i < self.entries.len()
            invariant
                self.wf(),
                i <= self.entries@.len(),
                forall|j: int| 0 <= j < i ==> #[trigger] self.entries@[j].0.model() != key.model(),
            decreases self.entries@.len() - i,
        {
            if self.entries[i].0.same_key(key) {
                proof {
                    self.lemma_pos(i as int);
                }
                return Some(i);
            }
            i = i + 1;
        }
        None
    }

    /// The value stored under this key, if any.
    pub fn get(&self, key: &K) -> (r: Option<&T>)
        requires
            self.wf(),
        ensures
            r is Some <==> self.as_map().contains_key(key.model()),
            r matches Some(v) ==> *v == self.as_map()[key.model()],
    {
        match self.position(key) {
            Some(i) => {
                proof {
                    self.lemma_pos(i as int);
                }
                Some(&self.entries[i].1)
            },
            None => None,
        }
    }

    /// Whether the key is present.
    pub fn contains(&self, key: &K) -> (r: bool)
        requires
            self.wf(),
        ensures
            r == self.as_map().contains_key(key.model()),
    {
        match self.position(key) {
            Some(i) => {
                proof {
                    self.lemma_pos(i as int);
                }
                true
            },
            None => false,
        }
    }

    /// Stores `value` under `key`: an existing key keeps its place, a new one is appended.
    pub fn insert(&mut self, key: K, value: T)
        requires
            old(self).wf(),
        ensures
            final(self).wf(),
            final(self).as_map() == old(self).as_map().insert(key.model(), value),
            old(self).has(key.model()) ==> final(self).entries@ == old(self).entries@.update(
                old(self).pos(key.model()),
                (key, value),
            ),
            !old(self).has(key.model()) ==> final(self).entries@ == old(self).entries@.push(
                (key, value),
            ),
    {
        let ghost m = key.model();
        let ghost old_list = *self;
        match self.position(&key) {
            Some(i) => {
                self.entries.set(i, (key, value));
                assert(self.wf()) by {
                    assert forall|a: int, b: int|
                        0 <= a < b < self.entries@.len() implies #[trigger] self.entries@[a].0.model()
                        != #[trigger] self.entries@[b].0.model() by {
                        if a != i && b != i {
                            assert(old_list.entries@[a].0.model() != old_list.entries@[b].0.model());
                        }
                        if a == i {
                            assert(old_list.entries@[i as int].0.model() != old_list.entries@[b].0.model());
                        }
                        if b == i {
                            assert(old_list.entries@[a].0.model() != old_list.entries@[i as int].0.model());
                        }
                    }
                }
                assert(self.as_map() =~= old_list.as_map().insert(m, value)) by {
                    assert forall|k: K::Model| #[trigger] self.as_map().contains_key(k)
                        == old_list.as_map().insert(m, value).contains_key(k) by {
                        if self.has(k) {
                            let j = self.pos(k);
                            if j != i {
                                old_list.lemma_pos(j);
                            }
                        }
                        if old_list.has(k) {
                            let j = old_list.pos(k);
                            if j != i {
                                self.lemma_pos(j);
                            } else {
                                self.lemma_pos(i as int);
                            }
                        }
                        if k == m {
                            self.lemma_pos(i as int);
                        }
                    }
                    assert forall|k: K::Model| #[trigger] self.as_map().contains_key(k) implies
                        self.as_map()[k] == old_list.as_map().insert(m, value)[k] by {
                        let j = self.pos(k);
                        self.lemma_pos(j);
                        if j != i {
                            old_list.lemma_pos(j);
                        }
                    }
                }
            },
            None => {
                self.entries.push((key, value));
                let ghost n = old_list.entries@.len() as int;
                assert(self.wf()) by {
                    assert forall|a: int, b: int|
                        0 <= a < b < self.entries@.len() implies #[trigger] self.entries@[a].0.model()
                        != #[trigger] self.entries@[b].0.model() by {
                        if b < n {
                            assert(old_list.entries@[a].0.model() != old_list.entries@[b].0.model());
                        } else {
                            assert(old_list.entries@[a].0.model() == self.entries@[a].0.model());
                        }
                    }
                }
                assert(self.as_map() =~= old_list.as_map().insert(m, value)) by {
                    assert forall|k: K::Model| #[trigger] self.as_map().contains_key(k)
                        == old_list.as_map().insert(m, value).contains_key(k) by {
                        if self.has(k) {
                            let j = self.pos(k);
                            if j < n {
                                old_list.lemma_pos(j);
                            }
                        }
                        if old_list.has(k) {
                            let j = old_list.pos(k);
                            self.lemma_pos(j);
                        }
                        if k == m {
                            self.lemma_pos(n);
                        }
                    }
                    assert forall|k: K::Model| #[trigger] self.as_map().contains_key(k) implies
                        self.as_map()[k] == old_list.as_map().insert(m, value)[k] by {
                        let j = self.pos(k);
                        self.lemma_pos(j);
                        if j < n {
                            old_list.lemma_pos(j);
                        }
                    }
                }
            },
        }
    }

    /// Removes the entry with this key, if any, keeping the order of the others.
    pub fn remove(&mut self, key: &K) -> (r: Option<T>)
        requires
            old(self).wf(),
        ensures
            final(self).wf(),
            final(self).as_map() == old(self).as_map().remove(key.model()),
            r is Some <==> old(self).as_map().contains_key(key.model()),
            r matches Some(v) ==> v == old(self).as_map()[key.model()],
            old(self).has(key.model()) ==> final(self).entries@ == old(self).entries@.remove(
                old(self).pos(key.model()),
            ),
            !old(self).has(key.model()) ==> final(self).entries@ == old(self).entries@,
    {
        let ghost m = key.model();
        let ghost old_list = *self;
        match self.position(key) {
            Some(i) => {
                proof {
                    old_list.lemma_pos(i as int);
                }
                let (_, v) = self.entries.remove(i);
                assert(self.wf()) by {
                    assert forall|a: int, b: int|
                        0 <= a < b < self.entries@.len() implies #[trigger] self.entries@[a].0.model()
                        != #[trigger] self.entries@[b].0.model() by {
                        let a2 = if a < i { a } else { a + 1 };
                        let b2 = if b < i { b } else { b + 1 };
                        assert(old_list.entries@[a2].0.model() != old_list.entries@[b2].0.model());
                    }
                }
                assert(self.as_map() =~= old_list.as_map().remove(m)) by {
                    assert forall|k: K::Model| #[trigger] self.as_map().contains_key(k)
                        == old_list.as_map().remove(m).contains_key(k) by {
                        if self.has(k) {
                            let j = self.pos(k);
                            let j2 = if j < i { j } else { j + 1 };
                            assert(self.entries@[j] == old_list.entries@[j2]);
                            old_list.lemma_pos(j2);
                        }
                        if old_list.has(k) && k != m {
                            let j = old_list.pos(k);
                            old_list.lemma_pos(j);
                            let j2 = if j < i { j } else { j - 1 };
                            assert(self.entries@[j2] == old_list.entries@[j]);
                            self.lemma_pos(j2);
                        }
                    }
                    assert forall|k: K::Model| #[trigger] self.as_map().contains_key(k) implies
                        self.as_map()[k] == old_list.as_map().remove(m)[k] by {
                        let j = self.pos(k);
                        self.lemma_pos(j);
                        let j2 = if j < i { j } else { j + 1 };
                        assert(self.entries@[j] == old_list.entries@[j2]);
                        old_list.lemma_pos(j2);
                    }
                }
                Some(v)
            },
            None => {
                assert(self.as_map() =~= old_list.as_map().remove(m));
                None
            },
        }
    }
}

} // verus!
