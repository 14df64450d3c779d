//! Stable-memory collections of `ic_stable_structures` that the canisters keep.
//!
//! Each store hides one `StableBTreeMap` (or `StableCell`) in a private field; its
//! contents are named by an uninterpreted spec function, and every method that the
//! verified code calls is a small trusted wrapper whose contract speaks over that name.
//! All keys are integers or tuples of integers, ordered as std orders tuples.
use vstd::prelude::*;
use ic_stable_structures::memory_manager::{MemoryId, MemoryManager, VirtualMemory};
use ic_stable_structures::{DefaultMemoryImpl, StableBTreeMap, StableCell};

verus! {

/// Hands out the separate virtual memories of one canister.
#[verifier::external_body]
pub struct MemoryRegistry {
    manager: MemoryManager<DefaultMemoryImpl>,
}

impl MemoryRegistry {
    /// Calls `MemoryManager::init` over the default memory: it takes up the layout that
    /// the memory holds, if any. Nothing is claimed of it.
    #[verifier::external_body]
    pub(crate) fn new() -> (r: Self) {
        MemoryRegistry { manager: MemoryManager::init(DefaultMemoryImpl::default()) }
    }

    /// `StableCell::<Vec<u8>>::init` on the virtual memory `id`, then `set(bytes)`: the
    /// bytes are written there. Nothing of the verified state changes; like any
    /// allocation, it traps when the memory cannot grow.
    #[verifier::external_body]
    pub(crate) fn save_blob(&self, id: u8, bytes: Vec<u8>)
        requires
            id != 255,
    {
        let mut cell = StableCell::init(self.manager.get(MemoryId::new(id)), Vec::new()).expect(
            "stable memory exhausted",
        );
        cell.set(bytes).expect("stable memory exhausted");
    }

    /// `StableCell::<Vec<u8>>::init` on the virtual memory `id`, then `get`: the bytes
    /// written there last, or none. What they are depends on the memory, so nothing is
    /// claimed of them.
    #[verifier::external_body]
    pub(crate) fn load_blob(&self, id: u8) -> (r: Vec<u8>)
        requires
            id != 255,
    {
        let cell = StableCell::init(self.manager.get(MemoryId::new(id)), Vec::new()).expect(
            "stable memory exhausted",
        );
        cell.get().clone()
    }
}

/// Chunks of uploaded images, keyed by (post id, image index, chunk index).
#[verifier::external_body]
pub struct ImageChunkStore {
    map: StableBTreeMap<(u64, u32, u32), Vec<u8>, VirtualMemory<DefaultMemoryImpl>>,
}

/// What an `ImageChunkStore` holds.
pub uninterp spec fn image_chunks(s: ImageChunkStore) -> Map<(u64, u32, u32), Seq<u8>>;

impl ImageChunkStore {
    /// `StableBTreeMap::new` on the virtual memory `id` of the registry: it starts a new,
    /// empty map there (`MemoryId::new` panics on the reserved id 255).
    #[verifier::external_body]
    pub(crate) fn new(registry: &MemoryRegistry, id: u8) -> (r: Self)
        requires
            id != 255,
        ensures
            image_chunks(r).dom().is_empty(),
    {
        ImageChunkStore { map: StableBTreeMap::new(registry.manager.get(MemoryId::new(id))) }
    }

    /// `StableBTreeMap::init` on the virtual memory `id` of the registry: it takes up
    /// the map that the memory holds, if any, so nothing is claimed of its contents.
    #[verifier::external_body]
    pub(crate) fn open(registry: &MemoryRegistry, id: u8) -> (r: Self)
        requires
            id != 255,
    {
        ImageChunkStore { map: StableBTreeMap::init(registry.manager.get(MemoryId::new(id))) }
    }

    /// `StableBTreeMap::insert`: the key now maps to `data`, all other keys are kept.
    /// Like any allocation, it traps when the stable memory cannot grow.
    #[verifier::external_body]
    pub(crate) fn insert(&mut self, key: (u64, u32, u32), data: Vec<u8>)
        ensures
            image_chunks(*final(self)) == image_chunks(*old(self)).insert(key, data@),
    {
        self.map.insert(key, data);
    }

    /// `StableBTreeMap::get`: the bytes stored under the key, if any.
    #[verifier::external_body]
    pub(crate) fn get(&self, key: (u64, u32, u32)) -> (r: Option<Vec<u8>>)
        ensures
            r is Some <==> image_chunks(*self).contains_key(key),
            r matches Some(v) ==> v@ == image_chunks(*self)[key],
    {
        self.map.get(&key)
    }

    /// `StableBTreeMap::remove`: the key is gone, all other keys are kept.
    #[verifier::external_body]
    pub(crate) fn remove(&mut self, key: (u64, u32, u32))
        ensures
            image_chunks(*final(self)) == image_chunks(*old(self)).remove(key),
    {
        self.map.remove(&key);
    }
}

/// Chunks of uploaded stickers, keyed by (sticker id, chunk index).
#[verifier::external_body]
pub struct StickerChunkStore {
    map: StableBTreeMap<(u32, u32), Vec<u8>, VirtualMemory<DefaultMemoryImpl>>,
}

/// What a `StickerChunkStore` holds.
pub uninterp spec fn sticker_chunks(s: StickerChunkStore) -> Map<(u32, u32), Seq<u8>>;

impl StickerChunkStore {
    /// `StableBTreeMap::new` on the virtual memory `id` of the registry: a new, empty map.
    #[verifier::external_body]
    pub(crate) fn new(registry: &MemoryRegistry, id: u8) -> (r: Self)
        requires
            id != 255,
        ensures
            sticker_chunks(r).dom().is_empty(),
    {
        StickerChunkStore { map: StableBTreeMap::new(registry.manager.get(MemoryId::new(id))) }
    }

    /// `StableBTreeMap::init` on the virtual memory `id` of the registry: it takes up
    /// the map that the memory holds, if any, so nothing is claimed of its contents.
    #[verifier::external_body]
    pub(crate) fn open(registry: &MemoryRegistry, id: u8) -> (r: Self)
        requires
            id != 255,
    {
        StickerChunkStore { map: StableBTreeMap::init(registry.manager.get(MemoryId::new(id))) }
    }

    /// `StableBTreeMap::insert`: the key now maps to `data`, all other keys are kept.
    /// Like any allocation, it traps when the stable memory cannot grow.
    #[verifier::external_body]
    pub(crate) fn insert(&mut self, key: (u32, u32), data: Vec<u8>)
        ensures
            sticker_chunks(*final(self)) == sticker_chunks(*old(self)).insert(key, data@),
    {
        self.map.insert(key, data);
    }

    /// `StableBTreeMap::get`: the bytes stored under the key, if any.
    #[verifier::external_body]
    pub(crate) fn get(&self, key: (u32, u32)) -> (r: Option<Vec<u8>>)
        ensures
            r is Some <==> sticker_chunks(*self).contains_key(key),
            r matches Some(v) ==> v@ == sticker_chunks(*self)[key],
    {
        self.map.get(&key)
    }

    /// `StableBTreeMap::remove`: the key is gone, all other keys are kept.
    #[verifier::external_body]
    pub(crate) fn remove(&mut self, key: (u32, u32))
        ensures
            sticker_chunks(*final(self)) == sticker_chunks(*old(self)).remove(key),
    {
        self.map.remove(&key);
    }
}

/// A set of pairs kept as the keys of a `StableBTreeMap<(u64, u64), ()>`; it indexes
/// children (second component) by parent (first component).
#[verifier::external_body]
pub struct PairIndex {
    map: StableBTreeMap<(u64, u64), (), VirtualMemory<DefaultMemoryImpl>>,
}

/// The pairs that a `PairIndex` holds.
pub uninterp spec fn index_pairs(s: PairIndex) -> Set<(u64, u64)>;

/// `s` is strictly increasing.
pub open spec fn strictly_increasing(s: Seq<u64>) -> bool {
    forall|i: int, j: int| 0 <= i < j < s.len() ==> s[i] < s[j]
}

impl PairIndex {
    /// `StableBTreeMap::new` on the virtual memory `id` of the registry: a new, empty set.
    #[verifier::external_body]
    pub(crate) fn new(registry: &MemoryRegistry, id: u8) -> (r: Self)
        requires
            id != 255,
        ensures
            index_pairs(r) == Set::<(u64, u64)>::empty(),
    {
        PairIndex { map: StableBTreeMap::new(registry.manager.get(MemoryId::new(id))) }
    }

    /// `StableBTreeMap::init` on the virtual memory `id` of the registry: it takes up
    /// the set that the memory holds, if any, so nothing is claimed of its contents.
    #[verifier::external_body]
    pub(crate) fn open(registry: &MemoryRegistry, id: u8) -> (r: Self)
        requires
            id != 255,
    {
        PairIndex { map: StableBTreeMap::init(registry.manager.get(MemoryId::new(id))) }
    }

    /// `StableBTreeMap::insert` of the pair with the unit value.
    /// Like any allocation, it traps when the stable memory cannot grow.
    #[verifier::external_body]
    pub(crate) fn insert(&mut self, first: u64, second: u64)
        ensures
            index_pairs(*final(self)) == index_pairs(*old(self)).insert((first, second)),
    {
        self.map.insert((first, second), ());
    }

    /// `StableBTreeMap::remove` of the pair.
    #[verifier::external_body]
    pub(crate) fn remove(&mut self, first: u64, second: u64)
        ensures
            index_pairs(*final(self)) == index_pairs(*old(self)).remove((first, second)),
    {
        self.map.remove(&(first, second));
    }

    /// `StableBTreeMap::iter`, keeping the keys: every pair held, each once.
    #[verifier::external_body]
    pub(crate) fn all(&self) -> (r: Vec<(u64, u64)>)
        ensures
            forall|p: (u64, u64)| r@.contains(p) <==> index_pairs(*self).contains(p),
    {
        self.map.iter().map(|(k, _)| k).collect()
    }

    /// `StableBTreeMap::range` over `(first, 0)..=(first, u64::MAX)`, keeping the second
    /// component of each key: the map walks its keys in ascending order, so the result
    /// lists, in increasing order, exactly the seconds paired with `first`.
    #[verifier::external_body]
    pub(crate) fn seconds_of(&self, first: u64) -> (r: Vec<u64>)
        ensures
            strictly_increasing(r@),
            forall|x: u64| r@.contains(x) <==> index_pairs(*self).contains((first, x)),
    {
        self.map.range((first, 0)..=(first, u64::MAX)).map(|(k, _)| k.1).collect()
    }
}

/// A counter kept in a `StableCell<u64>`.
#[verifier::external_body]
pub struct IdCounter {
    cell: StableCell<u64, VirtualMemory<DefaultMemoryImpl>>,
}

/// The value that an `IdCounter` holds.
pub uninterp spec fn counter_value(c: IdCounter) -> u64;

impl IdCounter {
    /// `StableCell::new` on the virtual memory `id` of the registry, holding `initial`.
    /// It traps, as an allocation failure does, when the memory cannot grow.
    #[verifier::external_body]
    pub(crate) fn new(registry: &MemoryRegistry, id: u8, initial: u64) -> (r: Self)
        requires
            id != 255,
        ensures
            counter_value(r) == initial,
    {
        IdCounter {
            cell: StableCell::new(registry.manager.get(MemoryId::new(id)), initial).expect(
                "stable memory exhausted",
            ),
        }
    }

    /// `StableCell::init` on the virtual memory `id` of the registry: it takes up the
    /// value that the memory holds, or `initial` where it holds none, so nothing is
    /// claimed of the value. It traps when the memory cannot grow.
    #[verifier::external_body]
    pub(crate) fn open(registry: &MemoryRegistry, id: u8, initial: u64) -> (r: Self)
        requires
            id != 255,
    {
        IdCounter {
            cell: StableCell::init(registry.manager.get(MemoryId::new(id)), initial).expect(
                "stable memory exhausted",
            ),
        }
    }

    /// `StableCell::get`: the value held.
    #[verifier::external_body]
    pub(crate) fn get(&self) -> (r: u64)
        ensures
            r == counter_value(*self),
    {
        *self.cell.get()
    }

    /// `StableCell::set`: the cell now holds `v`. It traps, as an allocation failure
    /// does, when the memory cannot grow.
    #[verifier::external_body]
    pub(crate) fn set(&mut self, v: u64)
        ensures
            counter_value(*final(self)) == v,
    {
        self.cell.set(v).expect("stable memory exhausted");
    }
}

/// The seconds paired with `first`, in increasing order.
pub open spec fn seconds_listing(pairs: Set<(u64, u64)>, first: u64) -> Seq<u64> {
    choose|s: Seq<u64>|
        strictly_increasing(s) && forall|x: u64| s.contains(x) <==> pairs.contains((first, x))
}

/// Two increasing sequences with the same elements are the same sequence.
pub proof fn lemma_increasing_unique(s1: Seq<u64>, s2: Seq<u64>)
    requires
        strictly_increasing(s1),
        strictly_increasing(s2),
        forall|x: u64| s1.contains(x) <==> s2.contains(x),
    ensures
        s1 == s2,
    decreases s1.len(),
{
    if s1.len() == 0 {
        if s2.len() > 0 {
            assert(s2.contains(s2[0]));
        }
        assert(s1 =~= s2);
    } else {
        if s2.len() == 0 {
            assert(s1.contains(s1[0]));
        }
        assert(s1.contains(s1[0]));
        assert(s2.contains(s2[0]));
        let j = choose|j: int| 0 <= j < s2.len() && s2[j] == s1[0];
        let k = choose|k: int| 0 <= k < s1.len() && s1[k] == s2[0];
        if j > 0 {
            assert(s2[0] < s2[j]);
            if k > 0 {
                assert(s1[0] < s1[k]);
            }
        }
        assert(s1[0] == s2[0]);
        let t1 = s1.drop_first();
        let t2 = s2.drop_first();
        assert forall|x: u64| t1.contains(x) <==> t2.contains(x) by {
            if t1.contains(x) {
                let a = choose|a: int| 0 <= a < t1.len() && t1[a] == x;
                assert(s1[a + 1] == x);
                assert(s1.contains(x));
                assert(s2.contains(x));
                let b = choose|b: int| 0 <= b < s2.len() && s2[b] == x;
                if b == 0 {
                    assert(s1[0] < s1[a + 1]);
                }
                assert(t2[b - 1] == x);
            }
            if t2.contains(x) {
                let a = choose|a: int| 0 <= a < t2.len() && t2[a] == x;
                assert(s2[a + 1] == x);
                assert(s2.contains(x));
                assert(s1.contains(x));
                let b = choose|b: int| 0 <= b < s1.len() && s1[b] == x;
                if b == 0 {
                    assert(s2[0] < s2[a + 1]);
                }
                assert(t1[b - 1] == x);
            }
        }
        lemma_increasing_unique(t1, t2);
        assert(s1 =~= seq![s1[0]] + t1);
        assert(s2 =~= seq![s2[0]] + t2);
    }
}

impl PairIndex {
    /// The seconds paired with `first`, in increasing order.
    pub fn listing(&self, first: u64) -> (r: Vec<u64>)
        ensures
            r@ == seconds_listing(index_pairs(*self), first),
            strictly_increasing(r@),
            forall|x: u64| r@.contains(x) <==> index_pairs(*self).contains((first, x)),
    {
        let r = self.seconds_of(first);
        proof {
            let s = seconds_listing(index_pairs(*self), first);
            assert(strictly_increasing(s) && forall|x: u64|
                s.contains(x) <==> index_pairs(*self).contains((first, x)));
            lemma_increasing_unique(r@, s);
        }
        r
    }
}

} // verus!
