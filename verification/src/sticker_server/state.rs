//! The state of the sticker server, its invariant, its administrators and its id
//! counters.
use vstd::prelude::*;
use crate::keyed::KeyedList;
use crate::principal::PrincipalId;
use crate::stable::{
    counter_value, index_pairs, seconds_listing, sticker_chunks, IdCounter, MemoryRegistry,
    PairIndex, StickerChunkStore,
};
use super::types::{Error, Sticker, StickerPack, StorageType};

verus! {

/// Everything the sticker server stores.
pub struct StickerState {
    pub packs: KeyedList<u32, StickerPack>,
    pub stickers: KeyedList<u32, Sticker>,
    pub chunks: StickerChunkStore,
    pub pack_stickers: PairIndex,
    pub next_pack: IdCounter,
    pub next_sticker: IdCounter,
    pub admins: KeyedList<PrincipalId, ()>,
    pub registry: MemoryRegistry,
}

/// The virtual memory that holds the saved records across an upgrade.
pub const SNAPSHOT_MEMORY: u8 = 20;

/// The chunk keys of a sticker with `count` chunks.
pub open spec fn chunk_keys(sticker_id: u32, count: u32) -> Set<(u32, u32)> {
    Set::new(|k: (u32, u32)| k.0 == sticker_id && k.1 < count)
}

/// The bytes of chunks `0..n` of a sticker, in order, skipping missing chunks.
pub open spec fn assembled(chunks: Map<(u32, u32), Seq<u8>>, sticker_id: u32, n: nat) -> Seq<u8>
    decreases n,
{
    if n == 0 {
        Seq::empty()
    } else {
        assembled(chunks, sticker_id, (n - 1) as nat) + if chunks.contains_key(
            (sticker_id, (n - 1) as u32),
        ) {
            chunks[(sticker_id, (n - 1) as u32)]
        } else {
            Seq::empty()
        }
    }
}

impl StickerState {
    /// The invariant of the stored data.
    pub open spec fn wf(&self) -> bool {
        &&& self.packs.wf()
        &&& self.stickers.wf()
        &&& self.admins.wf()
        &&& forall|i: int, j: int|
            0 <= i < j < self.packs.entries@.len() ==> #[trigger] self.packs.entries@[i].0
                < #[trigger] self.packs.entries@[j].0
        &&& forall|i: int|
            0 <= i < self.packs.entries@.len() ==> #[trigger] self.packs.entries@[i].0
                < counter_value(self.next_pack) && self.packs.entries@[i].0
                == self.packs.entries@[i].1.id
        &&& forall|i: int|
            0 <= i < self.stickers.entries@.len() ==> #[trigger] self.stickers.entries@[i].0
                == self.stickers.entries@[i].1.id && self.stickers.entries@[i].0 < counter_value(
                self.next_sticker,
            )
        &&& forall|p: (u64, u64)| #[trigger]
            index_pairs(self.pack_stickers).contains(p) ==> p.0 <= u32::MAX && p.1 <= u32::MAX
    }

    /// `caller` is an administrator.
    pub open spec fn admin(&self, caller: PrincipalId) -> bool {
        self.admins.as_map().contains_key(caller)
    }

    /// The stored chunks.
    pub open spec fn chunk_map(&self) -> Map<(u32, u32), Seq<u8>> {
        sticker_chunks(self.chunks)
    }

    /// The (pack, sticker) memberships.
    pub open spec fn pairs(&self) -> Set<(u64, u64)> {
        index_pairs(self.pack_stickers)
    }

    /// The stickers of a pack, by increasing id.
    pub open spec fn members(&self, pack_id: u32) -> Seq<u64> {
        seconds_listing(self.pairs(), pack_id as u64)
    }

    /// A fresh server: no packs, no stickers, no administrators, both counters at 1.
    pub fn new() -> (r: StickerState)
        ensures
            r.wf(),
            r.packs.as_map().dom().is_empty(),
            r.stickers.as_map().dom().is_empty(),
            r.admins.as_map().dom().is_empty(),
            r.chunk_map().dom().is_empty(),
            r.pairs().is_empty(),
            counter_value(r.next_pack) == 1,
            counter_value(r.next_sticker) == 1,
    {
        let registry = MemoryRegistry::new();
        let chunks = StickerChunkStore::new(&registry, 2);
        let pack_stickers = PairIndex::new(&registry, 3);
        let next_pack = IdCounter::new(&registry, 4, 1);
        let next_sticker = IdCounter::new(&registry, 5, 1);
        StickerState {
            packs: KeyedList::new(),
            stickers: KeyedList::new(),
            chunks,
            pack_stickers,
            next_pack,
            next_sticker,
            admins: KeyedList::new(),
            registry,
        }
    }

    /// The server over the stable memory as an earlier run of the canister left it:
    /// chunks, pack memberships and counters are taken up from there; the records start
    /// empty, to be restored from `load_snapshot`. `None` when the memberships held
    /// there name ids beyond `u32`, which this server never writes.
    pub fn open() -> (r: Option<StickerState>)
        ensures
            r matches Some(s) ==> s.wf() && s.packs.as_map().dom().is_empty()
                && s.stickers.as_map().dom().is_empty() && s.admins.as_map().dom().is_empty(),
    {
        let registry = MemoryRegistry::new();
        let chunks = StickerChunkStore::open(&registry, 2);
        let pack_stickers = PairIndex::open(&registry, 3);
        let next_pack = IdCounter::open(&registry, 4, 1);
        let next_sticker = IdCounter::open(&registry, 5, 1);
        StickerState::with_stores(registry, chunks, pack_stickers, next_pack, next_sticker)
    }

    /// The server over stores taken up from stable memory, with no records yet: `Some`
    /// exactly when every pack membership held names ids that fit `u32`, as all that
    /// this server writes do.
    pub fn with_stores(
        registry: MemoryRegistry,
        chunks: StickerChunkStore,
        pack_stickers: PairIndex,
        next_pack: IdCounter,
        next_sticker: IdCounter,
    ) -> (r: Option<StickerState>)
        ensures
            r is Some <==> forall|p: (u64, u64)| #[trigger] index_pairs(pack_stickers).contains(p)
                ==> p.0 <= u32::MAX && p.1 <= u32::MAX,
            r matches Some(s) ==> s.wf() && s.packs.as_map().dom().is_empty()
                && s.stickers.as_map().dom().is_empty() && s.admins.as_map().dom().is_empty()
                && s.chunks == chunks && s.pack_stickers == pack_stickers && s.next_pack == next_pack
                && s.next_sticker == next_sticker && s.registry == registry,
    {
        let pairs = pack_stickers.all();
        let mut i: usize = 0;
        while i < pairs.len()
            invariant
                i <= pairs@.len(),
                forall|p: (u64, u64)| pairs@.contains(p) <==> index_pairs(pack_stickers).contains(p),
                forall|j: int| 0 <= j < i ==> (#[trigger] pairs@[j]).0 <= u32::MAX && pairs@[j].1 <= u32::MAX,
            decreases pairs@.len() - i,
        {
            if pairs[i].0 > u32::MAX as u64 || pairs[i].1 > u32::MAX as u64 {
                proof {
                    assert(pairs@.contains(pairs@[i as int]));
                    assert(index_pairs(pack_stickers).contains(pairs@[i as int]));
                }
                return None;
            }
            i = i + 1;
        }
        proof {
            assert forall|p: (u64, u64)| #[trigger] index_pairs(pack_stickers).contains(p) implies p.0 <= u32::MAX && p.1 <= u32::MAX by {
                assert(pairs@.contains(p));
                let j = choose|j: int| 0 <= j < pairs@.len() && pairs@[j] == p;
                assert(pairs@[j].0 <= u32::MAX);
            }
        }
        let s = StickerState {
            packs: KeyedList::new(),
            stickers: KeyedList::new(),
            chunks,
            pack_stickers,
            next_pack,
            next_sticker,
            admins: KeyedList::new(),
            registry,
        };
        Some(s)
    }

    /// Writes the encoded records to stable memory, to outlive an upgrade.
    pub fn save_snapshot(&self, bytes: Vec<u8>) {
        self.registry.save_blob(SNAPSHOT_MEMORY, bytes);
    }

    /// The encoded records that the last `save_snapshot` wrote, or none.
    pub fn load_snapshot(&self) -> Vec<u8> {
        self.registry.load_blob(SNAPSHOT_MEMORY)
    }

    /// Makes `caller` an administrator.
    pub fn init_admin(&mut self, caller: PrincipalId)
        requires
            old(self).wf(),
        ensures
            final(self).wf(),
            final(self).admins.as_map() == old(self).admins.as_map().insert(caller, ()),
            final(self).packs == old(self).packs,
            final(self).stickers == old(self).stickers,
            final(self).chunks == old(self).chunks,
            final(self).pack_stickers == old(self).pack_stickers,
            final(self).next_pack == old(self).next_pack,
            final(self).next_sticker == old(self).next_sticker,
    {
        self.admins.insert(caller, ());
    }

    /// Whether `caller` is an administrator.
    pub fn is_admin(&self, caller: PrincipalId) -> (r: bool)
        requires
            self.wf(),
        ensures
            r == self.admin(caller),
    {
        self.admins.contains(&caller)
    }

    /// `Ok` exactly for an administrator.
    pub fn require_admin(&self, caller: PrincipalId) -> (r: Result<(), Error>)
        requires
            self.wf(),
        ensures
            r == (if self.admin(caller) {
                Ok(())
            } else {
                Err(Error::NotAdmin)
            }),
    {
        if !self.is_admin(caller) {
            return Err(Error::NotAdmin);
        }
        Ok(())
    }

    /// Hands out the next pack id.
    pub fn next_pack_id(&mut self) -> (r: u64)
        requires
            old(self).wf(),
            counter_value(old(self).next_pack) < u64::MAX,
        ensures
            final(self).wf(),
            r == counter_value(old(self).next_pack),
            counter_value(final(self).next_pack) == r + 1,
            final(self).packs == old(self).packs,
            final(self).stickers == old(self).stickers,
            final(self).chunks == old(self).chunks,
            final(self).pack_stickers == old(self).pack_stickers,
            final(self).next_sticker == old(self).next_sticker,
            final(self).admins == old(self).admins,
    {
        let id = self.next_pack.get();
        self.next_pack.set(id + 1);
        id
    }

    /// Hands out the next sticker id.
    pub fn next_sticker_id(&mut self) -> (r: u64)
        requires
            old(self).wf(),
            counter_value(old(self).next_sticker) < u64::MAX,
        ensures
            final(self).wf(),
            r == counter_value(old(self).next_sticker),
            counter_value(final(self).next_sticker) == r + 1,
            final(self).packs == old(self).packs,
            final(self).stickers == old(self).stickers,
            final(self).chunks == old(self).chunks,
            final(self).pack_stickers == old(self).pack_stickers,
            final(self).next_pack == old(self).next_pack,
            final(self).admins == old(self).admins,
    {
        let id = self.next_sticker.get();
        self.next_sticker.set(id + 1);
        id
    }

    /// The stickers of a pack, by increasing id.
    pub fn pack_members(&self, pack_id: u32) -> (r: Vec<u32>)
        requires
            self.wf(),
        ensures
            crate::stable::strictly_increasing(self.members(pack_id)),
            forall|x: u64| self.members(pack_id).contains(x) <==> self.pairs().contains((pack_id as u64, x)),
            r@.len() == self.members(pack_id).len(),
            forall|i: int| 0 <= i < r@.len() ==> r@[i] as u64 == #[trigger] self.members(pack_id)[i],
    {
        let ids = self.pack_stickers.listing(pack_id as u64);
        let mut out: Vec<u32> = Vec::new();
        let mut i: usize = 0;
        while i < ids.len()
            invariant
                self.wf(),
                ids@ == self.members(pack_id),
                forall|x: u64| ids@.contains(x) <==> self.pairs().contains((pack_id as u64, x)),
                i <= ids@.len(),
                out@.len() == i,
                forall|j: int| 0 <= j < i ==> out@[j] as u64 == #[trigger] ids@[j],
            decreases ids@.len() - i,
        {
            let x = ids[i];
            assert(ids@.contains(x));
            assert(self.pairs().contains((pack_id as u64, x)));
            out.push(x as u32);
            i = i + 1;
        }
        out
    }

    /// The next pack id that will be handed out.
    pub fn pack_counter(&self) -> (r: u64)
        ensures
            r == counter_value(self.next_pack),
    {
        self.next_pack.get()
    }

    /// The next sticker id that will be handed out.
    pub fn sticker_counter(&self) -> (r: u64)
        ensures
            r == counter_value(self.next_sticker),
    {
        self.next_sticker.get()
    }
}

} // verus!
