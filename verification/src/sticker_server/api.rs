//! The requests of the sticker server: administrators, packs and stickers.
use vstd::prelude::*;
use crate::principal::PrincipalId;
use crate::stable::counter_value;
use super::state::{chunk_keys, StickerState};
use super::types::{
    allowed_content_type, texts, Error, PackModel, PackSummary, PacksPage, Sticker, StickerInfo,
    StickerModel, StickerPack, StickersPage, StorageModel, StorageType, UploadModel,
    UploadStatus, MAX_CHUNK_SIZE,
};
use super::upload::validate_content_type;
use super::types::copy_strings;
use super::laws::law_present_keeps_stored;

verus! {

/// `ps` shows pack `p` with `count` stickers.
pub open spec fn summarizes(ps: PackSummary, p: StickerPack, count: nat) -> bool {
    &&& ps.id == p.id
    &&& ps.name@ == p.name@
    &&& ps.description@ == p.description@
    &&& ps.cover_sticker_id == p.cover_sticker_id
    &&& ps.creator == p.creator
    &&& ps.created_at == p.created_at
    &&& ps.updated_at == p.updated_at
    &&& ps.sticker_count == count as u32
}

/// `info` shows sticker `s`.
pub open spec fn describes(info: StickerInfo, s: StickerModel) -> bool {
    &&& info.id == s.id
    &&& info.pack_id == s.pack_id
    &&& info.name@ == s.name
    &&& info.storage_type@ == s.storage_type
    &&& info.created_at == s.created_at
    &&& info.updated_at == s.updated_at
}

/// The ids of `ids` that name stored stickers, in order.
pub open spec fn present(stickers: Map<u32, Sticker>, ids: Seq<u64>) -> Seq<u64>
    decreases ids.len(),
{
    if ids.len() == 0 {
        Seq::empty()
    } else {
        present(stickers, ids.drop_last()) + if stickers.contains_key(ids.last() as u32) {
            seq![ids.last()]
        } else {
            Seq::empty()
        }
    }
}

/// The window `[offset, offset + limit)` of `s`, as `skip(offset).take(limit)` gives it.
pub open spec fn window<T>(s: Seq<T>, offset: nat, limit: nat) -> Seq<T> {
    let lo = if offset < s.len() { offset } else { s.len() };
    let hi = if lo + limit < s.len() { lo + limit } else { s.len() };
    s.subrange(lo as int, hi as int)
}

/// The chunk keys of the stickers of `pack_id` that the server deletes with the pack.
pub open spec fn pack_chunk_keys(s: &StickerState, ids: Seq<u64>) -> Set<(u32, u32)> {
    Set::new(
        |k: (u32, u32)|
            ids.contains(k.0 as u64) && s.stickers.as_map().contains_key(k.0) && match s.stickers.as_map()[k.0]@.storage_type {
                StorageModel::Binary { chunk_count, .. } => k.1 < chunk_count,
                StorageModel::External { .. } => false,
            },
    )
}

/// The chunk keys that deleting sticker `sticker_id` removes.
pub open spec fn sticker_chunk_keys(s: &StickerState, sticker_id: u32) -> Set<(u32, u32)> {
    if s.stickers.as_map().contains_key(sticker_id) {
        match s.stickers.as_map()[sticker_id]@.storage_type {
            StorageModel::Binary { chunk_count, .. } => chunk_keys(sticker_id, chunk_count),
            StorageModel::External { .. } => Set::empty(),
        }
    } else {
        Set::empty()
    }
}

impl StickerState {
    /// Lets an administrator make `principal` an administrator.
    pub fn add_admin(&mut self, caller: PrincipalId, principal: PrincipalId) -> (r: Result<(), Error>)
        requires
            old(self).wf(),
        ensures
            final(self).wf(),
            r == (if old(self).admin(caller) { Ok(()) } else { Err(Error::NotAdmin) }),
            r is Err ==> *final(self) == *old(self),
            r is Ok ==> final(self).admins.as_map() == old(self).admins.as_map().insert(principal, ())
                && final(self).packs == old(self).packs && final(self).stickers == old(self).stickers
                && final(self).chunks == old(self).chunks && final(self).pack_stickers
                == old(self).pack_stickers && final(self).next_pack == old(self).next_pack
                && final(self).next_sticker == old(self).next_sticker,
    {
        self.require_admin(caller)?;
        self.admins.insert(principal, ());
        Ok(())
    }

    /// Lets an administrator take the rights of `principal` away.
    pub fn remove_admin(&mut self, caller: PrincipalId, principal: PrincipalId) -> (r: Result<(), Error>)
        requires
            old(self).wf(),
        ensures
            final(self).wf(),
            r == (if old(self).admin(caller) { Ok(()) } else { Err(Error::NotAdmin) }),
            r is Err ==> *final(self) == *old(self),
            r is Ok ==> final(self).admins.as_map() == old(self).admins.as_map().remove(principal)
                && final(self).packs == old(self).packs && final(self).stickers == old(self).stickers
                && final(self).chunks == old(self).chunks && final(self).pack_stickers
                == old(self).pack_stickers && final(self).next_pack == old(self).next_pack
                && final(self).next_sticker == old(self).next_sticker,
    {
        self.require_admin(caller)?;
        let _ = self.admins.remove(&principal);
        Ok(())
    }

    /// Lets an administrator create an empty pack; its id is the next pack id.
    pub fn create_pack(&mut self, caller: PrincipalId, now: u64, name: String, description: String) -> (r: Result<u32, Error>)
        requires
            old(self).wf(),
            counter_value(old(self).next_pack) <= u32::MAX,
        ensures
            final(self).wf(),
            !old(self).admin(caller) ==> r == Err::<u32, Error>(Error::NotAdmin) && *final(self) == *old(self),
            old(self).admin(caller) ==> {
                let id = counter_value(old(self).next_pack) as u32;
                &&& r == Ok::<u32, Error>(id)
                &&& !old(self).packs.as_map().contains_key(id)
                &&& counter_value(final(self).next_pack) == counter_value(old(self).next_pack) + 1
                &&& final(self).packs.as_map() == old(self).packs.as_map().insert(
                    id,
                    StickerPack {
                        id,
                        name,
                        description,
                        cover_sticker_id: None,
                        creator: caller,
                        created_at: now,
                        updated_at: now,
                    },
                )
                &&& final(self).stickers == old(self).stickers
                &&& final(self).chunks == old(self).chunks
                &&& final(self).pack_stickers == old(self).pack_stickers
                &&& final(self).next_sticker == old(self).next_sticker
                &&& final(self).admins == old(self).admins
            },
    {
        self.require_admin(caller)?;
        let ghost before = self.packs;
        let id64 = self.next_pack_id();
        let id = id64 as u32;
        let pack = StickerPack {
            id,
            name,
            description,
            cover_sticker_id: None,
            creator: caller,
            created_at: now,
            updated_at: now,
        };
        proof {
            if before.has(id) {
                let j = before.pos(id);
                assert(before.entries@[j].0 < id64);
            }
        }
        self.packs.insert(id, pack);
        proof {
            assert(self.packs.entries@ == before.entries@.push((id, pack)));
            assert forall|a: int, b: int|
                0 <= a < b < self.packs.entries@.len() implies #[trigger] self.packs.entries@[a].0
                < #[trigger] self.packs.entries@[b].0 by {
                if b < before.entries@.len() {
                    assert(before.entries@[a].0 < before.entries@[b].0);
                } else {
                    assert(before.entries@[a].0 < id64);
                }
            }
            assert forall|a: int| 0 <= a < self.packs.entries@.len() implies #[trigger] self.packs.entries@[a].0
                < counter_value(self.next_pack) && self.packs.entries@[a].0
                == self.packs.entries@[a].1.id by {
                if a < before.entries@.len() {
                    assert(before.entries@[a].0 < id64);
                    assert(before.entries@[a].0 == before.entries@[a].1.id);
                }
            }
        }
        Ok(id)
    }

    /// Lets an administrator change the name, description or cover of a pack.
    pub fn update_pack(
        &mut self,
        caller: PrincipalId,
        now: u64,
        pack_id: u32,
        name: Option<String>,
        description: Option<String>,
        cover_sticker_id: Option<u64>,
    ) -> (r: Result<(), Error>)
        requires
            old(self).wf(),
        ensures
            final(self).wf(),
            r == (if !old(self).admin(caller) {
                Err(Error::NotAdmin)
            } else if !old(self).packs.as_map().contains_key(pack_id) {
                Err(Error::PackNotFound)
            } else {
                Ok(())
            }),
            r is Err ==> *final(self) == *old(self),
            r is Ok ==> {
                let p = old(self).packs.as_map()[pack_id]@;
                &&& final(self).packs.as_map().contains_key(pack_id)
                &&& final(self).packs.as_map().remove(pack_id) == old(self).packs.as_map().remove(pack_id)
                &&& final(self).packs.as_map()[pack_id]@ == PackModel {
                    name: match name { Some(n) => n@, None => p.name },
                    description: match description { Some(d) => d@, None => p.description },
                    cover_sticker_id: match cover_sticker_id { Some(c) => Some(c), None => p.cover_sticker_id },
                    updated_at: now,
                    ..p
                }
                &&& final(self).stickers == old(self).stickers
                &&& final(self).chunks == old(self).chunks
                &&& final(self).pack_stickers == old(self).pack_stickers
                &&& final(self).next_pack == old(self).next_pack
                &&& final(self).next_sticker == old(self).next_sticker
                &&& final(self).admins == old(self).admins
            },
    {
        self.require_admin(caller)?;
        let i = match self.packs.position(&pack_id) {
            Some(i) => i,
            None => return Err(Error::PackNotFound),
        };
        proof {
            self.packs.lemma_pos(i as int);
        }
        let mut pack = self.packs.entries[i].1.duplicate();
        match name {
            Some(n) => {
                pack.name = n;
            },
            None => {},
        }
        match description {
            Some(d) => {
                pack.description = d;
            },
            None => {},
        }
        match cover_sticker_id {
            Some(c) => {
                pack.cover_sticker_id = Some(c);
            },
            None => {},
        }
        pack.updated_at = now;
        let ghost before = self.packs;
        self.packs.insert(pack_id, pack);
        proof {
            assert(self.packs.as_map().remove(pack_id) =~= before.as_map().remove(pack_id));
            assert forall|a: int, b: int|
                0 <= a < b < self.packs.entries@.len() implies #[trigger] self.packs.entries@[a].0
                < #[trigger] self.packs.entries@[b].0 by {
                assert(before.entries@[a].0 < before.entries@[b].0);
            }
            assert forall|a: int| 0 <= a < self.packs.entries@.len() implies #[trigger] self.packs.entries@[a].0
                < counter_value(self.next_pack) && self.packs.entries@[a].0
                == self.packs.entries@[a].1.id by {
                assert(before.entries@[a].0 < counter_value(self.next_pack));
                assert(before.entries@[a].0 == before.entries@[a].1.id);
            }
        }
        Ok(())
    }

    /// Deletes a sticker: its chunks (for a binary sticker), its record, and its
    /// membership in `pack_id`.
    pub fn delete_sticker_internal(&mut self, sticker_id: u32, pack_id: u32)
        requires
            old(self).wf(),
        ensures
            final(self).wf(),
            final(self).chunk_map() == old(self).chunk_map().remove_keys(sticker_chunk_keys(old(self), sticker_id)),
            final(self).stickers.as_map() == old(self).stickers.as_map().remove(sticker_id),
            final(self).pairs() == old(self).pairs().remove((pack_id as u64, sticker_id as u64)),
            final(self).packs == old(self).packs,
            final(self).next_pack == old(self).next_pack,
            final(self).next_sticker == old(self).next_sticker,
            final(self).admins == old(self).admins,
    {
        let ghost old_chunks = self.chunk_map();
        let count: u32 = match self.stickers.get(&sticker_id) {
            Some(st) => match &st.storage_type {
                StorageType::Binary { chunk_count, .. } => *chunk_count,
                StorageType::External { .. } => 0,
            },
            None => 0,
        };
        let mut i: u32 = 0;
        while i < count
            invariant
                i <= count,
                self.chunk_map() == old_chunks.remove_keys(chunk_keys(sticker_id, i)),
                self.wf(),
                self.stickers == old(self).stickers,
                self.packs == old(self).packs,
                self.pack_stickers == old(self).pack_stickers,
                self.next_pack == old(self).next_pack,
                self.next_sticker == old(self).next_sticker,
                self.admins == old(self).admins,
            decreases count - i,
        {
            self.chunks.remove((sticker_id, i));
            assert(old_chunks.remove_keys(chunk_keys(sticker_id, i)).remove((sticker_id, i))
                =~= old_chunks.remove_keys(chunk_keys(sticker_id, (i + 1) as u32)));
            i = i + 1;
        }
        proof {
            assert(old_chunks.remove_keys(chunk_keys(sticker_id, count)) =~= old_chunks.remove_keys(
                sticker_chunk_keys(old(self), sticker_id),
            ));
        }
        let ghost before = self.stickers;
        let _ = self.stickers.remove(&sticker_id);
        proof {
            if before.has(sticker_id) {
                let p = before.pos(sticker_id);
                assert forall|k: int| 0 <= k < self.stickers.entries@.len() implies #[trigger] self.stickers.entries@[k].0
                    == self.stickers.entries@[k].1.id by {
                    let k2 = if k < p { k } else { k + 1 };
                    assert(self.stickers.entries@[k] == before.entries@[k2]);
                }
            }
        }
        self.pack_stickers.remove(pack_id as u64, sticker_id as u64);
    }

    /// Lets an administrator delete a pack with all its stickers and their chunks.
    pub fn delete_pack(&mut self, caller: PrincipalId, pack_id: u32) -> (r: Result<(), Error>)
        requires
            old(self).wf(),
        ensures
            final(self).wf(),
            r == (if !old(self).admin(caller) {
                Err(Error::NotAdmin)
            } else if !old(self).packs.as_map().contains_key(pack_id) {
                Err(Error::PackNotFound)
            } else {
                Ok(())
            }),
            r is Err ==> *final(self) == *old(self),
            r is Ok ==> {
                let ids = old(self).members(pack_id);
                &&& final(self).packs.as_map() == old(self).packs.as_map().remove(pack_id)
                &&& final(self).stickers.as_map() == old(self).stickers.as_map().remove_keys(
                    Set::new(|s: u32| ids.contains(s as u64)),
                )
                &&& final(self).chunk_map() == old(self).chunk_map().remove_keys(pack_chunk_keys(old(self), ids))
                &&& final(self).pairs() == old(self).pairs().filter(|p: (u64, u64)| p.0 != pack_id as u64)
                &&& final(self).next_pack == old(self).next_pack
                &&& final(self).next_sticker == old(self).next_sticker
                &&& final(self).admins == old(self).admins
            },
    {
        self.require_admin(caller)?;
        if !self.packs.contains(&pack_id) {
            return Err(Error::PackNotFound);
        }
        let ids = self.pack_members(pack_id);
        let ghost old_state = *self;
        let ghost ids64 = old_state.members(pack_id);
        proof {
            assert forall|j: int, k: int| 0 <= j < k < ids@.len() implies ids@[j] != ids@[k] by {
                assert(ids64[j] < ids64[k]);
            }
        }
        let mut i: usize = 0;
        while i < ids.len()
            invariant
                self.wf(),
                i <= ids@.len(),
                ids@.len() == ids64.len(),
                forall|j: int| 0 <= j < ids@.len() ==> ids@[j] as u64 == #[trigger] ids64[j],
                forall|j: int, k: int| 0 <= j < k < ids@.len() ==> ids@[j] != ids@[k],
                self.packs == old_state.packs,
                self.next_pack == old_state.next_pack,
                self.next_sticker == old_state.next_sticker,
                self.admins == old_state.admins,
                self.stickers.as_map() == old_state.stickers.as_map().remove_keys(
                    Set::new(|s: u32| ids64.subrange(0, i as int).contains(s as u64)),
                ),
                self.chunk_map() == old_state.chunk_map().remove_keys(
                    pack_chunk_keys(&old_state, ids64.subrange(0, i as int)),
                ),
                self.pairs() == old_state.pairs().difference(
                    Set::new(|p: (u64, u64)| p.0 == pack_id as u64 && ids64.subrange(0, i as int).contains(p.1)),
                ),
            decreases ids@.len() - i,
        {
            let sid = ids[i];
            let ghost before = *self;
            proof {
                assert(!ids64.subrange(0, i as int).contains(sid as u64)) by {
                    if ids64.subrange(0, i as int).contains(sid as u64) {
                        let j = choose|j: int| 0 <= j < i && ids64.subrange(0, i as int)[j] == sid as u64;
                        assert(ids@[j] == sid);
                    }
                }
            }
            self.delete_sticker_internal(sid, pack_id);
            proof {
                let done = ids64.subrange(0, i as int);
                let done2 = ids64.subrange(0, i + 1);
                assert forall|s: u64| done2.contains(s) <==> (done.contains(s) || s == sid as u64) by {
                    if done2.contains(s) {
                        let j = choose|j: int| 0 <= j < i + 1 && done2[j] == s;
                        if j < i {
                            assert(done[j] == s);
                        }
                    }
                    if done.contains(s) {
                        let j = choose|j: int| 0 <= j < i && done[j] == s;
                        assert(done2[j] == s);
                    }
                    if s == sid as u64 {
                        assert(done2[i as int] == s);
                    }
                }
                assert(self.stickers.as_map() =~= old_state.stickers.as_map().remove_keys(
                    Set::new(|s: u32| done2.contains(s as u64)),
                ));
                if before.stickers.as_map().contains_key(sid) {
                    assert(before.stickers.as_map()[sid] == old_state.stickers.as_map()[sid]);
                }
                assert(self.chunk_map() =~= old_state.chunk_map().remove_keys(
                    pack_chunk_keys(&old_state, done2),
                ));
                assert(self.pairs() =~= old_state.pairs().difference(
                    Set::new(|p: (u64, u64)| p.0 == pack_id as u64 && done2.contains(p.1)),
                ));
            }
            i = i + 1;
        }
        proof {
            assert(ids64.subrange(0, ids@.len() as int) =~= ids64);
            assert(self.pairs() =~= old_state.pairs().filter(|p: (u64, u64)| p.0 != pack_id as u64));
        }
        let ghost before = self.packs;
        let _ = self.packs.remove(&pack_id);
        proof {
            let p = before.pos(pack_id);
            assert forall|a: int, b: int|
                0 <= a < b < self.packs.entries@.len() implies #[trigger] self.packs.entries@[a].0
                < #[trigger] self.packs.entries@[b].0 by {
                let a2 = if a < p { a } else { a + 1 };
                let b2 = if b < p { b } else { b + 1 };
                assert(before.entries@[a2].0 < before.entries@[b2].0);
            }
            assert forall|a: int| 0 <= a < self.packs.entries@.len() implies #[trigger] self.packs.entries@[a].0
                < counter_value(self.next_pack) && self.packs.entries@[a].0
                == self.packs.entries@[a].1.id by {
                let a2 = if a < p { a } else { a + 1 };
                assert(self.packs.entries@[a] == before.entries@[a2]);
                assert(before.entries@[a2].0 < counter_value(self.next_pack));
                assert(before.entries@[a2].0 == before.entries@[a2].1.id);
            }
        }
        Ok(())
    }
}

/// The upload status that `create_sticker` gives a new sticker.
pub open spec fn initial_status(storage: StorageModel, has_data: bool) -> UploadModel {
    match storage {
        StorageModel::Binary { .. } => if has_data {
            UploadModel::Complete
        } else {
            UploadModel::Pending { uploaded_chunks: Seq::empty() }
        },
        StorageModel::External { .. } => UploadModel::Complete,
    }
}

/// What `create_sticker` answers before it stores anything.
pub open spec fn create_sticker_answer(s: &StickerState, caller: PrincipalId, pack_id: u32, storage: StorageModel) -> Result<(), Error> {
    if !s.admin(caller) {
        Err(Error::NotAdmin)
    } else if !s.packs.as_map().contains_key(pack_id) {
        Err(Error::PackNotFound)
    } else {
        match storage {
            StorageModel::Binary { content_type, .. } => if allowed_content_type(content_type) {
                Ok(())
            } else {
                Err(Error::InvalidContentType)
            },
            StorageModel::External { .. } => Ok(()),
        }
    }
}

impl StickerState {
    /// A pack by id.
    pub fn get_pack(&self, pack_id: u32) -> (r: Result<StickerPack, Error>)
        requires
            self.wf(),
        ensures
            r is Err ==> r == Err::<StickerPack, Error>(Error::PackNotFound) && !self.packs.as_map().contains_key(pack_id),
            r matches Ok(p) ==> self.packs.as_map().contains_key(pack_id) && p@ == self.packs.as_map()[pack_id]@,
    {
        match self.packs.get(&pack_id) {
            Some(p) => Ok(p.duplicate()),
            None => Err(Error::PackNotFound),
        }
    }

    /// The number of stickers in a pack (cut to `u32`).
    pub fn count_pack_stickers(&self, pack_id: u32) -> (r: u32)
        requires
            self.wf(),
        ensures
            r == self.members(pack_id).len() as u32,
    {
        let ids = self.pack_members(pack_id);
        ids.len() as u32
    }

    /// The packs at positions `[offset, offset + limit)` in id order, each with its
    /// sticker count, and the number of packs.
    pub fn list_packs(&self, offset: u32, limit: u32) -> (r: PacksPage)
        requires
            self.wf(),
        ensures
            r.total == self.packs.entries@.len() as u32,
            ({
                let w = window(self.packs.entries@, offset as nat, limit as nat);
                &&& r.packs@.len() == w.len()
                &&& forall|i: int| 0 <= i < w.len() ==> summarizes(#[trigger] r.packs@[i], w[i].1, self.members(w[i].1.id).len())
            }),
    {
        let n = self.packs.entries.len();
        let lo: usize = if (offset as usize) < n { offset as usize } else { n };
        let hi: usize = if (limit as usize) < n - lo { lo + limit as usize } else { n };
        let ghost w = window(self.packs.entries@, offset as nat, limit as nat);
        assert(w == self.packs.entries@.subrange(lo as int, hi as int));
        let mut out: Vec<PackSummary> = Vec::new();
        let mut i: usize = lo;
        while i < hi
            invariant
                self.wf(),
                lo <= i <= hi,
                hi <= self.packs.entries@.len(),
                w == self.packs.entries@.subrange(lo as int, hi as int),
                out@.len() == i - lo,
                forall|j: int| 0 <= j < i - lo ==> summarizes(#[trigger] out@[j], w[j].1, self.members(w[j].1.id).len()),
            decreases hi - i,
        {
            let pack = &self.packs.entries[i].1;
            let count = self.count_pack_stickers(pack.id);
            out.push(PackSummary {
                id: pack.id,
                name: pack.name.clone(),
                description: pack.description.clone(),
                cover_sticker_id: pack.cover_sticker_id,
                creator: pack.creator,
                created_at: pack.created_at,
                updated_at: pack.updated_at,
                sticker_count: count,
            });
            i = i + 1;
        }
        PacksPage { packs: out, total: n as u32 }
    }

    /// Lets an administrator add a sticker to an existing pack; binary stickers must have
    /// an allowed content type. With `data`, the sticker is complete and `data` is its
    /// single chunk; a binary sticker without data waits for its chunks.
    pub fn create_sticker(
        &mut self,
        caller: PrincipalId,
        now: u64,
        pack_id: u32,
        name: String,
        tags: Vec<String>,
        storage_type: StorageType,
        data: Option<Vec<u8>>,
    ) -> (r: Result<u32, Error>)
        requires
            old(self).wf(),
            counter_value(old(self).next_sticker) <= u32::MAX,
        ensures
            final(self).wf(),
            create_sticker_answer(old(self), caller, pack_id, storage_type@) matches Err(e) ==> r == Err::<u32, Error>(e) && *final(self) == *old(self),
            create_sticker_answer(old(self), caller, pack_id, storage_type@) is Ok ==> {
                let id = counter_value(old(self).next_sticker) as u32;
                &&& counter_value(final(self).next_sticker) == counter_value(old(self).next_sticker) + 1
                &&& !old(self).stickers.as_map().contains_key(id)
                &&& final(self).stickers.as_map().contains_key(id)
                &&& final(self).stickers.as_map().remove(id) == old(self).stickers.as_map().remove(id)
                &&& final(self).stickers.as_map()[id]@ == StickerModel {
                    id,
                    pack_id,
                    name: name@,
                    tags: texts(tags@),
                    storage_type: storage_type@,
                    upload_status: initial_status(storage_type@, data is Some),
                    width: None,
                    height: None,
                    created_at: now,
                    updated_at: now,
                }
                &&& final(self).pairs() == old(self).pairs().insert((pack_id as u64, id as u64))
                &&& (match data {
                    Some(d) => if d@.len() > MAX_CHUNK_SIZE {
                        r == Err::<u32, Error>(Error::DataTooLarge) && final(self).chunk_map() == old(self).chunk_map()
                    } else {
                        r == Ok::<u32, Error>(id) && final(self).chunk_map() == old(self).chunk_map().insert((id, 0u32), d@)
                    },
                    None => r == Ok::<u32, Error>(id) && final(self).chunk_map() == old(self).chunk_map(),
                })
                &&& final(self).packs == old(self).packs
                &&& final(self).next_pack == old(self).next_pack
                &&& final(self).admins == old(self).admins
            },
    {
        self.require_admin(caller)?;
        if !self.packs.contains(&pack_id) {
            return Err(Error::PackNotFound);
        }
        match &storage_type {
            StorageType::Binary { content_type, .. } => {
                validate_content_type(content_type.as_str())?;
            },
            StorageType::External { .. } => {},
        }
        let upload_status = match (&storage_type, &data) {
            (StorageType::Binary { .. }, Some(_)) => UploadStatus::Complete,
            (StorageType::Binary { .. }, None) => UploadStatus::Pending { uploaded_chunks: Vec::new() },
            (StorageType::External { .. }, _) => UploadStatus::Complete,
        };
        let id64 = self.next_sticker_id();
        let id = id64 as u32;
        let sticker = Sticker {
            id,
            pack_id,
            name,
            tags,
            storage_type,
            upload_status,
            width: None,
            height: None,
            created_at: now,
            updated_at: now,
        };
        let ghost before = self.stickers;
        self.stickers.insert(id, sticker);
        proof {
            assert(self.stickers.as_map().remove(id) =~= before.as_map().remove(id));
            assert forall|k: int| 0 <= k < self.stickers.entries@.len() implies #[trigger] self.stickers.entries@[k].0
                == self.stickers.entries@[k].1.id by {
                if k < before.entries@.len() && !(before.has(id) && k == before.pos(id)) {
                    assert(self.stickers.entries@[k] == before.entries@[k]);
                }
            }
        }
        self.pack_stickers.insert(pack_id as u64, id as u64);
        match data {
            Some(d) => {
                self.store_single_chunk(id, d)?;
            },
            None => {},
        }
        Ok(id)
    }

    /// Lets an administrator rename a sticker or replace its tags.
    pub fn update_sticker(
        &mut self,
        caller: PrincipalId,
        now: u64,
        sticker_id: u32,
        name: Option<String>,
        tags: Option<Vec<String>>,
    ) -> (r: Result<(), Error>)
        requires
            old(self).wf(),
        ensures
            final(self).wf(),
            r == (if !old(self).admin(caller) {
                Err(Error::NotAdmin)
            } else if !old(self).stickers.as_map().contains_key(sticker_id) {
                Err(Error::StickerNotFound)
            } else {
                Ok(())
            }),
            r is Err ==> *final(self) == *old(self),
            r is Ok ==> {
                let st = old(self).stickers.as_map()[sticker_id]@;
                &&& final(self).stickers.as_map().contains_key(sticker_id)
                &&& final(self).stickers.as_map().remove(sticker_id) == old(self).stickers.as_map().remove(sticker_id)
                &&& final(self).stickers.as_map()[sticker_id]@ == StickerModel {
                    name: match name { Some(n) => n@, None => st.name },
                    tags: match tags { Some(t) => texts(t@), None => st.tags },
                    updated_at: now,
                    ..st
                }
                &&& final(self).chunks == old(self).chunks
                &&& final(self).packs == old(self).packs
                &&& final(self).pack_stickers == old(self).pack_stickers
                &&& final(self).next_pack == old(self).next_pack
                &&& final(self).next_sticker == old(self).next_sticker
                &&& final(self).admins == old(self).admins
            },
    {
        self.require_admin(caller)?;
        let i = match self.stickers.position(&sticker_id) {
            Some(i) => i,
            None => return Err(Error::StickerNotFound),
        };
        proof {
            self.stickers.lemma_pos(i as int);
        }
        let mut st = self.stickers.entries[i].1.duplicate();
        match name {
            Some(n) => {
                st.name = n;
            },
            None => {},
        }
        match tags {
            Some(t) => {
                st.tags = t;
            },
            None => {},
        }
        st.updated_at = now;
        let ghost before = self.stickers;
        self.stickers.insert(sticker_id, st);
        proof {
            assert(self.stickers.as_map().remove(sticker_id) =~= before.as_map().remove(sticker_id));
            assert forall|k: int| 0 <= k < self.stickers.entries@.len() implies #[trigger] self.stickers.entries@[k].0
                == self.stickers.entries@[k].1.id by {
                if k != i {
                    assert(self.stickers.entries@[k] == before.entries@[k]);
                }
            }
        }
        Ok(())
    }

    /// Lets an administrator delete a sticker, with its chunks and its membership in its
    /// pack.
    pub fn delete_sticker(&mut self, caller: PrincipalId, sticker_id: u32) -> (r: Result<(), Error>)
        requires
            old(self).wf(),
        ensures
            final(self).wf(),
            r == (if !old(self).admin(caller) {
                Err(Error::NotAdmin)
            } else if !old(self).stickers.as_map().contains_key(sticker_id) {
                Err(Error::StickerNotFound)
            } else {
                Ok(())
            }),
            r is Err ==> *final(self) == *old(self),
            r is Ok ==> {
                &&& final(self).chunk_map() == old(self).chunk_map().remove_keys(sticker_chunk_keys(old(self), sticker_id))
                &&& final(self).stickers.as_map() == old(self).stickers.as_map().remove(sticker_id)
                &&& final(self).pairs() == old(self).pairs().remove(
                    (old(self).stickers.as_map()[sticker_id].pack_id as u64, sticker_id as u64),
                )
                &&& final(self).packs == old(self).packs
                &&& final(self).next_pack == old(self).next_pack
                &&& final(self).next_sticker == old(self).next_sticker
                &&& final(self).admins == old(self).admins
            },
    {
        self.require_admin(caller)?;
        let pack_id = match self.stickers.get(&sticker_id) {
            Some(st) => st.pack_id,
            None => return Err(Error::StickerNotFound),
        };
        self.delete_sticker_internal(sticker_id, pack_id);
        Ok(())
    }

    /// Lets an administrator upload one chunk of a pending sticker.
    pub fn admin_upload_chunk(&mut self, caller: PrincipalId, sticker_id: u32, chunk_index: u32, data: Vec<u8>, now: u64) -> (r: Result<(), Error>)
        requires
            old(self).wf(),
        ensures
            final(self).wf(),
            !old(self).admin(caller) ==> r == Err::<(), Error>(Error::NotAdmin) && *final(self) == *old(self),
            old(self).admin(caller) ==> r == super::upload::upload_chunk_answer(old(self), sticker_id, chunk_index, data@.len()),
            r is Ok ==> final(self).chunk_map() == old(self).chunk_map().insert((sticker_id, chunk_index), data@),
            r is Err ==> *final(self) == *old(self),
    {
        self.require_admin(caller)?;
        self.upload_chunk(sticker_id, chunk_index, data, now)
    }

    /// Lets an administrator complete the upload of a sticker.
    pub fn admin_finalize_upload(&mut self, caller: PrincipalId, sticker_id: u32, now: u64) -> (r: Result<(), Error>)
        requires
            old(self).wf(),
        ensures
            final(self).wf(),
            !old(self).admin(caller) ==> r == Err::<(), Error>(Error::NotAdmin) && *final(self) == *old(self),
            old(self).admin(caller) ==> r == super::upload::finalize_answer(old(self), sticker_id),
            r is Err ==> *final(self) == *old(self),
            r is Ok ==> final(self).stickers.as_map()[sticker_id]@.upload_status == UploadModel::Complete,
    {
        self.require_admin(caller)?;
        self.finalize_upload(sticker_id, now)
    }

    /// A sticker by id.
    pub fn get_sticker(&self, sticker_id: u32) -> (r: Result<Sticker, Error>)
        requires
            self.wf(),
        ensures
            r is Err ==> r == Err::<Sticker, Error>(Error::StickerNotFound) && !self.stickers.as_map().contains_key(sticker_id),
            r matches Ok(s) ==> self.stickers.as_map().contains_key(sticker_id) && s@ == self.stickers.as_map()[sticker_id]@,
    {
        match self.stickers.get(&sticker_id) {
            Some(s) => Ok(s.duplicate()),
            None => Err(Error::StickerNotFound),
        }
    }

    /// One stored chunk.
    pub fn get_chunk(&self, sticker_id: u32, chunk_index: u32) -> (r: Result<Vec<u8>, Error>)
        ensures
            r is Err ==> r == Err::<Vec<u8>, Error>(Error::StickerNotFound) && !self.chunk_map().contains_key((sticker_id, chunk_index)),
            r matches Ok(v) ==> self.chunk_map().contains_key((sticker_id, chunk_index)) && v@ == self.chunk_map()[(sticker_id, chunk_index)],
    {
        match self.chunks.get((sticker_id, chunk_index)) {
            Some(v) => Ok(v),
            None => Err(Error::StickerNotFound),
        }
    }

    /// The stickers of a pack at positions `[offset, offset + limit)` by increasing id
    /// (those whose records exist), and the number of stickers in the pack.
    pub fn list_stickers(&self, pack_id: u32, offset: u32, limit: u32) -> (r: StickersPage)
        requires
            self.wf(),
        ensures
            r.total == self.members(pack_id).len() as u32,
            ({
                let ids = present(self.stickers.as_map(), window(self.members(pack_id), offset as nat, limit as nat));
                &&& r.stickers@.len() == ids.len()
                &&& forall|i: int| 0 <= i < ids.len() ==> describes(#[trigger] r.stickers@[i], self.stickers.as_map()[ids[i] as u32]@)
            }),
            forall|x: u64| #[trigger] window(self.members(pack_id), offset as nat, limit as nat).contains(x)
                && self.stickers.as_map().contains_key(x as u32)
                ==> exists|i: int| 0 <= i < r.stickers@.len() && r.stickers@[i].id == x as u32,
    {
        let all = self.pack_members(pack_id);
        let total = all.len() as u32;
        let n = all.len();
        let lo: usize = if (offset as usize) < n { offset as usize } else { n };
        let hi: usize = if (limit as usize) < n - lo { lo + limit as usize } else { n };
        let ghost w = window(self.members(pack_id), offset as nat, limit as nat);
        assert(w == self.members(pack_id).subrange(lo as int, hi as int));
        let mut out: Vec<StickerInfo> = Vec::new();
        let mut i: usize = lo;
        while i < hi
            invariant
                self.wf(),
                lo <= i <= hi,
                hi <= all@.len(),
                all@.len() == self.members(pack_id).len(),
                forall|j: int| 0 <= j < all@.len() ==> all@[j] as u64 == #[trigger] self.members(pack_id)[j],
                forall|x: u64| self.members(pack_id).contains(x) ==> x <= u32::MAX,
                w == self.members(pack_id).subrange(lo as int, hi as int),
                ({
                    let ids = present(self.stickers.as_map(), w.subrange(0, i - lo));
                    &&& out@.len() == ids.len()
                    &&& forall|j: int| 0 <= j < ids.len() ==> describes(#[trigger] out@[j], self.stickers.as_map()[ids[j] as u32]@)
                }),
            decreases hi - i,
        {
            let sid = all[i];
            proof {
                assert(w.subrange(0, i + 1 - lo).drop_last() =~= w.subrange(0, i - lo));
                assert(w.subrange(0, i + 1 - lo).last() == w[i - lo]);
                assert(w[i - lo] == self.members(pack_id)[i as int]);
            }
            match self.stickers.get(&sid) {
                Some(st) => {
                    proof {
                        assert(self.members(pack_id).contains(self.members(pack_id)[i as int]));
                        assert((sid as u64) as u32 == sid);
                    }
                    out.push(StickerInfo {
                        id: st.id,
                        pack_id: st.pack_id,
                        name: st.name.clone(),
                        storage_type: st.storage_type.duplicate(),
                        created_at: st.created_at,
                        updated_at: st.updated_at,
                    });
                },
                None => {},
            }
            i = i + 1;
        }
        proof {
            assert(w.subrange(0, hi - lo) =~= w);
        }
        let r = StickersPage { stickers: out, total };
        proof {
            law_present_keeps_stored(self.stickers.as_map(), w);
            let ids = present(self.stickers.as_map(), w);
            assert forall|x: u64| #[trigger] window(self.members(pack_id), offset as nat, limit as nat).contains(x)
                && self.stickers.as_map().contains_key(x as u32)
                implies exists|i: int| 0 <= i < r.stickers@.len() && r.stickers@[i].id == x as u32 by {
                assert(w.contains(x));
                assert(ids.contains(x));
                let i = choose|i: int| 0 <= i < ids.len() && ids[i] == x;
                let m = x as u32;
                assert(self.stickers.has(m));
                let q = self.stickers.pos(m);
                self.stickers.lemma_pos(q);
                assert(self.stickers.entries@[q].0 == m);
                assert(describes(r.stickers@[i], self.stickers.as_map()[ids[i] as u32]@));
                assert(r.stickers@[i].id == m);
            }
        }
        r
    }

    /// The first pack, in id order, with this name.
    pub fn find_pack_by_name(&self, name: &str) -> (r: Option<StickerPack>)
        requires
            self.wf(),
        ensures
            r is None ==> forall|i: int| 0 <= i < self.packs.entries@.len() ==> #[trigger] self.packs.entries@[i].1.name@ != name@,
            r matches Some(p) ==> exists|i: int|
                0 <= i < self.packs.entries@.len() && #[trigger] self.packs.entries@[i].1.name@ == name@
                && p@ == self.packs.entries@[i].1@ && forall|j: int| 0 <= j < i ==> self.packs.entries@[j].1.name@ != name@,
    {
        let wanted = name.to_owned();
        let mut i: usize = 0;
        while i < self.packs.entries.len()
            invariant
                wanted@ == name@,
                i <= self.packs.entries@.len(),
                forall|j: int| 0 <= j < i ==> #[trigger] self.packs.entries@[j].1.name@ != name@,
            decreases self.packs.entries@.len() - i,
        {
            if self.packs.entries[i].1.name == wanted {
                return Some(self.packs.entries[i].1.duplicate());
            }
            i = i + 1;
        }
        None
    }

    /// The sticker at a 1-based position in the increasing listing of a pack's stickers.
    pub fn get_pack_sticker_by_index(&self, pack_id: u32, one_based: usize) -> (r: Option<u32>)
        requires
            self.wf(),
            one_based >= 1,
        ensures
            r == (if one_based - 1 < self.members(pack_id).len() {
                Some(self.members(pack_id)[one_based - 1] as u32)
            } else {
                None::<u32>
            }),
    {
        let ids = self.pack_members(pack_id);
        if one_based - 1 < ids.len() {
            Some(ids[one_based - 1])
        } else {
            None
        }
    }
}

} // verus!
