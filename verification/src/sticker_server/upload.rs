//! Chunked upload of sticker images.
use vstd::prelude::*;
use crate::external::{blob_dimensions, image_dimensions};
use crate::stable::counter_value;
use super::state::{assembled, StickerState};
use super::types::{
    allowed_content_type, Error, Sticker, StickerModel, StorageModel, StorageType, UploadModel,
    UploadStatus, MAX_CHUNK_SIZE,
};

verus! {

/// The (width, height) that the header of an image declares, cut to `u32`.
pub open spec fn image_size(data: Seq<u8>) -> Option<(u32, u32)> {
    match image_dimensions(data) {
        Some(d) => Some((d.0 as u32, d.1 as u32)),
        None => None,
    }
}

/// The (width, height) of an image, when its header is recognized.
pub fn parse_image_size(data: &[u8]) -> (r: Option<(u32, u32)>)
    ensures
        r == image_size(data@),
{
    match blob_dimensions(data) {
        Some(d) => Some((d.0 as u32, d.1 as u32)),
        None => None,
    }
}

/// Accepts exactly the allowed image content types.
pub fn validate_content_type(content_type: &str) -> (r: Result<(), Error>)
    ensures
        r == (if allowed_content_type(content_type@) {
            Ok(())
        } else {
            Err(Error::InvalidContentType)
        }),
{
    let t = content_type.to_owned();
    if t == String::from_str("image/png") || t == String::from_str("image/gif") || t
        == String::from_str("image/webp") || t == String::from_str("image/jpeg") {
        Ok(())
    } else {
        Err(Error::InvalidContentType)
    }
}

/// Whether `v` holds `x`.
pub fn holds_u32(v: &Vec<u32>, x: u32) -> (r: bool)
    ensures
        r == v@.contains(x),
{
    let mut i: usize = 0;
    while i < v.len()
        invariant
            i <= v@.len(),
            forall|j: int| 0 <= j < i ==> v@[j] != x,
        decreases v@.len() - i,
    {
        if v[i] == x {
            assert(v@[i as int] == x);
            return true;
        }
        i = i + 1;
    }
    false
}

/// What `upload_chunk` answers, before it changes anything.
pub open spec fn upload_chunk_answer(s: &StickerState, sticker_id: u32, chunk_index: u32, len: nat) -> Result<(), Error> {
    if len > MAX_CHUNK_SIZE {
        Err(Error::DataTooLarge)
    } else if !s.stickers.as_map().contains_key(sticker_id) {
        Err(Error::StickerNotFound)
    } else {
        let st = s.stickers.as_map()[sticker_id]@;
        match st.upload_status {
            UploadModel::Complete => Err(Error::UploadNotPending),
            UploadModel::Pending { uploaded_chunks } => match st.storage_type {
                StorageModel::External { .. } => Err(Error::UploadNotPending),
                StorageModel::Binary { chunk_count, .. } => if chunk_index >= chunk_count {
                    Err(Error::ChunkIndexOutOfRange)
                } else if uploaded_chunks.contains(chunk_index) {
                    Err(Error::ChunkAlreadyUploaded)
                } else {
                    Ok(())
                },
            },
        }
    }
}

/// The chunks uploaded so far, of a pending sticker.
pub open spec fn uploaded_of(st: StickerModel) -> Seq<u32> {
    match st.upload_status {
        UploadModel::Pending { uploaded_chunks } => uploaded_chunks,
        UploadModel::Complete => Seq::empty(),
    }
}

/// The chunk count of a binary sticker.
pub open spec fn chunk_count_of(st: StickerModel) -> u32 {
    match st.storage_type {
        StorageModel::Binary { chunk_count, .. } => chunk_count,
        StorageModel::External { .. } => 0,
    }
}

/// What `finalize_upload` answers, before it changes anything.
pub open spec fn finalize_answer(s: &StickerState, sticker_id: u32) -> Result<(), Error> {
    if !s.stickers.as_map().contains_key(sticker_id) {
        Err(Error::StickerNotFound)
    } else {
        let st = s.stickers.as_map()[sticker_id]@;
        match st.upload_status {
            UploadModel::Complete => Err(Error::UploadNotPending),
            UploadModel::Pending { uploaded_chunks } => match st.storage_type {
                StorageModel::External { .. } => Err(Error::UploadNotPending),
                StorageModel::Binary { chunk_count, .. } => if uploaded_chunks.len()
                    != chunk_count as nat {
                    Err(Error::UploadIncomplete)
                } else {
                    Ok(())
                },
            },
        }
    }
}

/// The data of a sticker as `get_sticker_data` answers it.
pub open spec fn sticker_data(s: &StickerState, sticker_id: u32) -> Result<Seq<u8>, Error> {
    if !s.stickers.as_map().contains_key(sticker_id) {
        Err(Error::StickerNotFound)
    } else {
        match s.stickers.as_map()[sticker_id]@.storage_type {
            StorageModel::Binary { chunk_count, .. } => Ok(
                assembled(s.chunk_map(), sticker_id, chunk_count as nat),
            ),
            StorageModel::External { .. } => Ok(Seq::empty()),
        }
    }
}

impl StickerState {
    /// The bytes of chunks `0..count` of a sticker, in order, skipping missing ones.
    pub fn assemble(&self, sticker_id: u32, count: u32) -> (r: Vec<u8>)
        ensures
            r@ == assembled(self.chunk_map(), sticker_id, count as nat),
    {
        let mut data: Vec<u8> = Vec::new();
        let mut i: u32 = 0;
        while i < count
            invariant
                i <= count,
                data@ == assembled(self.chunk_map(), sticker_id, i as nat),
            decreases count - i,
        {
            match self.chunks.get((sticker_id, i)) {
                Some(mut chunk) => {
                    data.append(&mut chunk);
                },
                None => {},
            }
            i = i + 1;
        }
        data
    }

    /// Stores `data` as chunk 0 of a sticker and reads the image size from it.
    pub fn store_single_chunk(&mut self, sticker_id: u32, data: Vec<u8>) -> (r: Result<Option<(u32, u32)>, Error>)
        requires
            old(self).wf(),
        ensures
            final(self).wf(),
            data@.len() > MAX_CHUNK_SIZE ==> r == Err::<Option<(u32, u32)>, Error>(Error::DataTooLarge) && *final(self) == *old(self),
            data@.len() <= MAX_CHUNK_SIZE ==> r == Ok::<Option<(u32, u32)>, Error>(image_size(data@))
                && final(self).chunk_map() == old(self).chunk_map().insert((sticker_id, 0u32), data@)
                && final(self).packs == old(self).packs && final(self).stickers == old(self).stickers
                && final(self).pack_stickers == old(self).pack_stickers && final(self).next_pack
                == old(self).next_pack && final(self).next_sticker == old(self).next_sticker
                && final(self).admins == old(self).admins,
    {
        if data.len() > MAX_CHUNK_SIZE {
            return Err(Error::DataTooLarge);
        }
        let dims = parse_image_size(data.as_slice());
        self.chunks.insert((sticker_id, 0), data);
        Ok(dims)
    }

    /// Stores one chunk of a pending binary sticker.
    pub fn upload_chunk(&mut self, sticker_id: u32, chunk_index: u32, data: Vec<u8>, now: u64) -> (r: Result<(), Error>)
        requires
            old(self).wf(),
        ensures
            final(self).wf(),
            r == upload_chunk_answer(old(self), sticker_id, chunk_index, data@.len()),
            r is Err ==> *final(self) == *old(self),
            r is Ok ==> {
                &&& final(self).chunk_map() == old(self).chunk_map().insert((sticker_id, chunk_index), data@)
                &&& final(self).stickers.as_map().contains_key(sticker_id)
                &&& final(self).stickers.as_map().remove(sticker_id) == old(self).stickers.as_map().remove(sticker_id)
                &&& final(self).stickers.as_map()[sticker_id]@ == StickerModel {
                    upload_status: UploadModel::Pending {
                        uploaded_chunks: uploaded_of(old(self).stickers.as_map()[sticker_id]@).push(chunk_index),
                    },
                    updated_at: now,
                    ..old(self).stickers.as_map()[sticker_id]@
                }
                &&& final(self).packs == old(self).packs
                &&& final(self).pack_stickers == old(self).pack_stickers
                &&& final(self).next_pack == old(self).next_pack
                &&& final(self).next_sticker == old(self).next_sticker
                &&& final(self).admins == old(self).admins
            },
    {
        if data.len() > MAX_CHUNK_SIZE {
            return Err(Error::DataTooLarge);
        }
        let i = match self.stickers.position(&sticker_id) {
            Some(i) => i,
            None => return Err(Error::StickerNotFound),
        };
        proof {
            self.stickers.lemma_pos(i as int);
        }
        let uploaded: Vec<u32> = match &self.stickers.entries[i].1.upload_status {
            UploadStatus::Pending { uploaded_chunks } => {
                let mut v: Vec<u32> = Vec::new();
                let mut k: usize = 0;
                while k < uploaded_chunks.len()
                    invariant
                        k <= uploaded_chunks@.len(),
                        v@ == uploaded_chunks@.subrange(0, k as int),
                    decreases uploaded_chunks@.len() - k,
                {
                    v.push(uploaded_chunks[k]);
                    k = k + 1;
                }
                assert(v@ =~= uploaded_chunks@);
                v
            },
            UploadStatus::Complete => return Err(Error::UploadNotPending),
        };
        let chunk_count = match &self.stickers.entries[i].1.storage_type {
            StorageType::Binary { chunk_count, .. } => *chunk_count,
            StorageType::External { .. } => return Err(Error::UploadNotPending),
        };
        if chunk_index >= chunk_count {
            return Err(Error::ChunkIndexOutOfRange);
        }
        if holds_u32(&uploaded, chunk_index) {
            return Err(Error::ChunkAlreadyUploaded);
        }
        self.chunks.insert((sticker_id, chunk_index), data);
        let mut new_uploaded = uploaded;
        new_uploaded.push(chunk_index);
        let mut st = self.stickers.entries[i].1.duplicate();
        st.upload_status = UploadStatus::Pending { uploaded_chunks: new_uploaded };
        st.updated_at = now;
        let ghost before = self.stickers;
        self.stickers.insert(sticker_id, st);
        proof {
            assert(self.stickers.as_map().remove(sticker_id) =~= before.as_map().remove(sticker_id));
            assert forall|k: int| 0 <= k < self.stickers.entries@.len() implies #[trigger] self.stickers.entries@[k].0
                == self.stickers.entries@[k].1.id by {
                if k != i {
                    assert(self.stickers.entries@[k] == before.entries@[k]);
                }
            }
        }
        Ok(())
    }

    /// Completes the upload of a binary sticker whose chunks have all arrived, and records
    /// the image size found in their bytes.
    pub fn finalize_upload(&mut self, sticker_id: u32, now: u64) -> (r: Result<(), Error>)
        requires
            old(self).wf(),
        ensures
            final(self).wf(),
            r == finalize_answer(old(self), sticker_id),
            r is Err ==> *final(self) == *old(self),
            r is Ok ==> {
                let st = old(self).stickers.as_map()[sticker_id]@;
                let dims = image_size(assembled(old(self).chunk_map(), sticker_id, chunk_count_of(st) as nat));
                &&& final(self).stickers.as_map().contains_key(sticker_id)
                &&& final(self).stickers.as_map().remove(sticker_id) == old(self).stickers.as_map().remove(sticker_id)
                &&& final(self).stickers.as_map()[sticker_id]@ == StickerModel {
                    upload_status: UploadModel::Complete,
                    width: match dims { Some(d) => Some(d.0), None => st.width },
                    height: match dims { Some(d) => Some(d.1), None => st.height },
                    updated_at: now,
                    ..st
                }
                &&& final(self).chunks == old(self).chunks
                &&& final(self).packs == old(self).packs
                &&& final(self).pack_stickers == old(self).pack_stickers
                &&& final(self).next_pack == old(self).next_pack
                &&& final(self).next_sticker == old(self).next_sticker
                &&& final(self).admins == old(self).admins
            },
    {
        let i = match self.stickers.position(&sticker_id) {
            Some(i) => i,
            None => return Err(Error::StickerNotFound),
        };
        proof {
            self.stickers.lemma_pos(i as int);
        }
        let uploaded_len: usize = match &self.stickers.entries[i].1.upload_status {
            UploadStatus::Pending { uploaded_chunks } => uploaded_chunks.len(),
            UploadStatus::Complete => return Err(Error::UploadNotPending),
        };
        let chunk_count = match &self.stickers.entries[i].1.storage_type {
            StorageType::Binary { chunk_count, .. } => *chunk_count,
            StorageType::External { .. } => return Err(Error::UploadNotPending),
        };
        if uploaded_len != chunk_count as usize {
            return Err(Error::UploadIncomplete);
        }
        let full_data = self.assemble(sticker_id, chunk_count);
        let dims = parse_image_size(full_data.as_slice());
        let mut st = self.stickers.entries[i].1.duplicate();
        st.upload_status = UploadStatus::Complete;
        match dims {
            Some((w, h)) => {
                st.width = Some(w);
                st.height = Some(h);
            },
            None => {},
        }
        st.updated_at = now;
        let ghost before = self.stickers;
        self.stickers.insert(sticker_id, st);
        proof {
            assert(self.stickers.as_map().remove(sticker_id) =~= before.as_map().remove(sticker_id));
            assert forall|k: int| 0 <= k < self.stickers.entries@.len() implies #[trigger] self.stickers.entries@[k].0
                == self.stickers.entries@[k].1.id by {
                if k != i {
                    assert(self.stickers.entries@[k] == before.entries@[k]);
                }
            }
        }
        Ok(())
    }

    /// The bytes of a sticker: its chunks in order for a binary sticker, nothing for an
    /// external one.
    pub fn get_sticker_data(&self, sticker_id: u32) -> (r: Result<Vec<u8>, Error>)
        requires
            self.wf(),
        ensures
            match r {
                Ok(v) => sticker_data(self, sticker_id) == Ok::<Seq<u8>, Error>(v@),
                Err(e) => sticker_data(self, sticker_id) == Err::<Seq<u8>, Error>(e),
            },
    {
        let sticker = match self.stickers.get(&sticker_id) {
            Some(s) => s,
            None => return Err(Error::StickerNotFound),
        };
        match &sticker.storage_type {
            StorageType::Binary { chunk_count, .. } => Ok(self.assemble(sticker_id, *chunk_count)),
            StorageType::External { .. } => Ok(Vec::new()),
        }
    }
}

} // verus!
