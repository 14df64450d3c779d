//! Records, errors, limits and stable-key encodings of the sticker server.
use vstd::prelude::*;
use crate::principal::PrincipalId;

verus! {

/// The largest chunk of sticker data that one call stores.
pub const MAX_CHUNK_SIZE: usize = 1572864;

/// The largest zip archive accepted.
pub const MAX_ZIP_SIZE: usize = 10485760;

/// The most images one zip archive may hold.
pub const MAX_ZIP_IMAGES: usize = 100;

/// Where the bytes of a sticker live.
#[derive(Clone, Debug, PartialEq, Eq)]
pub enum StorageType {
    Binary { content_type: String, size: u64, chunk_count: u32 },
    External { url: String },
}

/// The spec model of a `StorageType`.
pub ghost enum StorageModel {
    Binary { content_type: Seq<char>, size: u64, chunk_count: u32 },
    External { url: Seq<char> },
}

impl View for StorageType {
    type V = StorageModel;

    open spec fn view(&self) -> StorageModel {
        match self {
            StorageType::Binary { content_type, size, chunk_count } => StorageModel::Binary {
                content_type: content_type@,
                size: *size,
                chunk_count: *chunk_count,
            },
            StorageType::External { url } => StorageModel::External { url: url@ },
        }
    }
}

impl StorageType {
    /// A copy of this storage description.
    pub fn duplicate(&self) -> (r: StorageType)
        ensures
            r@ == self@,
    {
        match self {
            StorageType::Binary { content_type, size, chunk_count } => StorageType::Binary {
                content_type: content_type.clone(),
                size: *size,
                chunk_count: *chunk_count,
            },
            StorageType::External { url } => StorageType::External { url: url.clone() },
        }
    }
}

/// Whether all chunks of a binary sticker have arrived.
#[derive(Clone, Debug, PartialEq, Eq)]
pub enum UploadStatus {
    Complete,
    Pending { uploaded_chunks: Vec<u32> },
}

/// The spec model of an `UploadStatus`.
pub ghost enum UploadModel {
    Complete,
    Pending { uploaded_chunks: Seq<u32> },
}

impl View for UploadStatus {
    type V = UploadModel;

    open spec fn view(&self) -> UploadModel {
        match self {
            UploadStatus::Complete => UploadModel::Complete,
            UploadStatus::Pending { uploaded_chunks } => UploadModel::Pending {
                uploaded_chunks: uploaded_chunks@,
            },
        }
    }
}

impl UploadStatus {
    /// A copy of this status.
    pub fn duplicate(&self) -> (r: UploadStatus)
        ensures
            r@ == self@,
    {
        match self {
            UploadStatus::Complete => UploadStatus::Complete,
            UploadStatus::Pending { uploaded_chunks } => {
                let mut v: Vec<u32> = Vec::new();
                let mut i: usize = 0;
                while i < uploaded_chunks.len()
                    invariant
                        i <= uploaded_chunks@.len(),
                        v@ == uploaded_chunks@.subrange(0, i as int),
                    decreases uploaded_chunks@.len() - i,
                {
                    v.push(uploaded_chunks[i]);
                    i = i + 1;
                }
                assert(v@ =~= uploaded_chunks@);
                UploadStatus::Pending { uploaded_chunks: v }
            },
        }
    }
}

/// A pack of stickers.
#[derive(Clone, Debug, PartialEq, Eq)]
pub struct StickerPack {
    pub id: u32,
    pub name: String,
    pub description: String,
    pub cover_sticker_id: Option<u64>,
    pub creator: PrincipalId,
    pub created_at: u64,
    pub updated_at: u64,
}

/// The spec model of a `StickerPack`.
pub ghost struct PackModel {
    pub id: u32,
    pub name: Seq<char>,
    pub description: Seq<char>,
    pub cover_sticker_id: Option<u64>,
    pub creator: PrincipalId,
    pub created_at: u64,
    pub updated_at: u64,
}

impl View for StickerPack {
    type V = PackModel;

    open spec fn view(&self) -> PackModel {
        PackModel {
            id: self.id,
            name: self.name@,
            description: self.description@,
            cover_sticker_id: self.cover_sticker_id,
            creator: self.creator,
            created_at: self.created_at,
            updated_at: self.updated_at,
        }
    }
}

impl StickerPack {
    /// A copy of this pack.
    pub fn duplicate(&self) -> (r: StickerPack)
        ensures
            r@ == self@,
    {
        StickerPack {
            id: self.id,
            name: self.name.clone(),
            description: self.description.clone(),
            cover_sticker_id: self.cover_sticker_id,
            creator: self.creator,
            created_at: self.created_at,
            updated_at: self.updated_at,
        }
    }
}

/// A sticker.
#[derive(Clone, Debug, PartialEq, Eq)]
pub struct Sticker {
    pub id: u32,
    pub pack_id: u32,
    pub name: String,
    pub tags: Vec<String>,
    pub storage_type: StorageType,
    pub upload_status: UploadStatus,
    pub width: Option<u32>,
    pub height: Option<u32>,
    pub created_at: u64,
    pub updated_at: u64,
}

/// The spec model of a `Sticker`.
pub ghost struct StickerModel {
    pub id: u32,
    pub pack_id: u32,
    pub name: Seq<char>,
    pub tags: Seq<Seq<char>>,
    pub storage_type: StorageModel,
    pub upload_status: UploadModel,
    pub width: Option<u32>,
    pub height: Option<u32>,
    pub created_at: u64,
    pub updated_at: u64,
}

/// The texts of a list of strings.
pub open spec fn texts(v: Seq<String>) -> Seq<Seq<char>> {
    v.map_values(|s: String| s@)
}

impl View for Sticker {
    type V = StickerModel;

    open spec fn view(&self) -> StickerModel {
        StickerModel {
            id: self.id,
            pack_id: self.pack_id,
            name: self.name@,
            tags: texts(self.tags@),
            storage_type: self.storage_type@,
            upload_status: self.upload_status@,
            width: self.width,
            height: self.height,
            created_at: self.created_at,
            updated_at: self.updated_at,
        }
    }
}

/// A copy of a list of strings.
pub fn copy_strings(v: &Vec<String>) -> (r: Vec<String>)
    ensures
        texts(r@) == texts(v@),
{
    let mut out: Vec<String> = Vec::new();
    let mut i: usize = 0;
    while i < v.len()
        invariant
            i <= v@.len(),
            out@.len() == i,
            forall|j: int| 0 <= j < i ==> out@[j]@ == #[trigger] v@[j]@,
        decreases v@.len() - i,
    {
        out.push(v[i].clone());
        i = i + 1;
    }
    assert(texts(out@) =~= texts(v@));
    out
}

impl Sticker {
    /// A copy of this sticker.
    pub fn duplicate(&self) -> (r: Sticker)
        ensures
            r@ == self@,
    {
        Sticker {
            id: self.id,
            pack_id: self.pack_id,
            name: self.name.clone(),
            tags: copy_strings(&self.tags),
            storage_type: self.storage_type.duplicate(),
            upload_status: self.upload_status.duplicate(),
            width: self.width,
            height: self.height,
            created_at: self.created_at,
            updated_at: self.updated_at,
        }
    }
}

/// What a sticker listing shows of a sticker.
#[derive(Clone, Debug, PartialEq, Eq)]
pub struct StickerInfo {
    pub id: u32,
    pub pack_id: u32,
    pub name: String,
    pub storage_type: StorageType,
    pub created_at: u64,
    pub updated_at: u64,
}

/// A pack with the number of its stickers, as a pack listing shows it.
#[derive(Clone, Debug, PartialEq, Eq)]
pub struct PackSummary {
    pub id: u32,
    pub name: String,
    pub description: String,
    pub cover_sticker_id: Option<u64>,
    pub creator: PrincipalId,
    pub created_at: u64,
    pub updated_at: u64,
    pub sticker_count: u32,
}

/// One page of packs.
#[derive(Clone, Debug, PartialEq, Eq)]
pub struct PacksPage {
    pub packs: Vec<PackSummary>,
    pub total: u32,
}

/// One page of the stickers of a pack.
#[derive(Clone, Debug, PartialEq, Eq)]
pub struct StickersPage {
    pub stickers: Vec<StickerInfo>,
    pub total: u32,
}

/// Why a request of the sticker server failed.
#[derive(Clone, Debug, PartialEq, Eq)]
pub enum Error {
    NotAdmin,
    PackNotFound,
    StickerNotFound,
    UploadNotPending,
    ChunkIndexOutOfRange,
    ChunkAlreadyUploaded,
    DataTooLarge,
    UploadIncomplete,
    InvalidContentType,
    ZipTooLarge,
    ZipTooManyImages,
    ZipNoImagesFound,
    ZipExtractFailed { detail: String },
}

/// ASCII lower case of a byte.
pub open spec fn ascii_lower(b: u8) -> u8 {
    if 65 <= b <= 90 {
        (b + 32) as u8
    } else {
        b
    }
}

/// `s` equals the lower-case ASCII word `w` up to ASCII case.
pub open spec fn eq_ignoring_case(s: Seq<u8>, w: Seq<u8>) -> bool {
    s.len() == w.len() && forall|i: int| 0 <= i < s.len() ==> ascii_lower(#[trigger] s[i]) == w[i]
}

/// The content type of a file extension (compared without regard to case).
pub open spec fn content_type_of_extension(ext: Seq<u8>) -> Option<Seq<char>> {
    if eq_ignoring_case(ext, seq![112u8, 110u8, 103u8]) {
        Some("image/png"@)
    } else if eq_ignoring_case(ext, seq![103u8, 105u8, 102u8]) {
        Some("image/gif"@)
    } else if eq_ignoring_case(ext, seq![119u8, 101u8, 98u8, 112u8]) {
        Some("image/webp"@)
    } else if eq_ignoring_case(ext, seq![106u8, 112u8, 103u8]) || eq_ignoring_case(
        ext,
        seq![106u8, 112u8, 101u8, 103u8],
    ) {
        Some("image/jpeg"@)
    } else {
        None
    }
}

fn matches_word(s: &[u8], w: &[u8]) -> (r: bool)
    ensures
        r == eq_ignoring_case(s@, w@),
{
    if s.len() != w.len() {
        return false;
    }
    let mut i: usize = 0;
    while i < s.len()
        invariant
            s@.len() == w@.len(),
            i <= s@.len(),
            forall|j: int| 0 <= j < i ==> ascii_lower(#[trigger] s@[j]) == w@[j],
        decreases s@.len() - i,
    {
        let b = s[i];
        let lower = if 65 <= b && b <= 90 { b + 32 } else { b };
        if lower != w[i] {
            return false;
        }
        i = i + 1;
    }
    true
}

/// The content type of a file extension: png, gif, webp, jpg and jpeg, in any case.
/// (Lower-casing is done on ASCII letters; no other character lower-cases to a letter
/// of these words.)
pub fn extension_to_content_type(ext: &str) -> (r: Option<&'static str>)
    ensures
        r matches Some(t) ==> content_type_of_extension(vstd::utf8::encode_utf8(ext@)) == Some(
            t@,
        ),
        r is None ==> content_type_of_extension(vstd::utf8::encode_utf8(ext@)) is None,
{
    let b = ext.as_bytes();
    let png: [u8; 3] = [112, 110, 103];
    let gif: [u8; 3] = [103, 105, 102];
    let webp: [u8; 4] = [119, 101, 98, 112];
    let jpg: [u8; 3] = [106, 112, 103];
    let jpeg: [u8; 4] = [106, 112, 101, 103];
    assert(png@ =~= seq![112u8, 110u8, 103u8]);
    assert(gif@ =~= seq![103u8, 105u8, 102u8]);
    assert(webp@ =~= seq![119u8, 101u8, 98u8, 112u8]);
    assert(jpg@ =~= seq![106u8, 112u8, 103u8]);
    assert(jpeg@ =~= seq![106u8, 112u8, 101u8, 103u8]);
    if matches_word(b, vstd::array::array_as_slice(&png)) {
        Some("image/png")
    } else if matches_word(b, vstd::array::array_as_slice(&gif)) {
        Some("image/gif")
    } else if matches_word(b, vstd::array::array_as_slice(&webp)) {
        Some("image/webp")
    } else if matches_word(b, vstd::array::array_as_slice(&jpg)) || matches_word(
        b,
        vstd::array::array_as_slice(&jpeg),
    ) {
        Some("image/jpeg")
    } else {
        None
    }
}

/// The content types that may be uploaded.
pub open spec fn allowed_content_type(t: Seq<char>) -> bool {
    t == "image/png"@ || t == "image/gif"@ || t == "image/webp"@ || t == "image/jpeg"@
}

/// The big-endian bytes of a `u32`.
pub open spec fn be32(x: u32) -> Seq<u8> {
    seq![(x >> 24u32) as u8, (x >> 16u32) as u8, (x >> 8u32) as u8, x as u8]
}

/// The `u32` of four big-endian bytes.
pub open spec fn from_be32(b0: u8, b1: u8, b2: u8, b3: u8) -> u32 {
    ((b0 as u32) << 24u32) | ((b1 as u32) << 16u32) | ((b2 as u32) << 8u32) | (b3 as u32)
}

pub proof fn lemma_be32_roundtrip(x: u32)
    ensures
        from_be32((x >> 24u32) as u8, (x >> 16u32) as u8, (x >> 8u32) as u8, x as u8) == x,
{
    assert(((((x >> 24u32) as u8) as u32) << 24u32) | ((((x >> 16u32) as u8) as u32) << 16u32)
        | ((((x >> 8u32) as u8) as u32) << 8u32) | ((x as u8) as u32) == x) by (bit_vector);
}

pub(crate) fn push_be32(buf: &mut Vec<u8>, x: u32)
    ensures
        final(buf)@ == old(buf)@ + be32(x),
{
    buf.push((x >> 24u32) as u8);
    buf.push((x >> 16u32) as u8);
    buf.push((x >> 8u32) as u8);
    buf.push(x as u8);
    assert(final(buf)@ =~= old(buf)@ + be32(x));
}

pub(crate) fn read_be32(b: &[u8], at: usize) -> (r: u32)
    requires
        at + 4 <= b@.len(),
    ensures
        r == from_be32(b@[at as int], b@[at + 1], b@[at + 2], b@[at + 3]),
{
    ((b[at] as u32) << 24u32) | ((b[at + 1] as u32) << 16u32) | ((b[at + 2] as u32) << 8u32) | (
    b[at + 3] as u32)
}

/// The stable key of one chunk of a sticker.
#[derive(Clone, Copy, Debug, PartialEq, Eq, PartialOrd, Ord)]
pub struct ChunkKey {
    pub sticker_id: u32,
    pub chunk_index: u32,
}

impl ChunkKey {
    /// The fixed eight-byte encoding: both fields big-endian.
    pub fn to_bytes(&self) -> (r: Vec<u8>)
        ensures
            r@ == be32(self.sticker_id) + be32(self.chunk_index),
    {
        let mut buf: Vec<u8> = Vec::new();
        push_be32(&mut buf, self.sticker_id);
        push_be32(&mut buf, self.chunk_index);
        buf
    }

    /// Decodes the first eight bytes.
    pub fn from_bytes(b: &[u8]) -> (r: ChunkKey)
        requires
            b@.len() >= 8,
        ensures
            r.sticker_id == from_be32(b@[0], b@[1], b@[2], b@[3]),
            r.chunk_index == from_be32(b@[4], b@[5], b@[6], b@[7]),
    {
        ChunkKey { sticker_id: read_be32(b, 0), chunk_index: read_be32(b, 4) }
    }
}

/// The stable key of the membership of a sticker in a pack.
#[derive(Clone, Copy, Debug, PartialEq, Eq, PartialOrd, Ord)]
pub struct PackStickerKey {
    pub pack_id: u32,
    pub sticker_id: u32,
}

impl PackStickerKey {
    /// The fixed eight-byte encoding: both fields big-endian.
    pub fn to_bytes(&self) -> (r: Vec<u8>)
        ensures
            r@ == be32(self.pack_id) + be32(self.sticker_id),
    {
        let mut buf: Vec<u8> = Vec::new();
        push_be32(&mut buf, self.pack_id);
        push_be32(&mut buf, self.sticker_id);
        buf
    }

    /// Decodes the first eight bytes.
    pub fn from_bytes(b: &[u8]) -> (r: PackStickerKey)
        requires
            b@.len() >= 8,
        ensures
            r.pack_id == from_be32(b@[0], b@[1], b@[2], b@[3]),
            r.sticker_id == from_be32(b@[4], b@[5], b@[6], b@[7]),
    {
        PackStickerKey { pack_id: read_be32(b, 0), sticker_id: read_be32(b, 4) }
    }
}

/// Decoding the encoding of a chunk key gives the key back.
pub proof fn law_chunk_key_roundtrip(k: ChunkKey)
    ensures
        ({
            let b = be32(k.sticker_id) + be32(k.chunk_index);
            from_be32(b[0], b[1], b[2], b[3]) == k.sticker_id && from_be32(b[4], b[5], b[6], b[7])
                == k.chunk_index
        }),
{
    lemma_be32_roundtrip(k.sticker_id);
    lemma_be32_roundtrip(k.chunk_index);
}

/// Decoding the encoding of a pack membership key gives the key back.
pub proof fn law_pack_sticker_key_roundtrip(k: PackStickerKey)
    ensures
        ({
            let b = be32(k.pack_id) + be32(k.sticker_id);
            from_be32(b[0], b[1], b[2], b[3]) == k.pack_id && from_be32(b[4], b[5], b[6], b[7])
                == k.sticker_id
        }),
{
    lemma_be32_roundtrip(k.pack_id);
    lemma_be32_roundtrip(k.sticker_id);
}

} // verus!
