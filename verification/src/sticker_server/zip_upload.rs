//! Filling a pack from the images of a zip archive.
use vstd::prelude::*;
use crate::external::{
    zip_entry, zip_entry_count, zip_entry_meta, zip_len, zip_named_contents, zip_open,
    zip_open_outcome, zip_read, zip_source, ZipReadFailure,
};
use crate::principal::PrincipalId;
use crate::stable::counter_value;
use crate::text::{
    after_last, after_last_char, before_first, before_first_char, decimal, decimal_string,
    joined, starts, starts_with_text,
};
use super::state::StickerState;
use super::types::{
    content_type_of_extension, extension_to_content_type, Error, Sticker, StickerModel,
    StorageModel, StorageType, UploadModel, UploadStatus, MAX_CHUNK_SIZE, MAX_ZIP_IMAGES,
    MAX_ZIP_SIZE,
};
use std::io::Cursor;
use zip::ZipArchive;

verus! {

/// The content type under which an archive entry becomes a sticker: not a directory,
/// not under `__MACOSX`, not hidden, and with an image extension.
pub open spec fn zip_image_type(name: Seq<char>, is_dir: bool) -> Option<Seq<char>> {
    if is_dir || starts(name, "__MACOSX"@) || starts(name, "."@) {
        None
    } else {
        content_type_of_extension(vstd::utf8::encode_utf8(after_last(name, '.')))
    }
}

/// The name a sticker gets from the path of its file: the file name up to its first dot.
pub open spec fn sticker_name(filename: Seq<char>) -> Seq<char> {
    before_first(after_last(filename, '/'), '.')
}

/// How many chunks hold `len` bytes.
pub open spec fn chunk_total(len: nat) -> nat {
    ((len + MAX_CHUNK_SIZE - 1) as nat) / (MAX_CHUNK_SIZE as nat)
}

/// Chunk `c` of `data`.
pub open spec fn chunk_slice(data: Seq<u8>, c: nat) -> Seq<u8> {
    let lo = c * MAX_CHUNK_SIZE;
    let hi = if (c + 1) * MAX_CHUNK_SIZE < data.len() { (c + 1) * MAX_CHUNK_SIZE } else { data.len() as int };
    data.subrange(lo as int, hi)
}

/// The chunks that a sticker made of `data` gets.
pub open spec fn data_chunks(id: u32, data: Seq<u8>) -> Map<(u32, u32), Seq<u8>> {
    Map::new(
        |k: (u32, u32)| k.0 == id && k.1 < chunk_total(data.len()),
        |k: (u32, u32)| chunk_slice(data, k.1 as nat),
    )
}

/// The sticker made from a file of an archive.
pub open spec fn zip_sticker(id: u32, pack_id: u32, filename: Seq<char>, content_type: Seq<char>, len: nat, now: u64) -> StickerModel {
    StickerModel {
        id,
        pack_id,
        name: sticker_name(filename),
        tags: Seq::empty(),
        storage_type: StorageModel::Binary {
            content_type,
            size: len as u64,
            chunk_count: chunk_total(len) as u32,
        },
        upload_status: UploadModel::Complete,
        width: None,
        height: None,
        created_at: now,
        updated_at: now,
    }
}

/// The text of the failure to read entry `i`.
pub open spec fn entry_failure(i: nat, e: Seq<char>) -> Seq<char> {
    "Failed to read zip entry "@ + decimal(i) + ": "@ + e
}

/// The image entries among the first `n` entries of an archive, with their content
/// types, or the text of the first failure to read an entry.
pub open spec fn zip_listing(data: Seq<u8>, n: nat) -> Result<Seq<(Seq<char>, Seq<char>)>, Seq<char>>
    decreases n,
{
    if n == 0 {
        Ok(Seq::empty())
    } else {
        match zip_listing(data, (n - 1) as nat) {
            Err(e) => Err(e),
            Ok(prev) => match zip_entry_meta(data, (n - 1) as usize) {
                Err(e) => Err(entry_failure((n - 1) as nat, e)),
                Ok(meta) => match zip_image_type(meta.0, meta.1) {
                    Some(t) => Ok(prev.push((meta.0, t))),
                    None => Ok(prev),
                },
            },
        }
    }
}

/// What reading the file `name` gives: its bytes, or the text of the failure.
pub open spec fn zip_file(data: Seq<u8>, name: Seq<char>) -> Result<Seq<u8>, Seq<char>> {
    match zip_named_contents(data, name) {
        Ok(b) => if b.len() <= u32::MAX {
            Ok(b)
        } else {
            Err("Failed to extract "@ + name + ": file too large"@)
        },
        Err(f) => if f.0 {
            Err("Failed to read "@ + name + ": "@ + f.1)
        } else {
            Err("Failed to extract "@ + name + ": "@ + f.1)
        },
    }
}

/// The bytes of file `name`, where it reads.
pub open spec fn file_bytes(data: Seq<u8>, name: Seq<char>) -> Seq<u8> {
    match zip_file(data, name) {
        Ok(b) => b,
        Err(_) => Seq::empty(),
    }
}

/// The first `k` files read.
pub open spec fn files_read(data: Seq<u8>, entries: Seq<(Seq<char>, Seq<char>)>, k: nat) -> bool {
    forall|j: int| 0 <= j < k ==> zip_file(data, #[trigger] entries[j].0) is Ok
}

/// The chunks of the stickers made from the first `k` files, numbered from `c0`.
pub open spec fn zip_chunks(c0: nat, data: Seq<u8>, entries: Seq<(Seq<char>, Seq<char>)>, k: nat) -> Map<(u32, u32), Seq<u8>> {
    Map::new(
        |key: (u32, u32)|
            c0 <= key.0 < c0 + k && key.1 < chunk_total(
                file_bytes(data, entries[key.0 - c0].0).len(),
            ),
        |key: (u32, u32)| chunk_slice(file_bytes(data, entries[key.0 - c0].0), key.1 as nat),
    )
}

/// `new` is `old` with stickers made from the first `k` files of the archive added.
pub open spec fn zip_added(old: &StickerState, new: &StickerState, pack_id: u32, data: Seq<u8>, entries: Seq<(Seq<char>, Seq<char>)>, k: nat, now: u64) -> bool {
    let c0 = counter_value(old.next_sticker) as nat;
    &&& counter_value(new.next_sticker) == c0 + k
    &&& forall|j: int|
        0 <= j < k ==> new.stickers.as_map().contains_key((c0 + j) as u32) && #[trigger] new.stickers.as_map()[(c0 + j) as u32]@ == zip_sticker(
            (c0 + j) as u32,
            pack_id,
            entries[j].0,
            entries[j].1,
            file_bytes(data, entries[j].0).len(),
            now,
        )
    &&& new.stickers.as_map().remove_keys(Set::new(|id: u32| c0 <= id < c0 + k)) == old.stickers.as_map().remove_keys(
        Set::new(|id: u32| c0 <= id < c0 + k),
    )
    &&& new.pairs() == old.pairs().union(Set::new(|p: (u64, u64)| p.0 == pack_id as u64 && c0 <= p.1 < c0 + k))
    &&& new.chunk_map() == old.chunk_map().union_prefer_right(zip_chunks(c0, data, entries, k))
    &&& new.packs == old.packs
    &&& new.next_pack == old.next_pack
    &&& new.admins == old.admins
}

/// The content type under which an archive entry becomes a sticker, if it does.
pub fn zip_image_content_type(name: &str, is_dir: bool) -> (r: Option<&'static str>)
    ensures
        r is None <==> zip_image_type(name@, is_dir) is None,
        r matches Some(t) ==> zip_image_type(name@, is_dir) == Some(t@),
{
    if is_dir || starts_with_text(name, "__MACOSX") || starts_with_text(name, ".") {
        return None;
    }
    extension_to_content_type(after_last_char(name, '.'))
}

/// The name a sticker gets from the path of its file.
pub fn sticker_name_of(filename: &str) -> (r: String)
    ensures
        r@ == sticker_name(filename@),
{
    let base = after_last_char(filename, '/');
    before_first_char(base, '.').to_owned()
}

/// A copy of `v[lo..hi]`.
fn copy_range(v: &Vec<u8>, lo: usize, hi: usize) -> (r: Vec<u8>)
    requires
        lo <= hi <= v@.len(),
    ensures
        r@ == v@.subrange(lo as int, hi as int),
{
    let mut out: Vec<u8> = Vec::new();
    let mut i: usize = lo;
    while i < hi
        invariant
            lo <= i <= hi,
            hi <= v@.len(),
            out@ == v@.subrange(lo as int, i as int),
        decreases hi - i,
    {
        out.push(v[i]);
        i = i + 1;
    }
    out
}

impl StickerState {
    /// Adds one complete binary sticker made from the bytes of an archive file, with its
    /// chunks, to a pack; its id is the next sticker id.
    pub fn add_zip_sticker(&mut self, pack_id: u32, filename: &str, content_type: &str, data: Vec<u8>, now: u64) -> (r: u32)
        requires
            old(self).wf(),
            counter_value(old(self).next_sticker) < u32::MAX,
            data@.len() <= u32::MAX,
        ensures
            final(self).wf(),
            r == counter_value(old(self).next_sticker),
            counter_value(final(self).next_sticker) == r + 1,
            final(self).stickers.as_map().contains_key(r),
            final(self).stickers.as_map().remove(r) == old(self).stickers.as_map().remove(r),
            final(self).stickers.as_map()[r]@ == zip_sticker(r, pack_id, filename@, content_type@, data@.len(), now),
            final(self).pairs() == old(self).pairs().insert((pack_id as u64, r as u64)),
            final(self).chunk_map() == old(self).chunk_map().union_prefer_right(data_chunks(r, data@)),
            final(self).packs == old(self).packs,
            final(self).next_pack == old(self).next_pack,
            final(self).admins == old(self).admins,
    {
        let n = data.len();
        let size = n as u64;
        let chunk_count: u32 = (n / MAX_CHUNK_SIZE + if n % MAX_CHUNK_SIZE != 0 { 1 } else { 0 }) as u32;
        proof {
            let m = MAX_CHUNK_SIZE as nat;
            assert(chunk_count as nat == chunk_total(n as nat)) by (nonlinear_arith)
                requires
                    m == 1572864,
                    n <= u32::MAX,
                    chunk_count as nat == n as nat / m + if n as nat % m != 0 { 1nat } else { 0nat },
            ;
        }
        let id64 = self.next_sticker_id();
        let id = id64 as u32;
        let sticker = Sticker {
            id,
            pack_id,
            name: sticker_name_of(filename),
            tags: Vec::new(),
            storage_type: StorageType::Binary { content_type: content_type.to_owned(), size, chunk_count },
            upload_status: UploadStatus::Complete,
            width: None,
            height: None,
            created_at: now,
            updated_at: now,
        };
        proof {
            assert(crate::sticker_server::types::texts(sticker.tags@) =~= Seq::<Seq<char>>::empty());
        }
        let ghost before = self.stickers;
        self.stickers.insert(id, sticker);
        proof {
            assert(self.stickers.as_map().remove(id) =~= before.as_map().remove(id));
            assert forall|k: int| 0 <= k < self.stickers.entries@.len() implies #[trigger] self.stickers.entries@[k].0
                == self.stickers.entries@[k].1.id by {
                if k < before.entries@.len() && !(before.has(id) && k == before.pos(id)) {
                    assert(self.stickers.entries@[k] == before.entries@[k]);
                }
            }
        }
        self.pack_stickers.insert(pack_id as u64, id as u64);
        let ghost base = self.chunk_map();
        let ghost mid = *self;
        let mut c: u32 = 0;
        while c < chunk_count
            invariant
                n == data@.len(),
                n <= u32::MAX,
                chunk_count as nat == chunk_total(n as nat),
                c <= chunk_count,
                self.wf(),
                self.chunk_map() == base.union_prefer_right(
                    Map::new(
                        |k: (u32, u32)| k.0 == id && k.1 < c,
                        |k: (u32, u32)| chunk_slice(data@, k.1 as nat),
                    ),
                ),
                self.stickers == mid.stickers,
                self.pack_stickers == mid.pack_stickers,
                self.packs == mid.packs,
                self.next_pack == mid.next_pack,
                self.next_sticker == mid.next_sticker,
                self.admins == mid.admins,
            decreases chunk_count - c,
        {
            proof {
                let m = MAX_CHUNK_SIZE as nat;
                assert((c as nat) * m < n) by (nonlinear_arith)
                    requires
                        m == 1572864,
                        (c as nat) < ((n + m - 1) as nat) / m,
                ;
            }
            let lo64: u64 = c as u64 * MAX_CHUNK_SIZE as u64;
            let lo: usize = lo64 as usize;
            let hi: usize = if MAX_CHUNK_SIZE < n - lo { lo + MAX_CHUNK_SIZE } else { n };
            let piece = copy_range(&data, lo, hi);
            assert(piece@ == chunk_slice(data@, c as nat));
            self.chunks.insert((id, c), piece);
            proof {
                assert(self.chunk_map() =~= base.union_prefer_right(
                    Map::new(
                        |k: (u32, u32)| k.0 == id && k.1 < c + 1,
                        |k: (u32, u32)| chunk_slice(data@, k.1 as nat),
                    ),
                ));
            }
            c = c + 1;
        }
        proof {
            assert(self.chunk_map() =~= old(self).chunk_map().union_prefer_right(data_chunks(id, data@)));
        }
        id
    }
}

/// The texts of (name, content type) pairs.
pub open spec fn entry_texts(v: Seq<(String, String)>) -> Seq<(Seq<char>, Seq<char>)> {
    v.map_values(|p: (String, String)| (p.0@, p.1@))
}

/// `new` is `old` after importing the listed image files of an archive, stopping at the
/// first file that cannot be read; `r` is what the import answers.
pub open spec fn zip_import(old: &StickerState, new: &StickerState, pack_id: u32, data: Seq<u8>, entries: Seq<(Seq<char>, Seq<char>)>, now: u64, r: Result<Vec<u32>, Error>) -> bool {
    let c0 = counter_value(old.next_sticker) as nat;
    ||| {
        &&& files_read(data, entries, entries.len())
        &&& zip_added(old, new, pack_id, data, entries, entries.len(), now)
        &&& r matches Ok(ids) && ids@.len() == entries.len() && forall|j: int| 0 <= j < entries.len() ==> #[trigger] ids@[j] == (c0 + j) as u32
    }
    ||| exists|k: nat|
        {
            &&& k < entries.len()
            &&& files_read(data, entries, k)
            &&& #[trigger] zip_file(data, entries[k as int].0) matches Err(d) && (r matches Err(Error::ZipExtractFailed { detail }) && detail@ == d)
            &&& zip_added(old, new, pack_id, data, entries, k, now)
        }
}

/// What importing the archive `data` into a pack does, from the size check to the last
/// file read.
pub open spec fn zip_outcome(old: &StickerState, new: &StickerState, pack_id: u32, data: Seq<u8>, now: u64, r: Result<Vec<u32>, Error>) -> bool {
    if data.len() > MAX_ZIP_SIZE {
        r == Err::<Vec<u32>, Error>(Error::ZipTooLarge) && *new == *old
    } else {
        match zip_open_outcome(data) {
            Err(m) => (r matches Err(Error::ZipExtractFailed { detail }) && detail@ == "Failed to open zip: "@ + m) && *new == *old,
            Ok(_) => match zip_listing(data, zip_entry_count(data) as nat) {
                Err(d) => (r matches Err(Error::ZipExtractFailed { detail }) && detail@ == d) && *new == *old,
                Ok(entries) => if entries.len() == 0 {
                    r == Err::<Vec<u32>, Error>(Error::ZipNoImagesFound) && *new == *old
                } else if entries.len() > MAX_ZIP_IMAGES {
                    r == Err::<Vec<u32>, Error>(Error::ZipTooManyImages) && *new == *old
                } else {
                    zip_import(old, new, pack_id, data, entries, now, r)
                },
            },
        }
    }
}

proof fn lemma_listing_err_persists(data: Seq<u8>, i: nat, n: nat)
    requires
        i <= n,
        zip_listing(data, i) is Err,
    ensures
        zip_listing(data, n) == zip_listing(data, i),
    decreases n - i,
{
    if i < n {
        lemma_listing_err_persists(data, i, (n - 1) as nat);
    }
}

/// The image entries of an opened archive with their content types, in archive order.
pub fn list_zip_images(archive: &mut ZipArchive<Cursor<Vec<u8>>>) -> (r: Result<Vec<(String, String)>, Error>)
    ensures
        zip_source(*final(archive)) == zip_source(*old(archive)),
        match zip_listing(zip_source(*old(archive)), zip_entry_count(zip_source(*old(archive))) as nat) {
            Ok(entries) => r matches Ok(v) && entry_texts(v@) == entries,
            Err(d) => r matches Err(Error::ZipExtractFailed { detail }) && detail@ == d,
        },
{
    let ghost src = zip_source(*archive);
    let n = zip_len(archive);
    let mut out: Vec<(String, String)> = Vec::new();
    let mut i: usize = 0;
    assert(entry_texts(out@) =~= Seq::<(Seq<char>, Seq<char>)>::empty());
    while i < n
        invariant
            zip_source(*archive) == src,
            src == zip_source(*old(archive)),
            n == zip_entry_count(src),
            i <= n,
            zip_listing(src, i as nat) == Ok::<Seq<(Seq<char>, Seq<char>)>, Seq<char>>(entry_texts(out@)),
        decreases n - i,
    {
        match zip_entry(archive, i) {
            Ok((name, is_dir)) => {
                match zip_image_content_type(name.as_str(), is_dir) {
                    Some(t) => {
                        let ghost before = out@;
                        out.push((name, t.to_owned()));
                        assert(entry_texts(out@) =~= entry_texts(before).push((name@, t@)));
                    },
                    None => {},
                }
            },
            Err(e) => {
                let mut detail = String::from_str("Failed to read zip entry ");
                let number = decimal_string(i as u64);
                detail.append(number.as_str());
                detail.append(": ");
                detail.append(e.as_str());
                proof {
                    assert(detail@ =~= entry_failure(i as nat, e@));
                    assert(zip_listing(src, (i + 1) as nat) == Err::<Seq<(Seq<char>, Seq<char>)>, Seq<char>>(entry_failure(i as nat, e@)));
                    lemma_listing_err_persists(src, (i + 1) as nat, n as nat);
                }
                return Err(Error::ZipExtractFailed { detail });
            },
        }
        i = i + 1;
    }
    Ok(out)
}

/// The failure to read a file of an archive, as the import reports it.
fn read_failure(name: &str, what: &str, e: &str) -> (r: Error)
    ensures
        r matches Error::ZipExtractFailed { detail } && detail@ == what@ + name@ + ": "@ + e@,
{
    let mut detail = String::from_str(what);
    detail.append(name);
    detail.append(": ");
    detail.append(e);
    Error::ZipExtractFailed { detail }
}

impl StickerState {
    /// Imports the images of a zip archive into a pack: each image file becomes a
    /// complete binary sticker with its chunks, in archive order. Archives over the size
    /// limit, unreadable archives and entries, archives without images and archives with
    /// too many images are refused before anything is stored; a file that cannot be read
    /// stops the import, keeping the stickers made before it.
    pub fn create_pack_from_zip(&mut self, pack_id: u32, zip_data: Vec<u8>, now: u64) -> (r: Result<Vec<u32>, Error>)
        requires
            old(self).wf(),
            counter_value(old(self).next_sticker) + MAX_ZIP_IMAGES < u32::MAX,
        ensures
            final(self).wf(),
            zip_outcome(old(self), final(self), pack_id, zip_data@, now, r),
    {
        if zip_data.len() > MAX_ZIP_SIZE {
            return Err(Error::ZipTooLarge);
        }
        let ghost data = zip_data@;
        let mut archive = match zip_open(zip_data) {
            Ok(a) => a,
            Err(e) => {
                let detail = joined("Failed to open zip: ", e.as_str());
                return Err(Error::ZipExtractFailed { detail });
            },
        };
        let entries = list_zip_images(&mut archive)?;
        let ghost ev = entry_texts(entries@);
        if entries.len() == 0 {
            return Err(Error::ZipNoImagesFound);
        }
        if entries.len() > MAX_ZIP_IMAGES {
            return Err(Error::ZipTooManyImages);
        }
        self.import_zip_files(&mut archive, &entries, pack_id, now)
    }

    /// Makes a sticker of each listed file of an opened archive, in order, stopping at
    /// the first file that cannot be read.
    pub fn import_zip_files(
        &mut self,
        archive: &mut ZipArchive<Cursor<Vec<u8>>>,
        entries: &Vec<(String, String)>,
        pack_id: u32,
        now: u64,
    ) -> (r: Result<Vec<u32>, Error>)
        requires
            old(self).wf(),
            counter_value(old(self).next_sticker) + MAX_ZIP_IMAGES < u32::MAX,
            entries@.len() <= MAX_ZIP_IMAGES,
        ensures
            final(self).wf(),
            zip_source(*final(archive)) == zip_source(*old(archive)),
            zip_import(old(self), final(self), pack_id, zip_source(*old(archive)), entry_texts(entries@), now, r),
    {
        let ghost data = zip_source(*archive);
        let ghost ev = entry_texts(entries@);
        let ghost old_state = *self;
        let ghost c0 = counter_value(old_state.next_sticker) as nat;
        let mut ids: Vec<u32> = Vec::new();
        let mut k: usize = 0;
        proof {
            assert(old_state.stickers.as_map().remove_keys(Set::new(|id: u32| c0 <= id < c0 + 0)) =~= old_state.stickers.as_map().remove_keys(Set::new(|id: u32| c0 <= id < c0 + 0)));
            assert(old_state.pairs().union(Set::new(|p: (u64, u64)| p.0 == pack_id as u64 && c0 <= p.1 < c0 + 0)) =~= old_state.pairs());
            assert(old_state.chunk_map().union_prefer_right(zip_chunks(c0, data, ev, 0)) =~= old_state.chunk_map());
        }
        while k < entries.len()
            invariant
                self.wf(),
                old_state == *old(self),
                data == zip_source(*old(archive)),
                zip_source(*archive) == data,
                ev == entry_texts(entries@),
                entries@.len() <= MAX_ZIP_IMAGES,
                c0 == counter_value(old_state.next_sticker),
                c0 + MAX_ZIP_IMAGES < u32::MAX,
                k <= entries@.len(),
                files_read(data, ev, k as nat),
                zip_added(&old_state, self, pack_id, data, ev, k as nat, now),
                ids@.len() == k,
                forall|j: int| 0 <= j < k ==> #[trigger] ids@[j] == (c0 + j) as u32,
            decreases entries@.len() - k,
        {
            let name = entries[k].0.as_str();
            let content_type = entries[k].1.as_str();
            assert(ev[k as int] == (name@, content_type@));
            let bytes = match zip_read(archive, name) {
                Ok(b) => b,
                Err(ZipReadFailure::Lookup(e)) => {
                    let r = read_failure(name, "Failed to read ", e.as_str());
                    proof {
                        let kn = k as nat;
                        assert(zip_file(data, ev[kn as int].0) matches Err(d) && (r matches Error::ZipExtractFailed { detail } && detail@ =~= d));
                        assert(files_read(data, ev, kn));
                        assert(zip_added(&old_state, self, pack_id, data, ev, kn, now));
                    }
                    return Err(r);
                },
                Err(ZipReadFailure::Extract(e)) => {
                    let r = read_failure(name, "Failed to extract ", e.as_str());
                    proof {
                        let kn = k as nat;
                        assert(zip_file(data, ev[kn as int].0) matches Err(d) && (r matches Error::ZipExtractFailed { detail } && detail@ =~= d));
                        assert(files_read(data, ev, kn));
                        assert(zip_added(&old_state, self, pack_id, data, ev, kn, now));
                    }
                    return Err(r);
                },
            };
            if bytes.len() > u32::MAX as usize {
                let r = read_failure(name, "Failed to extract ", "file too large");
                proof {
                    reveal_strlit("file too large");
                    reveal_strlit(": file too large");
                    reveal_strlit(": ");
                    let kn = k as nat;
                    assert(zip_file(data, ev[kn as int].0) matches Err(d) && (r matches Error::ZipExtractFailed { detail } && detail@ =~= d));
                    assert(files_read(data, ev, kn));
                }
                return Err(r);
            }
            let ghost before = *self;
            let id = self.add_zip_sticker(pack_id, name, content_type, bytes, now);
            proof {
                assert(file_bytes(data, ev[k as int].0) == bytes@);
                let kk = k as nat;
                assert forall|j: int| 0 <= j < kk + 1 implies zip_file(data, #[trigger] ev[j].0) is Ok by {
                    if j < kk {
                        assert(files_read(data, ev, kk));
                    }
                }
                assert forall|j: int|
                    0 <= j < kk + 1 implies self.stickers.as_map().contains_key((c0 + j) as u32) && #[trigger] self.stickers.as_map()[(c0 + j) as u32]@ == zip_sticker(
                        (c0 + j) as u32,
                        pack_id,
                        ev[j].0,
                        ev[j].1,
                        file_bytes(data, ev[j].0).len(),
                        now,
                    ) by {
                    if j < kk {
                        assert(before.stickers.as_map()[(c0 + j) as u32]@ == zip_sticker(
                            (c0 + j) as u32,
                            pack_id,
                            ev[j].0,
                            ev[j].1,
                            file_bytes(data, ev[j].0).len(),
                            now,
                        ));
                        let x = (c0 + j) as u32;
                        assert(x != id);
                        assert(before.stickers.as_map().remove(id).contains_key(x));
                        assert(self.stickers.as_map().remove(id).contains_key(x));
                        assert(self.stickers.as_map().remove(id)[x] == before.stickers.as_map().remove(id)[x]);
                    } else {
                        assert((c0 + j) as u32 == id);
                    }
                }
                let set_k = Set::new(|x: u32| c0 <= x < c0 + kk);
                let set_k1 = Set::new(|x: u32| c0 <= x < c0 + kk + 1);
                assert(self.stickers.as_map().remove_keys(set_k1) =~= old_state.stickers.as_map().remove_keys(set_k1)) by {
                    assert forall|x: u32| #[trigger] self.stickers.as_map().remove_keys(set_k1).contains_key(x) == old_state.stickers.as_map().remove_keys(set_k1).contains_key(x) by {
                        if !set_k1.contains(x) {
                            assert(before.stickers.as_map().remove_keys(set_k).contains_key(x) == old_state.stickers.as_map().remove_keys(set_k).contains_key(x));
                            assert(self.stickers.as_map().remove(id).contains_key(x) == before.stickers.as_map().remove(id).contains_key(x));
                        }
                    }
                    assert forall|x: u32| #[trigger] self.stickers.as_map().remove_keys(set_k1).contains_key(x) implies self.stickers.as_map().remove_keys(set_k1)[x] == old_state.stickers.as_map().remove_keys(set_k1)[x] by {
                        assert(!set_k1.contains(x));
                        assert(!set_k.contains(x));
                        assert(x != id);
                        assert(before.stickers.as_map().remove_keys(set_k).contains_key(x));
                        assert(before.stickers.as_map().remove_keys(set_k)[x] == old_state.stickers.as_map().remove_keys(set_k)[x]);
                        assert(self.stickers.as_map().remove(id).contains_key(x));
                        assert(self.stickers.as_map().remove(id)[x] == before.stickers.as_map().remove(id)[x]);
                    }
                }
                assert(self.pairs() =~= old_state.pairs().union(Set::new(|p: (u64, u64)| p.0 == pack_id as u64 && c0 <= p.1 < c0 + kk + 1)));
                assert(self.chunk_map() =~= old_state.chunk_map().union_prefer_right(zip_chunks(c0, data, ev, kk + 1)));
            }
            ids.push(id);
            k = k + 1;
        }
        Ok(ids)
    }

    /// Lets an administrator import a zip archive of images into an existing pack.
    pub fn upload_zip(&mut self, caller: PrincipalId, now: u64, pack_id: u32, zip_data: Vec<u8>) -> (r: Result<Vec<u32>, Error>)
        requires
            old(self).wf(),
            counter_value(old(self).next_sticker) + MAX_ZIP_IMAGES < u32::MAX,
        ensures
            final(self).wf(),
            !old(self).admin(caller) ==> r == Err::<Vec<u32>, Error>(Error::NotAdmin) && *final(self) == *old(self),
            old(self).admin(caller) && !old(self).packs.as_map().contains_key(pack_id) ==> r == Err::<Vec<u32>, Error>(Error::PackNotFound) && *final(self) == *old(self),
            old(self).admin(caller) && old(self).packs.as_map().contains_key(pack_id) ==> zip_outcome(old(self), final(self), pack_id, zip_data@, now, r),
    {
        if let Err(e) = self.require_admin(caller) {
            return Err(e);
        }
        if !self.packs.contains(&pack_id) {
            return Err(Error::PackNotFound);
        }
        self.create_pack_from_zip(pack_id, zip_data, now)
    }
}

} // verus!
