//! Calls into outside crates (and std functions that vstd does not specify) that the
//! verified logic makes, each behind a small trusted wrapper.
use vstd::prelude::*;
use hmac::{Hmac, Mac};
use sha2::Sha256;
use std::io::{Cursor, Read};
use zip::ZipArchive;

verus! {

/// What `imagesize::blob_size` reads from the header of an image: its (width, height),
/// or nothing when the format is not recognized or the data is too short.
pub uninterp spec fn image_dimensions(data: Seq<u8>) -> Option<(usize, usize)>;

/// `imagesize::blob_size`: the dimensions found in the header of `data`, if any. The
/// result depends on the bytes alone; which headers are recognized is not stated.
#[verifier::external_body]
pub(crate) fn blob_dimensions(data: &[u8]) -> (r: Option<(usize, usize)>)
    ensures
        r == image_dimensions(data@),
{
    imagesize::blob_size(data).ok().map(|s| (s.width, s.height))
}

/// The HMAC-SHA256 tag of `msg` under `key`.
pub uninterp spec fn hmac_sha256(key: Seq<u8>, msg: Seq<u8>) -> Seq<u8>;

/// `Hmac::<Sha256>::new_from_slice(key)`, `update(msg)`, `finalize().into_bytes()`:
/// the 32-byte tag. `new_from_slice` of `hmac` accepts keys of every length (it hashes
/// long keys and pads short ones), so the `expect` never fires.
#[verifier::external_body]
pub(crate) fn hmac_sha256_tag(key: &[u8], msg: &[u8]) -> (r: Vec<u8>)
    ensures
        r@ == hmac_sha256(key@, msg@),
        r@.len() == 32,
{
    let mut mac = <Hmac<Sha256> as Mac>::new_from_slice(key).expect("hmac accepts any key");
    mac.update(msg);
    mac.finalize().into_bytes().to_vec()
}

/// The lower-case hexadecimal digit of a nibble.
pub open spec fn hex_digit(n: u8) -> char {
    if n < 10 {
        ((48 + n) as u32) as char
    } else {
        ((87 + n) as u32) as char
    }
}

/// The lower-case hexadecimal text of bytes, high nibble first.
pub open spec fn hex_text(data: Seq<u8>) -> Seq<char>
    decreases data.len(),
{
    if data.len() == 0 {
        Seq::empty()
    } else {
        hex_text(data.drop_last()) + seq![hex_digit(data.last() / 16), hex_digit(data.last() % 16)]
    }
}

/// `hex::encode`: two lower-case hex digits per byte, high nibble first
/// (`HEX_CHARS_LOWER` of the crate, indexed by `byte >> 4` then `byte & 0x0F`).
#[verifier::external_body]
pub(crate) fn hex_encode(data: &[u8]) -> (r: String)
    ensures
        r@ == hex_text(data@),
{
    hex::encode(data)
}

/// What `String::from_utf8_lossy` makes of bytes.
pub uninterp spec fn utf8_lossy(b: Seq<u8>) -> Seq<char>;

/// `String::from_utf8_lossy(b).into_owned()`: valid UTF-8 is decoded as it stands;
/// invalid sequences become U+FFFD, so the text of invalid bytes holds U+FFFD. How
/// many U+FFFD stand for which invalid bytes is not stated.
#[verifier::external_body]
pub(crate) fn from_utf8_lossy(b: &[u8]) -> (r: String)
    ensures
        r@ == utf8_lossy(b@),
        vstd::utf8::valid_utf8(b@) ==> r@ == vstd::utf8::decode_utf8(b@),
        !vstd::utf8::valid_utf8(b@) ==> r@.contains('\u{FFFD}'),
{
    String::from_utf8_lossy(b).into_owned()
}

#[verifier::external_type_specification]
#[verifier::external_body]
#[verifier::reject_recursive_types(R)]
pub struct ExZipArchive<R>(ZipArchive<R>);

#[verifier::external_type_specification]
#[verifier::external_body]
#[verifier::reject_recursive_types(T)]
pub struct ExCursor<T>(Cursor<T>);

/// The bytes that an opened archive reads from.
pub uninterp spec fn zip_source(a: ZipArchive<Cursor<Vec<u8>>>) -> Seq<u8>;

/// What `ZipArchive::new` makes of these bytes: `Ok` when the central directory reads,
/// else the text of the error.
pub uninterp spec fn zip_open_outcome(data: Seq<u8>) -> Result<(), Seq<char>>;

/// `ZipArchive::new` over a cursor on `data`.
#[verifier::external_body]
pub(crate) fn zip_open(data: Vec<u8>) -> (r: Result<ZipArchive<Cursor<Vec<u8>>>, String>)
    ensures
        r is Ok <==> zip_open_outcome(data@) is Ok,
        r matches Ok(a) ==> zip_source(a) == data@,
        r matches Err(e) ==> (zip_open_outcome(data@) matches Err(m) && m == e@),
{
    ZipArchive::new(Cursor::new(data)).map_err(|e| format!("{}", e))
}

/// The number of entries in the central directory of an archive.
pub uninterp spec fn zip_entry_count(data: Seq<u8>) -> usize;

/// `ZipArchive::len`.
#[verifier::external_body]
pub(crate) fn zip_len(a: &ZipArchive<Cursor<Vec<u8>>>) -> (r: usize)
    ensures
        r == zip_entry_count(zip_source(*a)),
{
    a.len()
}

/// What `ZipArchive::by_index` gives for entry `i`: its name and whether it is a
/// directory, or the text of the error.
pub uninterp spec fn zip_entry_meta(data: Seq<u8>, i: usize) -> Result<(Seq<char>, bool), Seq<char>>;

/// `ZipArchive::by_index`, then `name` and `is_dir` of the entry.
#[verifier::external_body]
pub(crate) fn zip_entry(a: &mut ZipArchive<Cursor<Vec<u8>>>, i: usize) -> (r: Result<(String, bool), String>)
    ensures
        zip_source(*final(a)) == zip_source(*old(a)),
        r is Ok <==> zip_entry_meta(zip_source(*old(a)), i) is Ok,
        r matches Ok(p) ==> (zip_entry_meta(zip_source(*old(a)), i) matches Ok(m) && m.0 == p.0@ && m.1 == p.1),
        r matches Err(e) ==> (zip_entry_meta(zip_source(*old(a)), i) matches Err(m) && m == e@),
{
    match a.by_index(i) {
        Ok(f) => Ok((f.name().to_string(), f.is_dir())),
        Err(e) => Err(format!("{}", e)),
    }
}

/// Why the contents of a named entry could not be had.
#[derive(Clone, Debug, PartialEq, Eq)]
pub enum ZipReadFailure {
    /// `by_name` failed, with this error text.
    Lookup(String),
    /// Reading the entry failed, with this error text.
    Extract(String),
}

/// What reading the entry named `name` gives: its bytes, or (whether the lookup
/// rather than the extraction failed, error text).
pub uninterp spec fn zip_named_contents(data: Seq<u8>, name: Seq<char>) -> Result<Seq<u8>, (bool, Seq<char>)>;

/// `ZipArchive::by_name`, then `read_to_end` of the entry.
#[verifier::external_body]
pub(crate) fn zip_read(a: &mut ZipArchive<Cursor<Vec<u8>>>, name: &str) -> (r: Result<Vec<u8>, ZipReadFailure>)
    ensures
        zip_source(*final(a)) == zip_source(*old(a)),
        r is Ok <==> zip_named_contents(zip_source(*old(a)), name@) is Ok,
        r matches Ok(v) ==> (zip_named_contents(zip_source(*old(a)), name@) matches Ok(m) && m == v@),
        r matches Err(ZipReadFailure::Lookup(e)) ==> (zip_named_contents(zip_source(*old(a)), name@) matches Err(m) && m.0 && m.1 == e@),
        r matches Err(ZipReadFailure::Extract(e)) ==> (zip_named_contents(zip_source(*old(a)), name@) matches Err(m) && !m.0 && m.1 == e@),
{
    let mut file = match a.by_name(name) {
        Ok(f) => f,
        Err(e) => return Err(ZipReadFailure::Lookup(format!("{}", e))),
    };
    let mut data = Vec::new();
    match file.read_to_end(&mut data) {
        Ok(_) => Ok(data),
        Err(e) => Err(ZipReadFailure::Extract(format!("{}", e))),
    }
}

} // verus!
