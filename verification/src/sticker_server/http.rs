//! Serving stickers over HTTP: `/sticker/{id}` and `/{pack_name}/{index}`.
use vstd::prelude::*;
use vstd::string::StrSliceExecFns;
use crate::external::{from_utf8_lossy, utf8_lossy};
use crate::text::{
    after_first, before_first, before_first_char, first_index_of, owned, parse_u32,
    parse_unsigned, parse_usize, starts, starts_with_text, utf8_bytes,
};
use super::state::{assembled, StickerState};
use super::types::{StorageModel, StorageType, UploadModel, UploadStatus};

verus! {

/// An HTTP request as the canister receives it.
#[derive(Clone, Debug, PartialEq, Eq)]
pub struct HttpRequest {
    pub method: String,
    pub url: String,
    pub headers: Vec<(String, String)>,
    pub body: Vec<u8>,
}

/// An HTTP response of the sticker server.
#[derive(Clone, Debug, PartialEq, Eq)]
pub struct HttpResponse {
    pub status_code: u16,
    pub headers: Vec<(String, String)>,
    pub body: Vec<u8>,
}

/// The spec model of an HTTP response.
pub ghost struct ResponseModel {
    pub status_code: u16,
    pub headers: Seq<(Seq<char>, Seq<char>)>,
    pub body: Seq<u8>,
}

/// The texts of header pairs.
pub open spec fn header_texts(h: Seq<(String, String)>) -> Seq<(Seq<char>, Seq<char>)> {
    h.map_values(|p: (String, String)| (p.0@, p.1@))
}

impl View for HttpResponse {
    type V = ResponseModel;

    open spec fn view(&self) -> ResponseModel {
        ResponseModel {
            status_code: self.status_code,
            headers: header_texts(self.headers@),
            body: self.body@,
        }
    }
}

/// A 404 response with a plain-text message.
pub open spec fn plain_404(message: Seq<char>) -> ResponseModel {
    ResponseModel {
        status_code: 404,
        headers: seq![("Content-Type"@, "text/plain"@)],
        body: vstd::utf8::encode_utf8(message),
    }
}

/// How the server answers a request for sticker `sticker_id`.
pub open spec fn sticker_response(s: &StickerState, sticker_id: u32) -> ResponseModel {
    if !s.stickers.as_map().contains_key(sticker_id) {
        plain_404("Sticker not found"@)
    } else {
        let st = s.stickers.as_map()[sticker_id]@;
        match st.storage_type {
            StorageModel::Binary { content_type, chunk_count, .. } => if st.upload_status != UploadModel::Complete {
                plain_404("Upload not complete"@)
            } else {
                ResponseModel {
                    status_code: 200,
                    headers: seq![("Content-Type"@, content_type), ("Cache-Control"@, "public, max-age=604800"@)],
                    body: assembled(s.chunk_map(), sticker_id, chunk_count as nat),
                }
            },
            StorageModel::External { url } => ResponseModel {
                status_code: 302,
                headers: seq![("Location"@, url)],
                body: Seq::empty(),
            },
        }
    }
}

/// A hexadecimal digit, as `char::to_digit(16)` reads it.
pub open spec fn hex_value(b: u8) -> Option<u8> {
    if 48 <= b <= 57 {
        Some((b - 48) as u8)
    } else if 97 <= b <= 102 {
        Some((b - 87) as u8)
    } else if 65 <= b <= 70 {
        Some((b - 55) as u8)
    } else {
        None
    }
}

/// The bytes of `b[i..]` with `%XX` escapes decoded and `+` read as a space.
pub open spec fn percent_decoded(b: Seq<u8>, i: int) -> Seq<u8>
    decreases b.len() - i,
{
    if i < 0 || i >= b.len() {
        Seq::empty()
    } else if b[i] == 37u8 && i + 2 < b.len() && hex_value(b[i + 1]) is Some && hex_value(b[i + 2]) is Some {
        seq![(hex_value(b[i + 1]).unwrap() * 16 + hex_value(b[i + 2]).unwrap()) as u8] + percent_decoded(b, i + 3)
    } else if b[i] == 43u8 {
        seq![32u8] + percent_decoded(b, i + 1)
    } else {
        seq![b[i]] + percent_decoded(b, i + 1)
    }
}

fn hex_digit_value(b: u8) -> (r: Option<u8>)
    ensures
        r == hex_value(b),
{
    if 48 <= b && b <= 57 {
        Some(b - 48)
    } else if 97 <= b && b <= 102 {
        Some(b - 87)
    } else if 65 <= b && b <= 70 {
        Some(b - 55)
    } else {
        None
    }
}

/// The text that decoded bytes stand for: valid UTF-8 as it decodes; otherwise what
/// lossy decoding makes of them.
pub open spec fn decoded_text(b: Seq<u8>) -> Seq<char> {
    if vstd::utf8::valid_utf8(b) {
        vstd::utf8::decode_utf8(b)
    } else {
        utf8_lossy(b)
    }
}

/// Decodes `%XX` escapes and `+` in a path segment; invalid UTF-8 in the result becomes
/// U+FFFD.
pub fn percent_decode(s: &str) -> (r: String)
    ensures
        r@ == utf8_lossy(percent_decoded(vstd::utf8::encode_utf8(s@), 0)),
        r@ == decoded_text(percent_decoded(vstd::utf8::encode_utf8(s@), 0)),
        !vstd::utf8::valid_utf8(percent_decoded(vstd::utf8::encode_utf8(s@), 0)) ==> r@.contains('\u{FFFD}'),
{
    let bytes = s.as_bytes();
    let ghost b = bytes@;
    let mut out: Vec<u8> = Vec::new();
    let mut i: usize = 0;
    while i < bytes.len()
        invariant
            b == bytes@,
            i <= b.len(),
            out@ + percent_decoded(b, i as int) == percent_decoded(b, 0),
        decreases b.len() - i,
    {
        if bytes[i] == 37u8 && bytes.len() >= 3 && i < bytes.len() - 2 {
            match (hex_digit_value(bytes[i + 1]), hex_digit_value(bytes[i + 2])) {
                (Some(h), Some(l)) => {
                    let ghost before = out@;
                    out.push(h * 16 + l);
                    assert(out@ + percent_decoded(b, i + 3) =~= before + percent_decoded(b, i as int));
                    i = i + 3;
                    continue;
                },
                _ => {},
            }
        } else if bytes[i] == 43u8 {
            let ghost before = out@;
            out.push(32u8);
            assert(out@ + percent_decoded(b, i + 1) =~= before + percent_decoded(b, i as int));
            i = i + 1;
            continue;
        }
        let ghost before = out@;
        out.push(bytes[i]);
        assert(out@ + percent_decoded(b, i + 1) =~= before + percent_decoded(b, i as int));
        i = i + 1;
    }
    assert(out@ =~= percent_decoded(b, 0));
    from_utf8_lossy(out.as_slice())
}

/// `s` without its leading slashes.
pub open spec fn trim_slashes(s: Seq<char>) -> Seq<char>
    decreases s.len(),
{
    if s.len() > 0 && s[0] == '/' {
        trim_slashes(s.drop_first())
    } else {
        s
    }
}

proof fn lemma_trim_slashes(s: Seq<char>, k: int)
    requires
        0 <= k <= s.len(),
        forall|j: int| 0 <= j < k ==> s[j] == '/',
        k < s.len() ==> s[k] != '/',
    ensures
        trim_slashes(s) == s.subrange(k, s.len() as int),
    decreases k,
{
    if k == 0 {
        assert(s.subrange(0, s.len() as int) =~= s);
    } else {
        lemma_trim_slashes(s.drop_first(), k - 1);
        assert(s.drop_first().subrange(k - 1, s.len() - 1) =~= s.subrange(k, s.len() as int));
    }
}

fn trim_leading_slashes(s: &str) -> (r: &str)
    ensures
        r@ == trim_slashes(s@),
{
    let n = s.unicode_len();
    let mut k: usize = 0;
    while k < n && s.get_char(k) == '/'
        invariant
            n == s@.len(),
            k <= n,
            forall|j: int| 0 <= j < k ==> s@[j] == '/',
        decreases n - k,
    {
        k = k + 1;
    }
    proof {
        lemma_trim_slashes(s@, k as int);
    }
    s.substring_char(k, n)
}

/// The sticker id of a `/sticker/{id}` path.
pub open spec fn sticker_path_id(path: Seq<char>) -> Option<nat> {
    if starts(path, "/sticker/"@) {
        parse_unsigned(vstd::utf8::encode_utf8(path.subrange(9, path.len() as int)), u32::MAX as nat)
    } else {
        None
    }
}

/// The (encoded pack name, 1-based index) of a `/{pack_name}/{index}` path.
pub open spec fn pack_path(path: Seq<char>) -> Option<(Seq<char>, nat)> {
    let t = trim_slashes(path);
    if t.contains('/') {
        match parse_unsigned(vstd::utf8::encode_utf8(after_first(t, '/')), usize::MAX as nat) {
            Some(index) => if index >= 1 {
                Some((before_first(t, '/'), index))
            } else {
                None
            },
            None => None,
        }
    } else {
        None
    }
}

impl StickerState {
    /// Some pack has this name.
    pub open spec fn has_pack_named(&self, name: Seq<char>) -> bool {
        exists|i: int| 0 <= i < self.packs.entries@.len() && #[trigger] self.packs.entries@[i].1.name@ == name
    }

    /// The id of the first pack, in id order, with this name.
    pub open spec fn pack_named(&self, name: Seq<char>) -> u32 {
        let i = choose|i: int|
            0 <= i < self.packs.entries@.len() && #[trigger] self.packs.entries@[i].1.name@ == name && forall|j: int|
                0 <= j < i ==> self.packs.entries@[j].1.name@ != name;
        self.packs.entries@[i].1.id
    }

    /// How the server answers a request for `url`.
    pub open spec fn routed_response(&self, url: Seq<char>) -> ResponseModel {
        let path = before_first(url, '?');
        match sticker_path_id(path) {
            Some(id) => sticker_response(self, id as u32),
            None => match pack_path(path) {
                Some(p) => {
                    let name = decoded_text(percent_decoded(vstd::utf8::encode_utf8(p.0), 0));
                    if self.has_pack_named(name) {
                        let members = self.members(self.pack_named(name));
                        if p.1 - 1 < members.len() {
                            sticker_response(self, members[p.1 - 1] as u32)
                        } else {
                            plain_404("Sticker not found"@)
                        }
                    } else {
                        plain_404("Sticker not found"@)
                    }
                },
                None => plain_404("Not Found. Use /sticker/{id} or /{pack_name}/{index}"@),
            },
        }
    }

    /// The response for one sticker: its bytes, a redirect to its URL, or a 404.
    pub fn serve_sticker(&self, sticker_id: u32) -> (r: HttpResponse)
        requires
            self.wf(),
        ensures
            r@ == sticker_response(self, sticker_id),
    {
        let sticker = match self.stickers.get(&sticker_id) {
            Some(s) => s,
            None => return plain_not_found("Sticker not found"),
        };
        match &sticker.storage_type {
            StorageType::Binary { content_type, chunk_count, .. } => {
                match &sticker.upload_status {
                    UploadStatus::Complete => {},
                    UploadStatus::Pending { .. } => return plain_not_found("Upload not complete"),
                }
                let data = self.assemble(sticker_id, *chunk_count);
                let mut headers: Vec<(String, String)> = Vec::new();
                headers.push((owned("Content-Type"), content_type.clone()));
                headers.push((owned("Cache-Control"), owned("public, max-age=604800")));
                let r = HttpResponse { status_code: 200, headers, body: data };
                assert(r@.headers =~= seq![("Content-Type"@, content_type@), ("Cache-Control"@, "public, max-age=604800"@)]);
                r
            },
            StorageType::External { url } => {
                let mut headers: Vec<(String, String)> = Vec::new();
                headers.push((owned("Location"), url.clone()));
                let r = HttpResponse { status_code: 302, headers, body: Vec::new() };
                assert(r@.headers =~= seq![("Location"@, url@)]);
                assert(r@.body =~= Seq::<u8>::empty());
                r
            },
        }
    }

    /// Answers `/sticker/{id}` and `/{pack_name}/{index}` (1-based, percent-encoded pack
    /// name), and 404 otherwise.
    pub fn http_request(&self, req: &HttpRequest) -> (r: HttpResponse)
        requires
            self.wf(),
        ensures
            r@ == self.routed_response(req.url@),
    {
        let path = before_first_char(req.url.as_str(), '?');
        if starts_with_text(path, "/sticker/") {
            let n = path.unicode_len();
            proof {
                reveal_strlit("/sticker/");
            }
            let rest = path.substring_char(9, n);
            match parse_u32(rest.as_bytes()) {
                Some(id) => return self.serve_sticker(id),
                None => {},
            }
        }
        let trimmed = trim_leading_slashes(path);
        match first_index_of(trimmed, '/') {
            Some(k) => {
                let n = trimmed.unicode_len();
                let first = trimmed.substring_char(0, k);
                let second = trimmed.substring_char(k + 1, n);
                assert(second@ == after_first(trimmed@, '/'));
                match parse_usize(second.as_bytes()) {
                    Some(index) => {
                        if index >= 1 {
                            let pack_name = percent_decode(first);
                            match self.find_pack_by_name(pack_name.as_str()) {
                                Some(pack) => {
                                    proof {
                                        let i = choose|i: int|
                                            0 <= i < self.packs.entries@.len() && #[trigger] self.packs.entries@[i].1.name@ == pack_name@
                                                && pack@ == self.packs.entries@[i].1@ && forall|j: int|
                                                0 <= j < i ==> self.packs.entries@[j].1.name@ != pack_name@;
                                        let i2 = choose|i: int|
                                            0 <= i < self.packs.entries@.len() && #[trigger] self.packs.entries@[i].1.name@ == pack_name@
                                                && forall|j: int| 0 <= j < i ==> self.packs.entries@[j].1.name@ != pack_name@;
                                        if i < i2 {
                                            assert(self.packs.entries@[i].1.name@ != pack_name@);
                                        }
                                        if i2 < i {
                                            assert(self.packs.entries@[i2].1.name@ != pack_name@);
                                        }
                                        assert(pack.id == self.pack_named(pack_name@));
                                    }
                                    match self.get_pack_sticker_by_index(pack.id, index) {
                                        Some(sticker_id) => return self.serve_sticker(sticker_id),
                                        None => {},
                                    }
                                },
                                None => {},
                            }
                            return plain_not_found("Sticker not found");
                        }
                    },
                    None => {},
                }
            },
            None => {},
        }
        plain_not_found("Not Found. Use /sticker/{id} or /{pack_name}/{index}")
    }
}

/// A 404 response with a plain-text message.
pub(crate) fn plain_not_found(message: &str) -> (r: HttpResponse)
    ensures
        r@ == plain_404(message@),
{
    let mut headers: Vec<(String, String)> = Vec::new();
    headers.push((owned("Content-Type"), owned("text/plain")));
    let r = HttpResponse { status_code: 404, headers, body: utf8_bytes(message) };
    assert(r@.headers =~= seq![("Content-Type"@, "text/plain"@)]);
    r
}

} // verus!
