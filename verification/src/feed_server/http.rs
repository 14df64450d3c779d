//! Serving post images over HTTP: `/post/{id}/image/{index}`.
use vstd::prelude::*;
use vstd::string::StrSliceExecFns;
use crate::sticker_server::http::{plain_404, plain_not_found, HttpRequest, HttpResponse, ResponseModel};
use crate::text::{
    after_first, before_first, before_first_char, first_index_of, owned, parse_u32, parse_u64,
    parse_unsigned, same_text, starts, starts_with_text,
};
use super::state::{image_bytes, FeedState};

verus! {

/// The (post id, image index) of a `/post/{id}/image/{index}` path: the text after
/// `/post/` split at its first two slashes, the middle part `image`.
pub open spec fn image_path(path: Seq<char>) -> Option<(nat, nat)> {
    if starts(path, "/post/"@) {
        let rest = path.subrange(6, path.len() as int);
        let tail = after_first(rest, '/');
        if rest.contains('/') && tail.contains('/') && before_first(tail, '/') == "image"@ {
            match (
                parse_unsigned(vstd::utf8::encode_utf8(before_first(rest, '/')), u64::MAX as nat),
                parse_unsigned(vstd::utf8::encode_utf8(after_first(tail, '/')), u32::MAX as nat),
            ) {
                (Some(post_id), Some(index)) => Some((post_id, index)),
                _ => None,
            }
        } else {
            None
        }
    } else {
        None
    }
}

/// How the server answers a request for image `image_index` of post `post_id`.
pub open spec fn image_response(s: &FeedState, post_id: u64, image_index: u32) -> ResponseModel {
    if !s.posts.as_map().contains_key(post_id) || image_index as nat >= s.posts.as_map()[post_id]@.images.len() {
        plain_404("Image not found"@)
    } else {
        let img = s.posts.as_map()[post_id]@.images[image_index as int];
        ResponseModel {
            status_code: 200,
            headers: seq![("Content-Type"@, img.content_type), ("Cache-Control"@, "public, max-age=604800"@)],
            body: image_bytes(s.chunk_map(), post_id, image_index, img.chunk_count as nat),
        }
    }
}

impl FeedState {
    /// How the server answers a request for `url`.
    pub open spec fn routed_response(&self, url: Seq<char>) -> ResponseModel {
        match image_path(before_first(url, '?')) {
            Some(p) => image_response(self, p.0 as u64, p.1 as u32),
            None => plain_404("Not Found. Use /post/{id}/image/{index}"@),
        }
    }

    /// The response for one image of a post: its bytes, or a 404.
    pub fn serve_image(&self, post_id: u64, image_index: u32) -> (r: HttpResponse)
        requires
            self.wf(),
        ensures
            r@ == image_response(self, post_id, image_index),
    {
        match self.get_image_data(post_id, image_index) {
            Ok((content_type, data)) => {
                let mut headers: Vec<(String, String)> = Vec::new();
                let ghost ct = content_type@;
                headers.push((owned("Content-Type"), content_type));
                headers.push((owned("Cache-Control"), owned("public, max-age=604800")));
                let r = HttpResponse { status_code: 200, headers, body: data };
                assert(r@.headers =~= seq![("Content-Type"@, ct), ("Cache-Control"@, "public, max-age=604800"@)]);
                r
            },
            Err(_) => plain_not_found("Image not found"),
        }
    }

    /// Answers `/post/{id}/image/{index}`, and 404 otherwise.
    pub fn http_request(&self, req: &HttpRequest) -> (r: HttpResponse)
        requires
            self.wf(),
        ensures
            r@ == self.routed_response(req.url@),
    {
        let path = before_first_char(req.url.as_str(), '?');
        if starts_with_text(path, "/post/") {
            let n = path.unicode_len();
            proof {
                reveal_strlit("/post/");
                reveal_strlit("image");
            }
            let rest = path.substring_char(6, n);
            match first_index_of(rest, '/') {
                Some(k) => {
                    let m = rest.unicode_len();
                    let first = rest.substring_char(0, k);
                    let tail = rest.substring_char(k + 1, m);
                    assert(tail@ == after_first(rest@, '/'));
                    match first_index_of(tail, '/') {
                        Some(k2) => {
                            let m2 = tail.unicode_len();
                            let second = tail.substring_char(0, k2);
                            let third = tail.substring_char(k2 + 1, m2);
                            assert(third@ == after_first(tail@, '/'));
                            assert(rest@.contains('/') && tail@.contains('/'));
                            if same_text(second, "image") {
                                match (parse_u64(first.as_bytes()), parse_u32(third.as_bytes())) {
                                    (Some(post_id), Some(index)) => return self.serve_image(post_id, index),
                                    _ => {},
                                }
                            }
                        },
                        None => {},
                    }
                },
                None => {},
            }
        }
        plain_not_found("Not Found. Use /post/{id}/image/{index}")
    }
}

} // verus!
