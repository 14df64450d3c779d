//! Serving the release record over HTTP at `/get_version`.
use vstd::prelude::*;
use vstd::string::StrSliceExecFns;
use crate::sticker_server::http::header_texts;
use crate::text::{before_first, before_first_char, decimal, decimal_string, joined, owned, same_text, utf8_bytes};
use super::state::AppState;
use super::types::{HttpRequest, HttpResponse, VersionUpdate};

verus! {

/// What the server answers: a finished response, or the release record that is to be
/// sent as a JSON body with `version_json_response`.
pub enum HttpReply {
    Ready(HttpResponse),
    VersionJson(VersionUpdate),
}

/// `r` has this status, these headers and this body, and declines an upgrade.
pub open spec fn responds(r: HttpResponse, status: u16, headers: Seq<(Seq<char>, Seq<char>)>, body: Seq<u8>) -> bool {
    &&& r.status_code == status
    &&& header_texts(r.headers@) == headers
    &&& r.body@ == body
    &&& r.upgrade == Some(false)
}

/// The JSON body that reports an error code.
pub open spec fn error_body(code: u64) -> Seq<u8> {
    vstd::utf8::encode_utf8("{\"error\": "@ + decimal(code as nat) + "}"@)
}

/// A response with a JSON body and the CORS header that lets any origin read it.
pub fn version_json_response(body: Vec<u8>) -> (r: HttpResponse)
    ensures
        responds(r, 200, seq![("Content-Type"@, "application/json"@), ("Access-Control-Allow-Origin"@, "*"@)], body@),
{
    let mut headers: Vec<(String, String)> = Vec::new();
    headers.push((owned("Content-Type"), owned("application/json")));
    headers.push((owned("Access-Control-Allow-Origin"), owned("*")));
    let r = HttpResponse { status_code: 200, headers, body, upgrade: Some(false) };
    assert(header_texts(r.headers@) =~= seq![("Content-Type"@, "application/json"@), ("Access-Control-Allow-Origin"@, "*"@)]);
    r
}

/// The 404 response that reports an error code as JSON.
pub fn error_response(code: u64) -> (r: HttpResponse)
    ensures
        responds(r, 404, seq![("Content-Type"@, "application/json"@)], error_body(code)),
{
    let text = joined(joined("{\"error\": ", decimal_string(code).as_str()).as_str(), "}");
    let mut headers: Vec<(String, String)> = Vec::new();
    headers.push((owned("Content-Type"), owned("application/json")));
    let r = HttpResponse { status_code: 404, headers, body: utf8_bytes(text.as_str()), upgrade: Some(false) };
    assert(header_texts(r.headers@) =~= seq![("Content-Type"@, "application/json"@)]);
    r
}

/// The 404 response for any other path.
pub fn not_found_response() -> (r: HttpResponse)
    ensures
        responds(r, 404, Seq::empty(), vstd::utf8::encode_utf8("Not Found"@)),
{
    let r = HttpResponse { status_code: 404, headers: Vec::new(), body: utf8_bytes("Not Found"), upgrade: Some(false) };
    assert(header_texts(r.headers@) =~= Seq::<(Seq<char>, Seq<char>)>::empty());
    r
}

impl AppState {
    /// Answers `/get_version` (query string ignored) with the release record stored
    /// under key 1, or its error code; any other path gets a 404.
    pub fn http_request(&self, req: &HttpRequest) -> (r: HttpReply)
        requires
            self.wf(),
        ensures
            before_first(req.url@, '?') != "/get_version"@ ==> (r matches HttpReply::Ready(resp)
                && responds(resp, 404, Seq::empty(), vstd::utf8::encode_utf8("Not Found"@))),
            before_first(req.url@, '?') == "/get_version"@ && self.version_updates.as_map().contains_key(1)
                ==> (r matches HttpReply::VersionJson(v) && v@ == self.version_updates.as_map()[1]@),
            before_first(req.url@, '?') == "/get_version"@ && !self.version_updates.as_map().contains_key(1)
                ==> (r matches HttpReply::Ready(resp) && responds(resp, 404, seq![("Content-Type"@, "application/json"@)], error_body(super::types::DATA_NOT_EXISTS))),
    {
        let path = before_first_char(req.url.as_str(), '?');
        if same_text(path, "/get_version") {
            match self._get_version_by_key(1) {
                Ok(v) => HttpReply::VersionJson(v),
                Err(e) => HttpReply::Ready(error_response(e)),
            }
        } else {
            HttpReply::Ready(not_found_response())
        }
    }
}

/// Milliseconds from nanoseconds.
pub fn time_millis(now_nanos: u64) -> (r: u64)
    ensures
        r == now_nanos / 1_000_000,
{
    now_nanos / 1_000_000
}

} // verus!
