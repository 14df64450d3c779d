//! Signature checks: an HMAC-SHA256 tag of the stored message under the stored secret,
//! written in lower-case hex, compared without early exit.
use vstd::prelude::*;
use crate::external::{hex_encode, hex_text, hmac_sha256, hmac_sha256_tag};
use super::state::AppState;
use super::types::PERMISSION_NOT_FOUND;

verus! {

/// Whether `a` and `b` have the same bytes, compared in time that depends only on their
/// lengths: the OR of the XORs of all byte pairs is zero.
pub fn constant_time_eq(a: &str, b: &str) -> (r: bool)
    ensures
        r == (vstd::utf8::encode_utf8(a@) == vstd::utf8::encode_utf8(b@)),
{
    let x = a.as_bytes();
    let y = b.as_bytes();
    if x.len() != y.len() {
        return false;
    }
    let mut acc: u8 = 0;
    let mut i: usize = 0;
    while i < x.len()
        invariant
            x@.len() == y@.len(),
            i <= x@.len(),
            (acc == 0) <==> (forall|j: int| 0 <= j < i ==> x@[j] == y@[j]),
        decreases x@.len() - i,
    {
        let xi = x[i];
        let yi = y[i];
        let next = acc | (xi ^ yi);
        assert((next == 0) <==> (acc == 0 && xi == yi)) by (bit_vector)
            requires
                next == acc | (xi ^ yi),
        ;
        acc = next;
        i = i + 1;
    }
    proof {
        if acc == 0 {
            assert(x@ =~= y@);
        } else {
            if x@ == y@ {
                assert(forall|j: int| 0 <= j < x@.len() ==> x@[j] == y@[j]);
            }
        }
    }
    acc == 0
}

/// The signature that the stored secret and message call for, as text.
pub open spec fn expected_signature(secret: Seq<char>, message: Seq<char>) -> Seq<char> {
    hex_text(hmac_sha256(vstd::utf8::encode_utf8(secret), vstd::utf8::encode_utf8(message)))
}

impl AppState {
    /// Whether `signature` is the hex HMAC-SHA256 of the stored message under the stored
    /// secret; refused when either is missing.
    pub open spec fn signature_ok(&self, signature: Seq<char>) -> bool {
        &&& self.auth_secret is Some
        &&& self.auth_message is Some
        &&& vstd::utf8::encode_utf8(expected_signature(self.auth_secret->0@, self.auth_message->0@))
            == vstd::utf8::encode_utf8(signature)
    }

    /// `Ok` exactly when the signature checks out.
    pub fn _verify_signature(&self, signature: &str) -> (r: Result<(), u64>)
        ensures
            r == (if self.signature_ok(signature@) { Ok(()) } else { Err(PERMISSION_NOT_FOUND) }),
    {
        let secret = match &self.auth_secret {
            Some(s) => s,
            None => return Err(PERMISSION_NOT_FOUND),
        };
        let message = match &self.auth_message {
            Some(m) => m,
            None => return Err(PERMISSION_NOT_FOUND),
        };
        let tag = hmac_sha256_tag(secret.as_str().as_bytes(), message.as_str().as_bytes());
        let expected = hex_encode(tag.as_slice());
        if constant_time_eq(expected.as_str(), signature) {
            Ok(())
        } else {
            Err(PERMISSION_NOT_FOUND)
        }
    }
}

} // verus!
