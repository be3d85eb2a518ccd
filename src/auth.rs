//! The XOAUTH2 authentication string sent to either server.
use vstd::prelude::*;
use base64::Engine;
use crate::bytes::append_bytes;

verus! {

/// What standard base64 encoding (with padding) makes of the bytes, as the
/// bytes of its text.
pub uninterp spec fn base64_encoded(b: Seq<u8>) -> Seq<u8>;

/// Relies on base64's `STANDARD` engine and `Engine::encode`, a function of
/// the input bytes alone.
#[verifier::external_body]
fn encode_base64(b: &[u8]) -> (r: Vec<u8>)
    ensures
        r@ == base64_encoded(b@),
{
    base64::engine::general_purpose::STANDARD.encode(b).into_bytes()
}

/// `user=`
pub open spec fn user_prefix() -> Seq<u8> {
    seq![117u8, 115u8, 101u8, 114u8, 61u8]
}

/// `auth=Bearer `
pub open spec fn bearer_prefix() -> Seq<u8> {
    seq![97u8, 117u8, 116u8, 104u8, 61u8, 66u8, 101u8, 97u8, 114u8, 101u8, 114u8, 32u8]
}

/// `user=<email>^Aauth=Bearer <token>^A^A`, where `^A` is the byte 1.
pub open spec fn xoauth2_payload(email: Seq<u8>, access_token: Seq<u8>) -> Seq<u8> {
    user_prefix() + email + seq![1u8] + bearer_prefix() + access_token + seq![1u8, 1u8]
}

/// The unencoded XOAUTH2 payload for an account and its access token.
pub fn xoauth2_bytes(email: &[u8], access_token: &[u8]) -> (r: Vec<u8>)
    ensures
        r@ == xoauth2_payload(email@, access_token@),
{
    let mut r: Vec<u8> = vec![117u8, 115u8, 101u8, 114u8, 61u8];
    append_bytes(&mut r, email);
    r.push(1u8);
    let bearer: Vec<u8> = vec![97u8, 117u8, 116u8, 104u8, 61u8, 66u8, 101u8, 97u8, 114u8, 101u8, 114u8, 32u8];
    append_bytes(&mut r, bearer.as_slice());
    append_bytes(&mut r, access_token);
    r.push(1u8);
    r.push(1u8);
    assert(r@ =~= xoauth2_payload(email@, access_token@));
    r
}

/// The authentication string: the base64 encoding of the XOAUTH2 payload.
pub fn auth_string(email: &[u8], access_token: &[u8]) -> (r: Vec<u8>)
    ensures
        r@ == base64_encoded(xoauth2_payload(email@, access_token@)),
{
    let payload = xoauth2_bytes(email, access_token);
    encode_base64(payload.as_slice())
}

} // verus!
