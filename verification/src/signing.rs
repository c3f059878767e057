//! The signing primitive: a keyed authentication tag over the payload.
//!
//! Signing and verification are done by the signed cookie jar that
//! `actix_web` re-exports. Its tag is an HMAC over the payload alone, so
//! both results are functions of the key bytes and the text; this module
//! names them and states only what the jar's source shows.

use vstd::prelude::*;

verus! {

/// The signed envelope the cookie jar produces for a payload under a key:
/// the authentication tag, then the payload.
pub uninterp spec fn signed_envelope(key: Seq<u8>, payload: Seq<char>) -> Seq<char>;

/// What verification under a key makes of a candidate envelope: the payload
/// it carries, when the tag matches, and nothing otherwise.
pub uninterp spec fn verified_payload(key: Seq<u8>, value: Seq<char>) -> Option<Seq<char>>;

/// Relies on `actix_web::cookie::CookieJar::signed_mut` with
/// `actix_web::cookie::Key::from` (which panics below 64 key bytes): signing
/// deterministically prepends an authentication tag computed from the key
/// and the payload alone, and the same jar verifies its own output back to
/// the payload.
#[verifier::external_body]
pub(crate) fn sign_payload(key: &[u8], payload: &str) -> (r: String)
    requires
        key@.len() >= 64,
    ensures
        r@ == signed_envelope(key@, payload@),
        verified_payload(key@, r@) == Some(payload@),
{
    let k = actix_web::cookie::Key::from(key);
    let mut jar = actix_web::cookie::CookieJar::new();
    jar.signed_mut(&k).add(actix_web::cookie::Cookie::new("v", payload.to_owned()));
    jar.get("v").unwrap().value().to_owned()
}

/// Relies on `actix_web::cookie::CookieJar::signed` with
/// `actix_web::cookie::Key::from` (which panics below 64 key bytes): the
/// verdict is a function of the key and the value alone; on success it
/// hands back the payload part of the value.
#[verifier::external_body]
pub(crate) fn verify_signed_value(key: &[u8], value: &str) -> (r: Option<String>)
    requires
        key@.len() >= 64,
    ensures
        r matches Some(p) ==> verified_payload(key@, value@) == Some(p@),
        r is None ==> verified_payload(key@, value@) is None,
{
    let k = actix_web::cookie::Key::from(key);
    let mut jar = actix_web::cookie::CookieJar::new();
    jar.add_original(actix_web::cookie::Cookie::new("v", value.to_owned()));
    jar.signed(&k).get("v").map(|c| c.value().to_owned())
}

} // verus!
