//! The cookie-bound backend: messages travel in a signed, size-bounded,
//! escaped cookie value.

use crate::codec::{
    deserialize_messages, json_of_messages, serialize_messages, spec_parse_messages,
};
use crate::escape::{escape_bytes, escape_cookie_value, unescape_bytes, unescape_cookie_value};
use crate::interface::{
    cookie_lookup, FlashMessageStore, LoadError, LoadErrorKind, RequestModel, ResponseModel,
    StoreError,
};
use crate::mailbox::views_of;
use crate::message::{FlashMessage, MessageView};
use crate::signing::{sign_payload, signed_envelope, verified_payload, verify_signed_value};
use crate::strutil::{bytes_to_string, chars_to_string};
use vstd::prelude::*;
use vstd::utf8::{decode_utf8, encode_utf8, valid_utf8};

verus! {

/// A cookie to be attached to the outgoing response, as plain values: the
/// caller turns it into a `Set-Cookie` header.
pub struct ResponseCookie {
    /// The cookie's name.
    pub name: String,
    /// The cookie's value.
    pub value: String,
    /// Whether the cookie carries `HttpOnly`.
    pub http_only: bool,
    /// Whether the cookie carries `SameSite=Lax`.
    pub same_site_lax: bool,
    /// Whether the cookie carries `Secure`.
    pub secure: bool,
    /// Whether the cookie carries `Path=/`.
    pub root_path: bool,
    /// Whether the cookie carries `Max-Age=0`, asking the client to drop it
    /// at once.
    pub max_age_zero: bool,
}

/// The full wire value a key and a message list encode to: the list in its
/// canonical form, signed, then escaped byte by byte.
pub open spec fn encoded_cookie_value(key: Seq<u8>, ms: Seq<MessageView>) -> Seq<char> {
    escape_bytes(encode_utf8(signed_envelope(key, json_of_messages(ms))))
}

/// Whether a wire value decodes to a message list under a key: unescaping
/// it yields UTF-8 text whose tag verifies, and the carried payload is the
/// list's canonical form.
pub open spec fn spec_decodes_to(key: Seq<u8>, wire: Seq<char>, ms: Seq<MessageView>) -> bool {
    let bytes = unescape_bytes(encode_utf8(wire));
    &&& valid_utf8(bytes)
    &&& verified_payload(key, decode_utf8(bytes)) == Some(json_of_messages(ms))
}

/// Everything decoding a wire value guarantees: the result follows the
/// unescape, integrity-check and parse pipeline step by step, and a value
/// that encodes a list decodes to exactly that list.
pub open spec fn decode_post(
    key: Seq<u8>,
    wire: Seq<char>,
    r: Result<Vec<FlashMessage>, LoadError>,
) -> bool {
    let bytes = unescape_bytes(encode_utf8(wire));
    &&& !valid_utf8(bytes) ==> (r matches Err(e) && e is IntegrityCheckFailed)
    &&& valid_utf8(bytes) ==> match verified_payload(key, decode_utf8(bytes)) {
        None => r matches Err(e) && e is IntegrityCheckFailed,
        Some(p) => match spec_parse_messages(p) {
            Some(ms) => r matches Ok(v) && views_of(v@) == ms,
            None => r matches Err(e) && e is DeserializationError,
        },
    }
    &&& forall|ms: Seq<MessageView>|
        spec_decodes_to(key, wire, ms) ==> (r matches Ok(v) && views_of(v@) == ms)
}

/// What decoding a wire value under a key yields: the message list, or
/// which failure.
pub open spec fn spec_decode_result(key: Seq<u8>, wire: Seq<char>) -> Result<
    Seq<MessageView>,
    LoadErrorKind,
> {
    let bytes = unescape_bytes(encode_utf8(wire));
    if !valid_utf8(bytes) {
        Err(LoadErrorKind::Integrity)
    } else {
        match verified_payload(key, decode_utf8(bytes)) {
            None => Err(LoadErrorKind::Integrity),
            Some(p) => match spec_parse_messages(p) {
                Some(ms) => Ok(ms),
                None => Err(LoadErrorKind::Deserialization),
            },
        }
    }
}

/// Law (one round trip): a wire value that encodes a message list — as the
/// value of every cookie [`CookieMessageStore::store_value`] emits for a
/// non-empty list does, by its contract — decodes back to exactly that
/// list, content and level, in the original order.
pub proof fn lemma_store_then_load(
    key: Seq<u8>,
    wire: Seq<char>,
    ms: Seq<MessageView>,
    r: Result<Vec<FlashMessage>, LoadError>,
)
    requires
        spec_decodes_to(key, wire, ms),
        decode_post(key, wire, r),
    ensures
        r matches Ok(v) && views_of(v@) == ms,
{
}

/// A cookie-bound implementation of flash message storage.
///
/// The message list is serialized, signed with the configured key, escaped,
/// checked against the configured size limit, and set as the value of a
/// cookie with the configured name.
pub struct CookieMessageStore {
    cookie_name: String,
    signing_key: Vec<u8>,
    bytes_size_limit: u32,
    secure: bool,
}

/// A fluent builder for a [`CookieMessageStore`].
pub struct CookieMessageStoreBuilder {
    cookie_name: Option<String>,
    signing_key: Vec<u8>,
    bytes_size_limit: Option<u32>,
    secure: Option<bool>,
}

impl CookieMessageStore {
    /// The configured cookie name.
    pub closed spec fn cookie_name(&self) -> Seq<char> {
        self.cookie_name@
    }

    /// The configured signing key bytes.
    pub closed spec fn key(&self) -> Seq<u8> {
        self.signing_key@
    }

    /// The configured bound on the escaped, signed value's length.
    pub closed spec fn size_limit(&self) -> u32 {
        self.bytes_size_limit
    }

    /// Whether emitted cookies carry `Secure`.
    pub closed spec fn secure_flag(&self) -> bool {
        self.secure
    }

    /// The signing key carries enough bytes for the signing primitive.
    pub open spec fn wf(&self) -> bool {
        self.key().len() >= 64
    }

    /// Start configuring a store around a signing key, the one required
    /// piece of configuration. The signing primitive demands at least 64
    /// key bytes.
    pub fn builder(signing_key: Vec<u8>) -> (r: CookieMessageStoreBuilder)
        requires
            signing_key@.len() >= 64,
        ensures
            r.key() == signing_key@,
            r.chosen_name() is None,
            r.chosen_limit() is None,
            r.chosen_secure() is None,
    {
        CookieMessageStoreBuilder {
            cookie_name: None,
            signing_key,
            bytes_size_limit: None,
            secure: None,
        }
    }

    /// The cookie name, as a string.
    pub fn name_str(&self) -> (r: &String)
        ensures
            r@ == self.cookie_name(),
    {
        &self.cookie_name
    }

    /// What [`CookieMessageStore::encode`] promises of its result.
    pub open spec fn encode_post(
        &self,
        ms: Seq<MessageView>,
        r: Result<ResponseCookie, StoreError>,
    ) -> bool {
        let ev = encoded_cookie_value(self.key(), ms);
        &&& ev.len() <= self.size_limit() ==> (r matches Ok(c) && c.name@ == self.cookie_name()
            && c.value@ == ev && c.http_only && c.same_site_lax && c.secure == self.secure_flag()
            && c.root_path && !c.max_age_zero && spec_decodes_to(self.key(), c.value@, ms))
        &&& ev.len() > self.size_limit() ==> (r matches Err(e) && e matches
            StoreError::SizeLimitExceeded { limit, actual } && limit == self.size_limit()
            && actual == ev.len())
    }

    /// Serialize, sign and escape the outgoing messages into a cookie.
    ///
    /// Fails, emitting nothing, exactly when the escaped signed value
    /// outgrows the configured size limit.
    pub fn encode(&self, messages: &Vec<FlashMessage>) -> (r: Result<ResponseCookie, StoreError>)
        requires
            self.wf(),
        ensures
            self.encode_post(views_of(messages@), r),
    {
        let payload = serialize_messages(messages);
        let envelope = sign_payload(self.signing_key.as_slice(), payload.as_str());
        let escaped = escape_cookie_value(envelope.as_str());
        proof {
            assert(escaped@ == encoded_cookie_value(self.key(), views_of(messages@)));
        }
        if escaped.len() > self.bytes_size_limit as usize {
            Err(StoreError::SizeLimitExceeded { limit: self.bytes_size_limit, actual: escaped.len() })
        } else {
            let value = chars_to_string(&escaped);
            proof {
                crate::escape::lemma_unescape_escape(encode_utf8(envelope@));
                vstd::utf8::encode_utf8_valid_utf8(envelope@);
                vstd::utf8::encode_utf8_decode_utf8(envelope@);
            }
            Ok(
                ResponseCookie {
                    name: self.cookie_name.clone(),
                    value,
                    http_only: true,
                    same_site_lax: true,
                    secure: self.secure,
                    root_path: true,
                    max_age_zero: false,
                },
            )
        }
    }

    /// Unescape, integrity-check and parse an incoming cookie value.
    ///
    /// A value whose tag does not verify under the configured key — or one
    /// that could not have been produced by signing at all — fails with
    /// `IntegrityCheckFailed` and yields no messages; a verified payload
    /// that is not a canonical message list fails with
    /// `DeserializationError`.
    pub fn decode(&self, value: &str) -> (r: Result<Vec<FlashMessage>, LoadError>)
        requires
            self.wf(),
        ensures
            decode_post(self.key(), value@, r),
    {
        let bytes = unescape_cookie_value(value);
        let r = match bytes_to_string(bytes) {
            None => Err(
                LoadError::IntegrityCheckFailed(
                    String::from_str("the incoming flash cookie does not hold a signed value"),
                ),
            ),
            Some(envelope) => {
                match verify_signed_value(self.signing_key.as_slice(), envelope.as_str()) {
                    None => Err(
                        LoadError::IntegrityCheckFailed(
                            String::from_str(
                                "signature validation failed for the incoming flash cookie",
                            ),
                        ),
                    ),
                    Some(payload) => {
                        match deserialize_messages(payload.as_str()) {
                            Some(v) => Ok(v),
                            None => Err(
                                LoadError::DeserializationError(
                                    String::from_str(
                                        "the signed flash payload is not a message list",
                                    ),
                                ),
                            ),
                        }
                    },
                }
            },
        };
        proof {
            let wire_bytes = unescape_bytes(encode_utf8(value@));
            if valid_utf8(wire_bytes) {
                if verified_payload(self.key(), decode_utf8(wire_bytes)) is Some {
                    let p = verified_payload(self.key(), decode_utf8(wire_bytes))->Some_0;
                    if spec_parse_messages(p) is Some {
                        crate::codec::lemma_parse_messages_sound(p);
                    }
                }
            }
            if r is Ok {
                crate::codec::lemma_parse_messages_inverse(views_of(r->Ok_0@));
            }
        }
        r
    }

    /// Read the messages off a request's cookie value; no cookie means no
    /// messages, not an error.
    pub fn load_value(&self, cookie_value: Option<&str>) -> (r: Result<Vec<FlashMessage>, LoadError>)
        requires
            self.wf(),
        ensures
            cookie_value is None ==> (r matches Ok(v) && views_of(v@)
                == Seq::<MessageView>::empty()),
            cookie_value matches Some(w) ==> decode_post(self.key(), w@, r),
    {
        match cookie_value {
            None => {
                let v: Vec<FlashMessage> = Vec::new();
                proof {
                    assert(views_of(v@) =~= Seq::<MessageView>::empty());
                }
                Ok(v)
            },
            Some(w) => self.decode(w),
        }
    }

    /// What [`CookieMessageStore::store_value`] promises of its result: a
    /// non-empty list is encoded; an empty list always succeeds with the
    /// deletion cookie — same name, empty value, `Max-Age=0`, `Path=/` —
    /// whether or not anything was stored before.
    pub open spec fn store_post(
        &self,
        ms: Seq<MessageView>,
        r: Result<ResponseCookie, StoreError>,
    ) -> bool {
        &&& ms.len() > 0 ==> self.encode_post(ms, r)
        &&& ms.len() == 0 ==> (r matches Ok(c) && c.name@ == self.cookie_name() && c.value@
            == Seq::<char>::empty() && c.max_age_zero && c.root_path && !c.http_only
            && !c.same_site_lax && !c.secure)
    }

    /// Turn the outgoing messages into the cookie to attach to the
    /// response: their encoding when there are any, the deletion cookie
    /// when there are none, so that already-consumed messages cannot
    /// reappear.
    pub fn store_value(&self, messages: &Vec<FlashMessage>) -> (r: Result<ResponseCookie, StoreError>)
        requires
            self.wf(),
        ensures
            self.store_post(views_of(messages@), r),
    {
        if messages.len() > 0 {
            self.encode(messages)
        } else {
            Ok(
                ResponseCookie {
                    name: self.cookie_name.clone(),
                    value: String::new(),
                    http_only: false,
                    same_site_lax: false,
                    secure: false,
                    root_path: true,
                    max_age_zero: true,
                },
            )
        }
    }
}

impl CookieMessageStoreBuilder {
    /// The signing key this builder was started with.
    pub closed spec fn key(&self) -> Seq<u8> {
        self.signing_key@
    }

    /// The cookie name chosen so far, if any.
    pub closed spec fn chosen_name(&self) -> Option<Seq<char>> {
        match self.cookie_name {
            Some(ref n) => Some(n@),
            None => None,
        }
    }

    /// The size limit chosen so far, if any.
    pub closed spec fn chosen_limit(&self) -> Option<u32> {
        self.bytes_size_limit
    }

    /// The `Secure` flag chosen so far, if any.
    pub closed spec fn chosen_secure(&self) -> Option<bool> {
        self.secure
    }

    /// Choose the cookie name; without this, the name is `_flash`.
    pub fn cookie_name(self, name: String) -> (r: Self)
        ensures
            r.key() == self.key(),
            r.chosen_name() == Some(name@),
            r.chosen_limit() == self.chosen_limit(),
            r.chosen_secure() == self.chosen_secure(),
    {
        Self { cookie_name: Some(name), ..self }
    }

    /// Choose the byte bound on the escaped, signed value; without this,
    /// the limit is 2048 bytes, a size every common client accepts.
    pub fn bytes_size_limit(self, bytes_size_limit: u32) -> (r: Self)
        ensures
            r.key() == self.key(),
            r.chosen_name() == self.chosen_name(),
            r.chosen_limit() == Some(bytes_size_limit),
            r.chosen_secure() == self.chosen_secure(),
    {
        Self { bytes_size_limit: Some(bytes_size_limit), ..self }
    }

    /// Choose whether emitted cookies carry `Secure`; without this, they
    /// do.
    pub fn secure(self, secure: bool) -> (r: Self)
        ensures
            r.key() == self.key(),
            r.chosen_name() == self.chosen_name(),
            r.chosen_limit() == self.chosen_limit(),
            r.chosen_secure() == Some(secure),
    {
        Self { secure: Some(secure), ..self }
    }

    /// Finish the builder, filling every unchosen option with its default.
    pub fn build(self) -> (r: CookieMessageStore)
        requires
            self.key().len() >= 64,
        ensures
            r.wf(),
            r.key() == self.key(),
            r.cookie_name() == (match self.chosen_name() {
                Some(n) => n,
                None => "_flash"@,
            }),
            r.size_limit() == (match self.chosen_limit() {
                Some(l) => l,
                None => 2048u32,
            }),
            r.secure_flag() == (match self.chosen_secure() {
                Some(s) => s,
                None => true,
            }),
    {
        CookieMessageStore {
            cookie_name: match self.cookie_name {
                Some(n) => n,
                None => String::from_str("_flash"),
            },
            signing_key: self.signing_key,
            bytes_size_limit: match self.bytes_size_limit {
                Some(l) => l,
                None => 2048,
            },
            secure: match self.secure {
                Some(s) => s,
                None => true,
            },
        }
    }
}

impl FlashMessageStore for CookieMessageStore {
    /// This backend is usable once its signing key is long enough.
    open spec fn valid(&self) -> bool {
        self.wf()
    }

    /// The decoding pipeline applied to the named cookie; no cookie means
    /// no messages.
    open spec fn spec_load(&self, request: &RequestModel) -> Result<Seq<MessageView>, LoadErrorKind> {
        match cookie_lookup(request.cookies@, self.cookie_name()) {
            None => Ok(Seq::<MessageView>::empty()),
            Some(w) => spec_decode_result(self.key(), w),
        }
    }

    /// Storing succeeds when there is nothing to store, or when the
    /// encoding fits the size limit.
    open spec fn spec_store_ok(
        &self,
        ms: Seq<MessageView>,
        request: &RequestModel,
        response: &ResponseModel,
    ) -> bool {
        ms.len() == 0 || encoded_cookie_value(self.key(), ms).len() <= self.size_limit()
    }

    /// A successful store appends exactly one cookie — the encoding, or the
    /// deletion cookie — and leaves the session alone.
    open spec fn spec_stored(
        &self,
        ms: Seq<MessageView>,
        request: &RequestModel,
        old_response: &ResponseModel,
        new_response: &ResponseModel,
    ) -> bool {
        &&& new_response.session == old_response.session
        &&& new_response.cookies@.len() == old_response.cookies@.len() + 1
        &&& new_response.cookies@ == old_response.cookies@.push(new_response.cookies@.last())
        &&& self.store_post(ms, Ok(new_response.cookies@.last()))
    }

    fn load(&self, request: &RequestModel) -> (r: Result<Vec<FlashMessage>, LoadError>) {
        match request.cookie_value(&self.cookie_name) {
            None => {
                let v: Vec<FlashMessage> = Vec::new();
                proof {
                    assert(views_of(v@) =~= Seq::<MessageView>::empty());
                }
                Ok(v)
            },
            Some(w) => self.decode(w.as_str()),
        }
    }

    fn store(
        &self,
        messages: &Vec<FlashMessage>,
        request: &RequestModel,
        response: &mut ResponseModel,
    ) -> (r: Result<(), StoreError>) {
        match self.store_value(messages) {
            Ok(c) => {
                let ghost before = response.cookies@;
                response.cookies.push(c);
                proof {
                    assert(response.cookies@.last() == response.cookies@[before.len() as int]);
                }
                Ok(())
            },
            Err(e) => Err(e),
        }
    }
}

} // verus!
