//! The storage interface: how a backend sees a request and a response, and
//! the failure taxonomy shared by every backend.

use crate::mailbox::views_of;
use crate::message::{FlashMessage, MessageView};
use crate::sessions::SessionState;
use vstd::prelude::*;

verus! {

/// One cookie carried by an incoming request.
pub struct CookiePair {
    /// The cookie's name.
    pub name: String,
    /// The cookie's value, as it stood on the wire.
    pub value: String,
}

/// The value of the first cookie carrying a name.
pub open spec fn cookie_lookup(cookies: Seq<CookiePair>, name: Seq<char>) -> Option<Seq<char>>
    decreases cookies.len(),
{
    if cookies.len() == 0 {
        None
    } else if cookies[0].name@ == name {
        Some(cookies[0].value@)
    } else {
        cookie_lookup(cookies.skip(1), name)
    }
}

/// No cookie carries an absent name.
proof fn lemma_cookie_lookup_absent(cookies: Seq<CookiePair>, name: Seq<char>)
    requires
        forall|j: int| 0 <= j < cookies.len() ==> cookies[j].name@ != name,
    ensures
        cookie_lookup(cookies, name) is None,
    decreases cookies.len(),
{
    if cookies.len() > 0 {
        lemma_cookie_lookup_absent(cookies.skip(1), name);
    }
}

/// The first cookie carrying a name decides the lookup.
proof fn lemma_cookie_lookup_first(cookies: Seq<CookiePair>, name: Seq<char>, i: int)
    requires
        0 <= i < cookies.len(),
        cookies[i].name@ == name,
        forall|j: int| 0 <= j < i ==> cookies[j].name@ != name,
    ensures
        cookie_lookup(cookies, name) == Some(cookies[i].value@),
    decreases i,
{
    if i > 0 {
        lemma_cookie_lookup_first(cookies.skip(1), name, i - 1);
    }
}

/// What a storage backend may read off an incoming request: its cookies,
/// and the session attached to it.
pub struct RequestModel {
    /// The request's cookies, in header order.
    pub cookies: Vec<CookiePair>,
    /// The session attached to the request.
    pub session: SessionState,
}

impl RequestModel {
    /// A request carrying nothing.
    pub fn new() -> (r: Self)
        ensures
            r.cookies@ == Seq::<CookiePair>::empty(),
            r.session.entries() == Seq::<crate::sessions::SessionEntryView>::empty(),
            r.session.wf(),
    {
        Self { cookies: Vec::new(), session: SessionState::new() }
    }

    /// The value of the first cookie with this name, if any.
    pub fn cookie_value(&self, name: &String) -> (r: Option<&String>)
        ensures
            r matches Some(v) ==> cookie_lookup(self.cookies@, name@) == Some(v@),
            r is None ==> cookie_lookup(self.cookies@, name@) is None,
    {
        let n = self.cookies.len();
        let mut i: usize = 0;
        while i < n
            invariant
                i <= n,
                n == self.cookies@.len(),
                forall|j: int| 0 <= j < i ==> self.cookies@[j].name@ != name@,
            decreases n - i,
        {
            if self.cookies[i].name == *name {
                proof {
                    lemma_cookie_lookup_first(self.cookies@, name@, i as int);
                }
                return Some(&self.cookies[i].value);
            }
            i = i + 1;
        }
        proof {
            lemma_cookie_lookup_absent(self.cookies@, name@);
        }
        None
    }
}

/// What a storage backend may write onto an outgoing response: cookies to
/// set, and the session as it is to be flushed.
pub struct ResponseModel {
    /// The cookies to attach, in the order they were added.
    pub cookies: Vec<crate::cookies::ResponseCookie>,
    /// The session as the response leaves it.
    pub session: SessionState,
}

impl ResponseModel {
    /// A response model is valid when its session is.
    pub open spec fn wf(&self) -> bool {
        self.session.wf()
    }

    /// A response carrying nothing, with the session as the request left it.
    pub fn new(session: SessionState) -> (r: Self)
        ensures
            r.cookies@ == Seq::<crate::cookies::ResponseCookie>::empty(),
            r.session == session,
    {
        Self { cookies: Vec::new(), session }
    }
}

/// The contract every storage backend meets, and the extension point for
/// applications that bring their own: `load` derives the incoming messages
/// from a request, `store` attaches outgoing messages to a response. Each
/// implementor pins both down by giving `spec_load`, `spec_store_ok` and
/// `spec_stored`.
pub trait FlashMessageStore: Sized {
    /// Whether this backend is usable at all — its configuration meets
    /// what its primitives demand.
    spec fn valid(&self) -> bool;

    /// What this backend finds on a request: the incoming message list, or
    /// which failure.
    spec fn spec_load(&self, request: &RequestModel) -> Result<Seq<MessageView>, LoadErrorKind>;

    /// Whether storing this list on this request and response succeeds.
    spec fn spec_store_ok(
        &self,
        ms: Seq<MessageView>,
        request: &RequestModel,
        response: &ResponseModel,
    ) -> bool;

    /// How a successful store relates the response before and after.
    spec fn spec_stored(
        &self,
        ms: Seq<MessageView>,
        request: &RequestModel,
        old_response: &ResponseModel,
        new_response: &ResponseModel,
    ) -> bool;

    /// Extract flash messages from an incoming request. A request carrying
    /// none yields an empty list, not an error.
    fn load(&self, request: &RequestModel) -> (r: Result<Vec<FlashMessage>, LoadError>)
        requires
            self.valid(),
        ensures
            r matches Ok(v) ==> (self.spec_load(request) matches Ok(ms) && views_of(v@) == ms),
            r matches Err(e) ==> (self.spec_load(request) matches Err(k) && e.kind() == k),
    ;

    /// Attach flash messages to an outgoing response; an empty list must
    /// actively clear the medium. A failed store leaves the response as it
    /// was: no partial cookie or session entry is emitted.
    fn store(
        &self,
        messages: &Vec<FlashMessage>,
        request: &RequestModel,
        response: &mut ResponseModel,
    ) -> (r: Result<(), StoreError>)
        requires
            self.valid(),
            old(response).wf(),
        ensures
            final(response).wf(),
            r is Ok == self.spec_store_ok(views_of(messages@), request, old(response)),
            r is Ok ==> self.spec_stored(
                views_of(messages@),
                request,
                old(response),
                final(response),
            ),
            r is Err ==> *final(response) == *old(response),
    ;
}

/// Which way a load failed, without its diagnostic text.
pub enum LoadErrorKind {
    Deserialization,
    Integrity,
    Generic,
}

/// Possible failure modes when extracting flash messages from a request.
#[derive(Debug)]
pub enum LoadError {
    /// The stored payload could not be read back as a message list.
    DeserializationError(String),
    /// The stored payload failed its cryptographic integrity check.
    IntegrityCheckFailed(String),
    /// The underlying store misbehaved in some other way.
    GenericError(String),
}

impl LoadError {
    /// Which way this load failed.
    pub open spec fn kind(&self) -> LoadErrorKind {
        match self {
            LoadError::DeserializationError(_) => LoadErrorKind::Deserialization,
            LoadError::IntegrityCheckFailed(_) => LoadErrorKind::Integrity,
            LoadError::GenericError(_) => LoadErrorKind::Generic,
        }
    }

    /// The diagnostic text carried by this failure.
    pub fn message(&self) -> (r: &String)
        ensures
            r@ == (match self {
                LoadError::DeserializationError(m) => m@,
                LoadError::IntegrityCheckFailed(m) => m@,
                LoadError::GenericError(m) => m@,
            }),
    {
        match self {
            LoadError::DeserializationError(m) => m,
            LoadError::IntegrityCheckFailed(m) => m,
            LoadError::GenericError(m) => m,
        }
    }
}

/// Which way a store failed, without its payload.
pub enum StoreErrorKind {
    Serialization,
    SizeLimit,
    Generic,
}

/// Possible failure modes when attaching flash messages to a response.
#[derive(Debug)]
pub enum StoreError {
    /// The outgoing message list could not be serialized.
    SerializationError(String),
    /// The encoded message list does not fit the configured size limit:
    /// the limit, and the length the encoding reached.
    SizeLimitExceeded { limit: u32, actual: usize },
    /// The underlying store misbehaved in some other way.
    GenericError(String),
}

impl StoreError {
    /// Which way this store failed.
    pub open spec fn kind(&self) -> StoreErrorKind {
        match self {
            StoreError::SerializationError(_) => StoreErrorKind::Serialization,
            StoreError::SizeLimitExceeded { .. } => StoreErrorKind::SizeLimit,
            StoreError::GenericError(_) => StoreErrorKind::Generic,
        }
    }
}

} // verus!
