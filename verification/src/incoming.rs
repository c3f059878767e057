//! Reading the messages that arrived with a request.

use crate::interface::{FlashMessageStore, LoadError, RequestModel};
use crate::mailbox::views_of;
use crate::message::{FlashMessage, MessageView};
use vstd::prelude::*;

verus! {

/// The flash messages attached to an incoming request: loaded once at the
/// start of request handling, read-only afterwards.
pub struct IncomingFlashMessages {
    messages: Vec<FlashMessage>,
}

impl IncomingFlashMessages {
    /// The incoming messages, as mathematical values, in arrival order.
    pub closed spec fn messages(&self) -> Seq<MessageView> {
        views_of(self.messages@)
    }

    /// Wrap an already-loaded message list, as a backend adapter does.
    pub fn new(messages: Vec<FlashMessage>) -> (r: Self)
        ensures
            r.messages() == views_of(messages@),
    {
        Self { messages }
    }

    /// The incoming messages, in arrival order, for the handler to walk.
    pub fn iter(&self) -> (r: &Vec<FlashMessage>)
        ensures
            views_of(r@) == self.messages(),
    {
        &self.messages
    }
}

/// Load the incoming flash messages off a request through the configured
/// backend. A failure means a corrupted or tampered incoming payload: the
/// caller should answer it as a client error, not crash.
pub fn extract_flash_messages<S: FlashMessageStore>(
    message_store: &S,
    request: &RequestModel,
) -> (r: Result<IncomingFlashMessages, LoadError>)
    requires
        message_store.valid(),
    ensures
        r matches Ok(m) ==> (message_store.spec_load(request) matches Ok(ms) && m.messages()
            == ms),
        r matches Err(e) ==> (message_store.spec_load(request) matches Err(k) && e.kind() == k),
{
    match message_store.load(request) {
        Ok(v) => Ok(IncomingFlashMessages { messages: v }),
        Err(e) => Err(e),
    }
}

} // verus!
