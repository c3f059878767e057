//! Wiring the mailbox and a storage backend into the request cycle.
//!
//! A framework value is built once at startup and shared read-only across
//! requests. For each request the surrounding server creates a mailbox with
//! [`FlashMessagesFramework::new_mailbox`], lets handler code send messages
//! into it, and flushes it exactly once with
//! [`FlashMessagesFramework::finalize`] when the response is ready.

use crate::interface::{FlashMessageStore, RequestModel, ResponseModel, StoreError};
use crate::level::Level;
use crate::mailbox::OutgoingMailbox;
use crate::message::FlashMessage;
use vstd::prelude::*;

verus! {

/// The per-application flash message configuration: a storage backend and
/// the minimum level a message needs to be dispatched.
pub struct FlashMessagesFramework<S: FlashMessageStore> {
    minimum_level: Level,
    storage_backend: S,
}

/// A fluent builder for a [`FlashMessagesFramework`].
pub struct FlashMessagesFrameworkBuilder<S: FlashMessageStore> {
    minimum_level: Option<Level>,
    storage_backend: S,
}

impl<S: FlashMessageStore> FlashMessagesFramework<S> {
    /// The configured minimum level.
    pub closed spec fn minimum_level(&self) -> Level {
        self.minimum_level
    }

    /// The configured storage backend.
    pub closed spec fn backend(&self) -> &S {
        &self.storage_backend
    }

    /// Start configuring a framework around a storage backend, the one
    /// required piece of configuration.
    pub fn builder(storage_backend: S) -> (r: FlashMessagesFrameworkBuilder<S>)
        ensures
            *r.backend() == storage_backend,
            r.chosen_level() is None,
    {
        FlashMessagesFrameworkBuilder { minimum_level: None, storage_backend }
    }

    /// The backend, for loading messages off a request.
    pub fn storage_backend(&self) -> (r: &S)
        ensures
            r == self.backend(),
    {
        &self.storage_backend
    }

    /// Open a request's mailbox: empty, filtering below the configured
    /// minimum level.
    pub fn new_mailbox(&self) -> (r: OutgoingMailbox)
        ensures
            r.messages().len() == 0,
            r.minimum_level() == self.minimum_level(),
            r.wf(),
    {
        OutgoingMailbox::new(self.minimum_level)
    }

    /// Flush a request's mailbox into the response, exactly once, when the
    /// handler is done. A failure here must surface to the caller: a broken
    /// flush may not be swallowed.
    pub fn finalize(
        &self,
        mailbox: OutgoingMailbox,
        request: &RequestModel,
        response: &mut ResponseModel,
    ) -> (r: Result<(), StoreError>)
        requires
            self.backend().valid(),
            old(response).wf(),
        ensures
            final(response).wf(),
            r is Ok == self.backend().spec_store_ok(
                mailbox.messages(),
                request,
                old(response),
            ),
            r is Ok ==> self.backend().spec_stored(
                mailbox.messages(),
                request,
                old(response),
                final(response),
            ),
            r is Err ==> *final(response) == *old(response),
    {
        let messages: Vec<FlashMessage> = mailbox.take_messages();
        self.storage_backend.store(&messages, request, response)
    }
}

impl<S: FlashMessageStore> FlashMessagesFrameworkBuilder<S> {
    /// The backend this builder was started with.
    pub closed spec fn backend(&self) -> &S {
        &self.storage_backend
    }

    /// The minimum level chosen so far, if any.
    pub closed spec fn chosen_level(&self) -> Option<Level> {
        self.minimum_level
    }

    /// Choose the minimum level a message needs to be dispatched; without
    /// this, debug-level messages are discarded and everything else is
    /// kept.
    pub fn minimum_level(self, minimum_level: Level) -> (r: Self)
        ensures
            *r.backend() == *self.backend(),
            r.chosen_level() == Some(minimum_level),
    {
        Self { minimum_level: Some(minimum_level), ..self }
    }

    /// Finish the builder; an unchosen minimum level defaults to `Info`.
    pub fn build(self) -> (r: FlashMessagesFramework<S>)
        ensures
            *r.backend() == *self.backend(),
            r.minimum_level() == (match self.chosen_level() {
                Some(l) => l,
                None => Level::Info,
            }),
    {
        FlashMessagesFramework {
            minimum_level: match self.minimum_level {
                Some(l) => l,
                None => Level::Info,
            },
            storage_backend: self.storage_backend,
        }
    }
}

} // verus!
