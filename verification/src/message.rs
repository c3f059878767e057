//! The value type carried through the system: a one-time user notification.

use crate::level::{level_ord, Level};
use crate::mailbox::OutgoingMailbox;
use vstd::prelude::*;

verus! {

/// A **one-time** user notification: a string of content together with a
/// [`Level`].
///
/// A message is immutable once constructed. Build one with
/// [`FlashMessage::new`], or with the level-specific constructors such as
/// [`FlashMessage::info`].
#[derive(Clone)]
pub struct FlashMessage {
    content: String,
    level: Level,
}

/// The mathematical value of a [`FlashMessage`]: its content as a sequence
/// of characters, and its level.
pub struct MessageView {
    pub content: Seq<char>,
    pub level: Level,
}

impl View for FlashMessage {
    type V = MessageView;

    closed spec fn view(&self) -> MessageView {
        MessageView { content: self.content@, level: self.level }
    }
}

impl FlashMessage {
    /// Build a [`FlashMessage`] by specifying its content and [`Level`].
    pub fn new(content: String, level: Level) -> (r: Self)
        ensures
            r@ == (MessageView { content: content@, level }),
    {
        Self { content, level }
    }

    /// The string content of this flash message.
    pub fn content(&self) -> (r: &str)
        ensures
            r@ == self@.content,
    {
        self.content.as_str()
    }

    /// The [`Level`] of this flash message.
    pub fn level(&self) -> (r: Level)
        ensures
            r == self@.level,
    {
        self.level
    }

    /// Build a debug-level [`FlashMessage`] by specifying its content.
    pub fn debug(content: &str) -> (r: Self)
        ensures
            r@ == (MessageView { content: content@, level: Level::Debug }),
    {
        Self { content: content.to_owned(), level: Level::Debug }
    }

    /// Build an info-level [`FlashMessage`] by specifying its content.
    pub fn info(content: &str) -> (r: Self)
        ensures
            r@ == (MessageView { content: content@, level: Level::Info }),
    {
        Self { content: content.to_owned(), level: Level::Info }
    }

    /// Build a success-level [`FlashMessage`] by specifying its content.
    pub fn success(content: &str) -> (r: Self)
        ensures
            r@ == (MessageView { content: content@, level: Level::Success }),
    {
        Self { content: content.to_owned(), level: Level::Success }
    }

    /// Build a warning-level [`FlashMessage`] by specifying its content.
    pub fn warning(content: &str) -> (r: Self)
        ensures
            r@ == (MessageView { content: content@, level: Level::Warning }),
    {
        Self { content: content.to_owned(), level: Level::Warning }
    }

    /// Build an error-level [`FlashMessage`] by specifying its content.
    pub fn error(content: &str) -> (r: Self)
        ensures
            r@ == (MessageView { content: content@, level: Level::Error }),
    {
        Self { content: content.to_owned(), level: Level::Error }
    }

    /// Append this message to the request's outgoing mailbox.
    ///
    /// The message is dropped, not stored, when its level lies strictly
    /// below the mailbox's configured minimum. Messages that are admitted
    /// accumulate in call order.
    pub fn send(self, mailbox: &mut OutgoingMailbox)
        ensures
            final(mailbox).minimum_level() == old(mailbox).minimum_level(),
            level_ord(self@.level) >= level_ord(old(mailbox).minimum_level())
                ==> final(mailbox).messages() == old(mailbox).messages().push(self@),
            level_ord(self@.level) < level_ord(old(mailbox).minimum_level())
                ==> final(mailbox).messages() == old(mailbox).messages(),
    {
        mailbox.append(self);
    }
}

} // verus!
