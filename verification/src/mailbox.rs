//! The per-request accumulator for outgoing flash messages.

use crate::level::{level_ord, Level};
use crate::message::{FlashMessage, MessageView};
use vstd::prelude::*;

verus! {

/// A sequence of messages seen as their mathematical values.
pub open spec fn views_of(messages: Seq<FlashMessage>) -> Seq<MessageView> {
    messages.map_values(|m: FlashMessage| m@)
}

/// Per-request mutable buffer of outgoing flash messages.
///
/// A mailbox is created when request handling starts, collects the messages
/// that handler code sends, and is flushed into the storage backend exactly
/// once when the response is finalized. Only messages whose level reaches
/// the configured minimum are ever admitted.
pub struct OutgoingMailbox {
    messages: Vec<FlashMessage>,
    minimum_level: Level,
}

impl OutgoingMailbox {
    /// The messages admitted so far, in the order they were sent.
    pub closed spec fn messages(&self) -> Seq<MessageView> {
        views_of(self.messages@)
    }

    /// The minimum level this mailbox was configured with.
    pub closed spec fn minimum_level(&self) -> Level {
        self.minimum_level
    }

    /// Every message a mailbox holds reaches its configured minimum level.
    pub open spec fn wf(&self) -> bool {
        forall|i: int|
            0 <= i < self.messages().len() ==> level_ord(self.messages()[i].level) >= level_ord(
                self.minimum_level(),
            )
    }

    /// Build an empty mailbox with the given minimum level.
    pub fn new(minimum_level: Level) -> (r: Self)
        ensures
            r.messages() == Seq::<MessageView>::empty(),
            r.minimum_level() == minimum_level,
            r.wf(),
    {
        let r = Self { messages: Vec::new(), minimum_level };
        proof {
            assert(r.messages() =~= Seq::<MessageView>::empty());
        }
        r
    }

    /// Append a message, dropping it when its level lies strictly below the
    /// configured minimum.
    pub fn append(&mut self, message: FlashMessage)
        ensures
            final(self).minimum_level() == old(self).minimum_level(),
            level_ord(message@.level) >= level_ord(old(self).minimum_level())
                ==> final(self).messages() == old(self).messages().push(message@),
            level_ord(message@.level) < level_ord(old(self).minimum_level())
                ==> final(self).messages() == old(self).messages(),
            old(self).wf() ==> final(self).wf(),
    {
        if message.level().at_least(self.minimum_level) {
            let ghost before = self.messages@;
            self.messages.push(message);
            proof {
                assert(self.messages@ =~= before.push(message));
                assert(self.messages() =~= views_of(before).push(message@));
            }
        }
    }

    /// Law (filtering): a well-formed mailbox never holds — and so never
    /// flushes — a message whose level lies strictly below its configured
    /// minimum, whatever was sent into it.
    pub proof fn lemma_filters_below_minimum(&self, i: int)
        requires
            self.wf(),
            0 <= i < self.messages().len(),
        ensures
            level_ord(self.messages()[i].level) >= level_ord(self.minimum_level()),
    {
    }

    /// Hand out the accumulated messages, in order.
    pub fn take_messages(self) -> (r: Vec<FlashMessage>)
        ensures
            views_of(r@) == self.messages(),
    {
        self.messages
    }

    /// The accumulated messages, in order, without consuming the mailbox.
    pub fn current_messages(&self) -> (r: &Vec<FlashMessage>)
        ensures
            views_of(r@) == self.messages(),
    {
        &self.messages
    }
}

} // verus!
