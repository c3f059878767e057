//! The session-bound backend: messages ride in a key-value session store.

use crate::codec::{deserialize_messages, json_of_messages, serialize_messages, spec_parse_messages};
use crate::interface::{
    FlashMessageStore, LoadError, LoadErrorKind, RequestModel, ResponseModel, StoreError,
};
use crate::mailbox::views_of;
use crate::message::{FlashMessage, MessageView};
use vstd::prelude::*;

verus! {

/// One entry of a session store.
pub struct SessionEntry {
    key: String,
    value: String,
}

/// The mathematical value of a session entry.
pub struct SessionEntryView {
    pub key: Seq<char>,
    pub value: Seq<char>,
}

impl View for SessionEntry {
    type V = SessionEntryView;

    closed spec fn view(&self) -> SessionEntryView {
        SessionEntryView { key: self.key@, value: self.value@ }
    }
}

/// The value stored under a key: the first entry that carries it.
pub open spec fn lookup(entries: Seq<SessionEntryView>, key: Seq<char>) -> Option<Seq<char>>
    decreases entries.len(),
{
    if entries.len() == 0 {
        None
    } else if entries[0].key == key {
        Some(entries[0].value)
    } else {
        lookup(entries.skip(1), key)
    }
}

/// A key-value store standing for the session attached to one request:
/// what the external session subsystem holds, as plain values.
pub struct SessionState {
    entries: Vec<SessionEntry>,
}

/// A key missing from every entry is not found.
proof fn lemma_lookup_absent(entries: Seq<SessionEntryView>, key: Seq<char>)
    requires
        forall|j: int| 0 <= j < entries.len() ==> entries[j].key != key,
    ensures
        lookup(entries, key) is None,
    decreases entries.len(),
{
    if entries.len() > 0 {
        lemma_lookup_absent(entries.skip(1), key);
    }
}

/// Lookup scans left to right across a concatenation.
proof fn lemma_lookup_concat(a: Seq<SessionEntryView>, b: Seq<SessionEntryView>, key: Seq<char>)
    ensures
        lookup(a + b, key) == (if lookup(a, key) is Some {
            lookup(a, key)
        } else {
            lookup(b, key)
        }),
    decreases a.len(),
{
    if a.len() == 0 {
        assert(a + b =~= b);
    } else {
        lemma_lookup_concat(a.skip(1), b, key);
        assert((a + b).skip(1) =~= a.skip(1) + b);
        assert((a + b)[0] == a[0]);
    }
}

/// The first entry carrying a key decides the lookup.
proof fn lemma_lookup_first(entries: Seq<SessionEntryView>, key: Seq<char>, i: int)
    requires
        0 <= i < entries.len(),
        entries[i].key == key,
        forall|j: int| 0 <= j < i ==> entries[j].key != key,
    ensures
        lookup(entries, key) == Some(entries[i].value),
    decreases i,
{
    if i == 0 {
    } else {
        lemma_lookup_first(entries.skip(1), key, i - 1);
    }
}

impl SessionState {
    /// The entries, as mathematical values, in store order.
    pub closed spec fn entries(&self) -> Seq<SessionEntryView> {
        self.entries@.map_values(|e: SessionEntry| e@)
    }

    /// No key is carried by two entries.
    pub open spec fn wf(&self) -> bool {
        forall|i: int, j: int|
            0 <= i < j < self.entries().len() ==> self.entries()[i].key != self.entries()[j].key
    }

    /// An empty session store.
    pub fn new() -> (r: Self)
        ensures
            r.entries() == Seq::<SessionEntryView>::empty(),
            r.wf(),
    {
        let r = Self { entries: Vec::new() };
        proof {
            assert(r.entries() =~= Seq::<SessionEntryView>::empty());
        }
        r
    }

    /// The value stored under `key`, if any.
    pub fn get(&self, key: &String) -> (r: Option<&String>)
        ensures
            r matches Some(v) ==> lookup(self.entries(), key@) == Some(v@),
            r is None ==> lookup(self.entries(), key@) is None,
    {
        let n = self.entries.len();
        let mut i: usize = 0;
        while i < n
            invariant
                i <= n,
                n == self.entries@.len(),
                forall|j: int| 0 <= j < i ==> self.entries()[j].key != key@,
            decreases n - i,
        {
            if self.entries[i].key == *key {
                proof {
                    assert(self.entries()[i as int].key == key@);
                    lemma_lookup_first(self.entries(), key@, i as int);
                }
                return Some(&self.entries[i].value);
            }
            proof {
                assert(self.entries()[i as int].key != key@);
            }
            i = i + 1;
        }
        proof {
            lemma_lookup_absent(self.entries(), key@);
        }
        None
    }

    /// Drop the entry stored under `key`, if any.
    pub fn remove(&mut self, key: &String)
        requires
            old(self).wf(),
        ensures
            final(self).wf(),
            lookup(final(self).entries(), key@) is None,
            forall|k: Seq<char>|
                k != key@ ==> lookup(final(self).entries(), k) == lookup(old(self).entries(), k),
    {
        let ghost es = self.entries();
        let n = self.entries.len();
        let mut i: usize = 0;
        while i < n
            invariant
                i <= n,
                n == self.entries@.len(),
                es == self.entries(),
                es == old(self).entries(),
                forall|a: int, b: int| 0 <= a < b < es.len() ==> es[a].key != es[b].key,
                forall|j: int| 0 <= j < i ==> es[j].key != key@,
            decreases n - i,
        {
            if self.entries[i].key == *key {
                proof {
                    assert(es[i as int].key == key@);
                }
                self.entries.remove(i);
                proof {
                    let before = es.take(i as int);
                    let after = es.skip(i as int + 1);
                    assert(self.entries() =~= before + after);
                    assert forall|j: int| 0 <= j < before.len() implies before[j].key != key@ by {
                        assert(before[j] == es[j]);
                    }
                    assert forall|j: int| 0 <= j < after.len() implies after[j].key != key@ by {
                        assert(after[j] == es[j + i + 1]);
                        assert(es[i as int].key != es[j + i + 1].key);
                    }
                    assert forall|a: int, b: int|
                        0 <= a < b < self.entries().len() implies self.entries()[a].key
                        != self.entries()[b].key by {
                        let a0 = if a < i { a } else { a + 1 };
                        let b0 = if b < i { b } else { b + 1 };
                        assert(self.entries()[a] == es[a0]);
                        assert(self.entries()[b] == es[b0]);
                    }
                    lemma_lookup_absent(before, key@);
                    lemma_lookup_absent(after, key@);
                    lemma_lookup_concat(before, after, key@);
                    assert forall|k: Seq<char>| k != key@ implies lookup(self.entries(), k)
                        == lookup(es, k) by {
                        lemma_lookup_concat(before, after, k);
                        assert(es =~= before + (seq![es[i as int]] + after));
                        lemma_lookup_concat(before, seq![es[i as int]] + after, k);
                        lemma_lookup_concat(seq![es[i as int]], after, k);
                        assert(seq![es[i as int]].skip(1) =~= Seq::<SessionEntryView>::empty());
                        assert(seq![es[i as int]][0] == es[i as int]);
                        assert(lookup(Seq::<SessionEntryView>::empty(), k) is None);
                        assert(lookup(seq![es[i as int]], k) is None);
                    }
                }
                return ;
            }
            proof {
                assert(es[i as int].key != key@);
            }
            i = i + 1;
        }
        proof {
            lemma_lookup_absent(es, key@);
        }
    }

    /// Store `value` under `key`, replacing any earlier entry.
    pub fn insert(&mut self, key: &String, value: String)
        requires
            old(self).wf(),
        ensures
            final(self).wf(),
            lookup(final(self).entries(), key@) == Some(value@),
            forall|k: Seq<char>|
                k != key@ ==> lookup(final(self).entries(), k) == lookup(old(self).entries(), k),
    {
        self.remove(key);
        let ghost removed = self.entries();
        let entry = SessionEntry { key: key.clone(), value };
        let ghost ev = entry@;
        self.entries.push(entry);
        proof {
            assert(self.entries() =~= removed + seq![ev]);
            lemma_lookup_concat(removed, seq![ev], key@);
            assert(seq![ev].skip(1) =~= Seq::<SessionEntryView>::empty());
            assert(seq![ev][0] == ev);
            assert(lookup(Seq::<SessionEntryView>::empty(), key@) is None);
            assert(lookup(seq![ev], key@) == Some(value@));
            assert forall|k: Seq<char>| k != key@ implies lookup(self.entries(), k) == lookup(
                removed,
                k,
            ) by {
                lemma_lookup_concat(removed, seq![ev], k);
                assert(lookup(Seq::<SessionEntryView>::empty(), k) is None);
                assert(lookup(seq![ev], k) is None);
            }
            assert forall|i: int, j: int|
                0 <= i < j < self.entries().len() implies self.entries()[i].key
                != self.entries()[j].key by {
                if j == self.entries().len() - 1 {
                    if self.entries()[i].key == key@ {
                        lemma_lookup_first(removed, key@, i);
                    }
                }
            }
        }
    }
}

/// A session-bound implementation of flash message storage: the message
/// list travels in its wire form under a fixed key of the session store.
#[derive(Clone)]
pub struct SessionMessageStore {
    key: String,
}

impl SessionMessageStore {
    /// The session key this backend stores messages under.
    pub closed spec fn key(&self) -> Seq<char> {
        self.key@
    }

    /// Build a [`SessionMessageStore`] and specify which key to use for
    /// outgoing flash messages in the session store.
    pub fn new(key: String) -> (r: Self)
        ensures
            r.key() == key@,
    {
        Self { key }
    }

    /// The configured key, as a string.
    pub fn session_key(&self) -> (r: &String)
        ensures
            r@ == self.key(),
    {
        &self.key
    }

    /// Read the messages stored on a session; a missing key means none.
    pub fn load_session(&self, session: &SessionState) -> (r: Result<Vec<FlashMessage>, LoadError>)
        ensures
            ({
                match lookup(session.entries(), self.key()) {
                    None => r matches Ok(v) && views_of(v@) == Seq::<MessageView>::empty(),
                    Some(text) => match spec_parse_messages(text) {
                        Some(ms) => r matches Ok(v) && views_of(v@) == ms,
                        None => r matches Err(e) && e is GenericError,
                    },
                }
            }),
            forall|ms: Seq<MessageView>|
                lookup(session.entries(), self.key()) == Some(json_of_messages(ms)) ==> (r matches Ok(v)
                    && views_of(v@) == ms),
    {
        let r = match session.get(&self.key) {
            None => {
                let v: Vec<FlashMessage> = Vec::new();
                proof {
                    assert(views_of(v@) =~= Seq::<MessageView>::empty());
                }
                Ok(v)
            },
            Some(text) => {
                match deserialize_messages(text.as_str()) {
                    Some(v) => {
                        proof {
                            crate::codec::lemma_parse_messages_inverse(views_of(v@));
                        }
                        Ok(v)
                    },
                    None => {
                        proof {
                            if spec_parse_messages(text@) is Some {
                                crate::codec::lemma_parse_messages_sound(text@);
                                assert(false);
                            }
                        }
                        Err(
                            LoadError::GenericError(
                                String::from_str(
                                    "failed to read flash messages out of the session entry",
                                ),
                            ),
                        )
                    },
                }
            },
        };
        proof {
            assert forall|ms: Seq<MessageView>|
                lookup(session.entries(), self.key()) == Some(json_of_messages(ms)) implies r matches Ok(v)
                && views_of(v@) == ms by {
                crate::codec::lemma_parse_messages_inverse(ms);
            }
        }
        r
    }

    /// Write the messages onto a session: a non-empty list is stored in its
    /// wire form under the configured key; an empty list removes the key, so
    /// that already-consumed messages cannot reappear.
    pub fn store_session(&self, messages: &Vec<FlashMessage>, session: &mut SessionState) -> (r: Result<
        (),
        StoreError,
    >)
        requires
            old(session).wf(),
        ensures
            r is Ok,
            final(session).wf(),
            messages@.len() == 0 ==> lookup(final(session).entries(), self.key()) is None,
            messages@.len() > 0 ==> lookup(final(session).entries(), self.key()) == Some(
                json_of_messages(views_of(messages@)),
            ),
            forall|k: Seq<char>|
                k != self.key() ==> lookup(final(session).entries(), k) == lookup(
                    old(session).entries(),
                    k,
                ),
    {
        if messages.len() == 0 {
            session.remove(&self.key);
        } else {
            let text = serialize_messages(messages);
            session.insert(&self.key, text);
        }
        Ok(())
    }
}

impl Default for SessionMessageStore {
    /// The conventional key.
    fn default() -> (r: Self)
        ensures
            r.key() == "_flash"@,
    {
        Self { key: String::from_str("_flash") }
    }
}

impl FlashMessageStore for SessionMessageStore {
    /// Any key works; a session backend is always usable.
    open spec fn valid(&self) -> bool {
        true
    }

    /// The entry under the configured key, parsed; no entry means no
    /// messages, and an unreadable entry is the session store misbehaving.
    open spec fn spec_load(&self, request: &RequestModel) -> Result<Seq<MessageView>, LoadErrorKind> {
        match lookup(request.session.entries(), self.key()) {
            None => Ok(Seq::<MessageView>::empty()),
            Some(text) => match spec_parse_messages(text) {
                Some(ms) => Ok(ms),
                None => Err(LoadErrorKind::Generic),
            },
        }
    }

    /// Storing into the session cannot fail.
    open spec fn spec_store_ok(
        &self,
        ms: Seq<MessageView>,
        request: &RequestModel,
        response: &ResponseModel,
    ) -> bool {
        true
    }

    /// A successful store rewrites only the configured key — to the wire
    /// form of the list, or to nothing when the list is empty — and adds no
    /// cookie.
    open spec fn spec_stored(
        &self,
        ms: Seq<MessageView>,
        request: &RequestModel,
        old_response: &ResponseModel,
        new_response: &ResponseModel,
    ) -> bool {
        &&& new_response.cookies@ == old_response.cookies@
        &&& lookup(new_response.session.entries(), self.key()) == (if ms.len() == 0 {
            None::<Seq<char>>
        } else {
            Some(json_of_messages(ms))
        })
        &&& forall|k: Seq<char>|
            k != self.key() ==> lookup(new_response.session.entries(), k) == lookup(
                old_response.session.entries(),
                k,
            )
    }

    fn load(&self, request: &RequestModel) -> (r: Result<Vec<FlashMessage>, LoadError>) {
        self.load_session(&request.session)
    }

    fn store(
        &self,
        messages: &Vec<FlashMessage>,
        request: &RequestModel,
        response: &mut ResponseModel,
    ) -> (r: Result<(), StoreError>) {
        self.store_session(messages, &mut response.session)
    }
}

} // verus!
