use actix_web_flash_messages::{
    level_to_str, CookieMessageStore, FlashMessage, Level, LoadError, OutgoingMailbox,
    SessionMessageStore, SessionState, StoreError,
};

fn test_key() -> Vec<u8> {
    (0u8..64).collect()
}

#[test]
fn levels_order_by_ordinal() {
    assert!(Level::Debug.ordinal() < Level::Info.ordinal());
    assert!(Level::Info.ordinal() < Level::Success.ordinal());
    assert!(Level::Success.ordinal() < Level::Warning.ordinal());
    assert!(Level::Warning.ordinal() < Level::Error.ordinal());
    assert!(Level::Error.at_least(Level::Debug));
    assert!(Level::Info.at_least(Level::Info));
    assert!(!Level::Debug.at_least(Level::Info));
}

#[test]
fn level_names_are_lower_case() {
    assert_eq!(level_to_str(&Level::Debug), "debug");
    assert_eq!(level_to_str(&Level::Info), "info");
    assert_eq!(level_to_str(&Level::Success), "success");
    assert_eq!(level_to_str(&Level::Warning), "warning");
    assert_eq!(level_to_str(&Level::Error), "error");
}

#[test]
fn message_constructors_set_level_and_content() {
    let m = FlashMessage::new("hello".to_string(), Level::Success);
    assert_eq!(m.content(), "hello");
    assert_eq!(m.level(), Level::Success);
    assert_eq!(FlashMessage::debug("x").level(), Level::Debug);
    assert_eq!(FlashMessage::info("x").level(), Level::Info);
    assert_eq!(FlashMessage::success("x").level(), Level::Success);
    assert_eq!(FlashMessage::warning("x").level(), Level::Warning);
    assert_eq!(FlashMessage::error("x").level(), Level::Error);
}

#[test]
fn mailbox_drops_messages_below_the_minimum() {
    let mut mailbox = OutgoingMailbox::new(Level::Info);
    FlashMessage::info("kept").send(&mut mailbox);
    FlashMessage::debug("dropped").send(&mut mailbox);
    FlashMessage::error("also kept").send(&mut mailbox);
    let messages = mailbox.take_messages();
    assert_eq!(messages.len(), 2);
    assert_eq!(messages[0].content(), "kept");
    assert_eq!(messages[1].content(), "also kept");
}

#[test]
fn mailbox_filters_for_all_severities() {
    let levels = [
        Level::Debug,
        Level::Info,
        Level::Success,
        Level::Warning,
        Level::Error,
    ];
    for (t, threshold) in levels.iter().enumerate() {
        let mut mailbox = OutgoingMailbox::new(*threshold);
        for level in levels.iter() {
            FlashMessage::new("m".to_string(), *level).send(&mut mailbox);
        }
        let kept = mailbox.take_messages();
        assert_eq!(kept.len(), levels.len() - t);
        for m in kept.iter() {
            assert!(m.level().at_least(*threshold));
        }
    }
}

#[test]
fn cookie_store_round_trips_messages() {
    let store = CookieMessageStore::builder(test_key()).build();
    let messages = vec![
        FlashMessage::info("Hey there!"),
        FlashMessage::warning("watch \"out\" \\now"),
    ];
    let cookie = store.store_value(&messages).expect("store must fit the default limit");
    assert_eq!(cookie.name, "_flash");
    assert!(cookie.http_only);
    assert!(cookie.same_site_lax);
    assert!(cookie.secure);
    assert!(cookie.root_path);
    assert!(!cookie.max_age_zero);
    let loaded = store.load_value(Some(&cookie.value)).expect("own cookie must load");
    assert_eq!(loaded.len(), 2);
    assert_eq!(loaded[0].content(), "Hey there!");
    assert_eq!(loaded[0].level(), Level::Info);
    assert_eq!(loaded[1].content(), "watch \"out\" \\now");
    assert_eq!(loaded[1].level(), Level::Warning);
}

#[test]
fn missing_cookie_means_no_messages() {
    let store = CookieMessageStore::builder(test_key()).build();
    let loaded = store.load_value(None).expect("no cookie is not an error");
    assert!(loaded.is_empty());
}

#[test]
fn tampered_cookie_fails_the_integrity_check() {
    let store = CookieMessageStore::builder(test_key()).build();
    let messages = vec![FlashMessage::info("Hey there!")];
    let cookie = store.store_value(&messages).expect("store must fit the default limit");
    let mut tampered = cookie.value.clone();
    tampered.push('x');
    match store.load_value(Some(&tampered)) {
        Err(LoadError::IntegrityCheckFailed(_)) => {},
        other => panic!("expected an integrity failure, got {:?}", kind_of(&other)),
    }
}

#[test]
fn forged_cookie_fails_the_integrity_check() {
    let store = CookieMessageStore::builder(test_key()).build();
    let mut other_key = test_key();
    other_key[0] = 0xff;
    let other_store = CookieMessageStore::builder(other_key).build();
    let messages = vec![FlashMessage::info("Hey there!")];
    let forged = other_store.store_value(&messages).expect("store must fit the default limit");
    match store.load_value(Some(&forged.value)) {
        Err(LoadError::IntegrityCheckFailed(_)) => {},
        other => panic!("expected an integrity failure, got {:?}", kind_of(&other)),
    }
}

fn kind_of(r: &Result<Vec<FlashMessage>, LoadError>) -> &'static str {
    match r {
        Ok(_) => "a message list",
        Err(LoadError::DeserializationError(_)) => "a deserialization failure",
        Err(LoadError::IntegrityCheckFailed(_)) => "an integrity failure",
        Err(LoadError::GenericError(_)) => "a generic failure",
    }
}

#[test]
fn oversized_encoding_is_rejected_whole() {
    let store = CookieMessageStore::builder(test_key()).bytes_size_limit(10).build();
    let messages = vec![FlashMessage::info("this will not fit in ten bytes")];
    match store.store_value(&messages) {
        Err(StoreError::SizeLimitExceeded { limit, actual }) => {
            assert_eq!(limit, 10);
            assert!(actual > 10);
        },
        Err(_) => panic!("expected the size limit failure"),
        Ok(_) => panic!("an oversized encoding must not produce a cookie"),
    }
}

#[test]
fn storing_nothing_emits_the_deletion_cookie() {
    let store = CookieMessageStore::builder(test_key())
        .cookie_name("my-flash".to_string())
        .build();
    let none: Vec<FlashMessage> = Vec::new();
    let cookie = store.store_value(&none).expect("clearing never fails");
    assert_eq!(cookie.name, "my-flash");
    assert_eq!(cookie.value, "");
    assert!(cookie.max_age_zero);
    assert!(cookie.root_path);
}

#[test]
fn cookie_workflow_delivers_once() {
    // A cookie backend configured with a custom name, secure off, the
    // default 2048-byte limit.
    let store = CookieMessageStore::builder(test_key())
        .cookie_name("my-flash".to_string())
        .secure(false)
        .bytes_size_limit(2048)
        .build();

    // First request: no cookie, so no incoming messages.
    let loaded = store.load_value(None).expect("no cookie is not an error");
    assert!(loaded.is_empty());

    // The handler sends an info and a debug message; with the minimum at
    // Info only the first is admitted.
    let mut mailbox = OutgoingMailbox::new(Level::Info);
    FlashMessage::info("Hey there!").send(&mut mailbox);
    FlashMessage::debug("How's it going?").send(&mut mailbox);
    let outgoing = mailbox.take_messages();
    assert_eq!(outgoing.len(), 1);
    assert_eq!(outgoing[0].content(), "Hey there!");

    // Flushing emits a signed cookie under the configured name.
    let cookie = store.store_value(&outgoing).expect("one short message fits");
    assert_eq!(cookie.name, "my-flash");
    assert!(!cookie.secure);
    assert!(cookie.http_only);
    assert!(!cookie.value.is_empty());

    // Second request carries that cookie: the message comes back once.
    let loaded = store.load_value(Some(&cookie.value)).expect("own cookie must load");
    assert_eq!(loaded.len(), 1);
    assert_eq!(loaded[0].content(), "Hey there!");
    assert_eq!(loaded[0].level(), Level::Info);

    // The handler sends nothing more; flushing the empty mailbox clears
    // the medium, so a third request without the cookie sees nothing.
    let empty: Vec<FlashMessage> = Vec::new();
    let removal = store.store_value(&empty).expect("clearing never fails");
    assert_eq!(removal.name, "my-flash");
    assert_eq!(removal.value, "");
    assert!(removal.max_age_zero);
    let loaded = store.load_value(None).expect("no cookie is not an error");
    assert!(loaded.is_empty());
}

#[test]
fn session_workflow_delivers_once() {
    // A session backend under the conventional key.
    let store = SessionMessageStore::default();
    let mut session = SessionState::new();

    // Empty session: no incoming messages.
    let loaded = store.load_session(&session).expect("an empty session is not an error");
    assert!(loaded.is_empty());

    // The handler sends a warning; with the minimum at Debug it is kept.
    let mut mailbox = OutgoingMailbox::new(Level::Debug);
    FlashMessage::warning("Check your email").send(&mut mailbox);
    let outgoing = mailbox.take_messages();
    assert_eq!(outgoing.len(), 1);

    // Flushing stores the list under `_flash`.
    store.store_session(&outgoing, &mut session).expect("session store never fails");
    assert!(session.get(&"_flash".to_string()).is_some());

    // The next request with that session sees the message.
    let loaded = store.load_session(&session).expect("own entry must load");
    assert_eq!(loaded.len(), 1);
    assert_eq!(loaded[0].content(), "Check your email");
    assert_eq!(loaded[0].level(), Level::Warning);

    // Flushing an empty mailbox removes the key.
    let empty: Vec<FlashMessage> = Vec::new();
    store.store_session(&empty, &mut session).expect("clearing never fails");
    assert!(session.get(&"_flash".to_string()).is_none());
    let loaded = store.load_session(&session).expect("an empty session is not an error");
    assert!(loaded.is_empty());
}

#[test]
fn clearing_a_fresh_session_is_not_an_error() {
    let store = SessionMessageStore::new("k".to_string());
    let mut session = SessionState::new();
    let empty: Vec<FlashMessage> = Vec::new();
    store.store_session(&empty, &mut session).expect("nothing to clear is fine");
    assert!(session.get(&"k".to_string()).is_none());
}

#[test]
fn unreadable_session_entry_is_a_generic_error() {
    let store = SessionMessageStore::new("k".to_string());
    let mut session = SessionState::new();
    session.insert(&"k".to_string(), "not a message list".to_string());
    match store.load_session(&session) {
        Err(LoadError::GenericError(_)) => {},
        _ => panic!("expected a generic failure"),
    }
}

#[test]
fn session_store_leaves_other_keys_alone() {
    let store = SessionMessageStore::new("flash".to_string());
    let mut session = SessionState::new();
    session.insert(&"user".to_string(), "jane".to_string());
    let outgoing = vec![FlashMessage::info("hi")];
    store.store_session(&outgoing, &mut session).expect("session store never fails");
    assert_eq!(session.get(&"user".to_string()).unwrap(), "jane");
    let empty: Vec<FlashMessage> = Vec::new();
    store.store_session(&empty, &mut session).expect("clearing never fails");
    assert_eq!(session.get(&"user".to_string()).unwrap(), "jane");
}
