use actix_web_flash_messages::{
    extract_flash_messages, CookieMessageStore, CookiePair, FlashMessage, FlashMessageStore,
    FlashMessagesFramework, Level, RequestModel, ResponseModel, SessionMessageStore, SessionState,
};

fn test_key() -> Vec<u8> {
    (100u8..164).collect()
}

#[test]
fn framework_defaults_to_info() {
    let store = CookieMessageStore::builder(test_key()).build();
    let framework = FlashMessagesFramework::builder(store).build();
    let mut mailbox = framework.new_mailbox();
    FlashMessage::debug("dropped").send(&mut mailbox);
    FlashMessage::info("kept").send(&mut mailbox);
    let messages = mailbox.take_messages();
    assert_eq!(messages.len(), 1);
    assert_eq!(messages[0].content(), "kept");
}

#[test]
fn framework_minimum_level_is_configurable() {
    let store = SessionMessageStore::default();
    let framework = FlashMessagesFramework::builder(store).minimum_level(Level::Debug).build();
    let mut mailbox = framework.new_mailbox();
    FlashMessage::debug("kept now").send(&mut mailbox);
    assert_eq!(mailbox.take_messages().len(), 1);
}

#[test]
fn full_cycle_through_the_cookie_backend() {
    let store = CookieMessageStore::builder(test_key())
        .cookie_name("my-flash".to_string())
        .secure(false)
        .build();
    let framework = FlashMessagesFramework::builder(store).build();

    // Request A: no cookie. Loading finds nothing.
    let request_a = RequestModel::new();
    let incoming = extract_flash_messages(framework.storage_backend(), &request_a)
        .expect("no cookie is not an error");
    assert!(incoming.iter().is_empty());

    // The handler sends a message; finalizing attaches one cookie.
    let mut mailbox = framework.new_mailbox();
    FlashMessage::info("Hey there!").send(&mut mailbox);
    let mut response_a = ResponseModel::new(SessionState::new());
    framework
        .finalize(mailbox, &request_a, &mut response_a)
        .expect("one short message fits the default limit");
    assert_eq!(response_a.cookies.len(), 1);
    let cookie = &response_a.cookies[0];
    assert_eq!(cookie.name, "my-flash");

    // Request B carries that cookie: the message arrives exactly once.
    let request_b = RequestModel {
        cookies: vec![CookiePair { name: cookie.name.clone(), value: cookie.value.clone() }],
        session: SessionState::new(),
    };
    let incoming = extract_flash_messages(framework.storage_backend(), &request_b)
        .expect("our own cookie must load");
    let messages = incoming.iter();
    assert_eq!(messages.len(), 1);
    assert_eq!(messages[0].content(), "Hey there!");
    assert_eq!(messages[0].level(), Level::Info);

    // Nothing more to send: finalizing emits the deletion cookie.
    let mailbox = framework.new_mailbox();
    let mut response_b = ResponseModel::new(SessionState::new());
    framework.finalize(mailbox, &request_b, &mut response_b).expect("clearing never fails");
    assert_eq!(response_b.cookies.len(), 1);
    assert_eq!(response_b.cookies[0].value, "");
    assert!(response_b.cookies[0].max_age_zero);
}

#[test]
fn full_cycle_through_the_session_backend() {
    let store = SessionMessageStore::default();
    let framework = FlashMessagesFramework::builder(store).minimum_level(Level::Debug).build();

    // Request A: empty session.
    let request_a = RequestModel::new();
    let incoming = extract_flash_messages(framework.storage_backend(), &request_a)
        .expect("an empty session is not an error");
    assert!(incoming.iter().is_empty());

    // The handler sends a warning; finalizing writes the session.
    let mut mailbox = framework.new_mailbox();
    FlashMessage::warning("Check your email").send(&mut mailbox);
    let mut response_a = ResponseModel::new(SessionState::new());
    framework
        .finalize(mailbox, &request_a, &mut response_a)
        .expect("session store never fails");
    assert!(response_a.cookies.is_empty());
    assert!(response_a.session.get(&"_flash".to_string()).is_some());

    // Request B carries that session: the message arrives exactly once.
    let request_b = RequestModel { cookies: Vec::new(), session: response_a.session };
    let incoming = extract_flash_messages(framework.storage_backend(), &request_b)
        .expect("our own entry must load");
    let messages = incoming.iter();
    assert_eq!(messages.len(), 1);
    assert_eq!(messages[0].content(), "Check your email");

    // Nothing more to send: finalizing removes the key.
    let mailbox = framework.new_mailbox();
    let session_b = {
        let request_session = &request_b.session;
        let mut copy = SessionState::new();
        if let Some(v) = request_session.get(&"_flash".to_string()) {
            copy.insert(&"_flash".to_string(), v.clone());
        }
        copy
    };
    let mut response_b = ResponseModel::new(session_b);
    framework.finalize(mailbox, &request_b, &mut response_b).expect("clearing never fails");
    assert!(response_b.session.get(&"_flash".to_string()).is_none());
}

#[test]
fn a_tampered_cookie_surfaces_as_a_load_error() {
    let store = CookieMessageStore::builder(test_key()).build();
    let good = store
        .store_value(&vec![FlashMessage::info("x")])
        .expect("one short message fits the default limit");
    let mut bad_value = good.value.clone();
    bad_value.insert(0, 'z');
    let request = RequestModel {
        cookies: vec![CookiePair { name: good.name.clone(), value: bad_value }],
        session: SessionState::new(),
    };
    assert!(FlashMessageStore::load(&store, &request).is_err());
    assert!(extract_flash_messages(&store, &request).is_err());
}

#[test]
fn request_model_finds_the_first_matching_cookie() {
    let request = RequestModel {
        cookies: vec![
            CookiePair { name: "a".to_string(), value: "1".to_string() },
            CookiePair { name: "b".to_string(), value: "2".to_string() },
            CookiePair { name: "a".to_string(), value: "3".to_string() },
        ],
        session: SessionState::new(),
    };
    assert_eq!(request.cookie_value(&"a".to_string()).unwrap(), "1");
    assert_eq!(request.cookie_value(&"b".to_string()).unwrap(), "2");
    assert!(request.cookie_value(&"c".to_string()).is_none());
}

#[test]
fn load_errors_carry_their_diagnostic_text() {
    let store = CookieMessageStore::builder(test_key()).build();
    match store.load_value(Some("zz")) {
        Err(e) => assert!(!e.message().is_empty()),
        Ok(_) => panic!("an unsigned value must not load"),
    }
}
