use actix_web_flash_messages::codec::{deserialize_messages, serialize_messages};
use actix_web_flash_messages::escape::{escape_cookie_value, unescape_cookie_value};
use actix_web_flash_messages::{FlashMessage, Level};

#[test]
fn serializes_one_message_exactly() {
    let messages = vec![FlashMessage::info("Hey there!")];
    let text = serialize_messages(&messages);
    assert_eq!(text, "[{\"content\":\"Hey there!\",\"level\":\"info\"}]");
}

#[test]
fn serializes_empty_list_exactly() {
    let messages: Vec<FlashMessage> = Vec::new();
    let text = serialize_messages(&messages);
    assert_eq!(text, "[]");
}

#[test]
fn serializes_two_messages_with_comma() {
    let messages = vec![FlashMessage::debug("a"), FlashMessage::error("b")];
    let text = serialize_messages(&messages);
    assert_eq!(
        text,
        "[{\"content\":\"a\",\"level\":\"debug\"},{\"content\":\"b\",\"level\":\"error\"}]"
    );
}

#[test]
fn escapes_quotes_and_backslashes() {
    let messages = vec![FlashMessage::warning("say \"hi\" \\ bye")];
    let text = serialize_messages(&messages);
    assert_eq!(
        text,
        "[{\"content\":\"say \\\"hi\\\" \\\\ bye\",\"level\":\"warning\"}]"
    );
}

#[test]
fn round_trips_every_level() {
    let messages = vec![
        FlashMessage::debug("d"),
        FlashMessage::info("i"),
        FlashMessage::success("s"),
        FlashMessage::warning("w"),
        FlashMessage::error("e"),
    ];
    let text = serialize_messages(&messages);
    let back = deserialize_messages(&text).expect("canonical text must parse");
    assert_eq!(back.len(), 5);
    let levels = [
        Level::Debug,
        Level::Info,
        Level::Success,
        Level::Warning,
        Level::Error,
    ];
    let contents = ["d", "i", "s", "w", "e"];
    for (i, m) in back.iter().enumerate() {
        assert_eq!(m.level(), levels[i]);
        assert_eq!(m.content(), contents[i]);
    }
}

#[test]
fn round_trips_tricky_content() {
    let messages = vec![
        FlashMessage::info(""),
        FlashMessage::info("with \"quotes\" and \\slashes\\"),
        FlashMessage::info("unicode: héllo wörld ✓"),
        FlashMessage::info("brackets ] and braces } and commas ,"),
    ];
    let text = serialize_messages(&messages);
    let back = deserialize_messages(&text).expect("canonical text must parse");
    assert_eq!(back.len(), messages.len());
    for (orig, got) in messages.iter().zip(back.iter()) {
        assert_eq!(orig.content(), got.content());
        assert_eq!(orig.level(), got.level());
    }
}

#[test]
fn rejects_non_canonical_text() {
    assert!(deserialize_messages("").is_none());
    assert!(deserialize_messages("{}").is_none());
    assert!(deserialize_messages("[").is_none());
    assert!(deserialize_messages("[]x").is_none());
    // whitespace is not canonical
    assert!(deserialize_messages("[ ]").is_none());
    assert!(deserialize_messages("[{\"content\": \"a\",\"level\":\"info\"}]").is_none());
    // keys in the wrong order
    assert!(deserialize_messages("[{\"level\":\"info\",\"content\":\"a\"}]").is_none());
    // unknown level name
    assert!(deserialize_messages("[{\"content\":\"a\",\"level\":\"fatal\"}]").is_none());
    // capitalized level name
    assert!(deserialize_messages("[{\"content\":\"a\",\"level\":\"Info\"}]").is_none());
    // trailing comma
    assert!(deserialize_messages("[{\"content\":\"a\",\"level\":\"info\"},]").is_none());
}

#[test]
fn accepts_exactly_the_canonical_form() {
    let text = "[{\"content\":\"a\",\"level\":\"info\"}]";
    let back = deserialize_messages(text).expect("canonical text must parse");
    assert_eq!(back.len(), 1);
    assert_eq!(back[0].content(), "a");
    assert_eq!(back[0].level(), Level::Info);
}

#[test]
fn escaping_uses_percent_triplets() {
    let escaped: Vec<char> = escape_cookie_value("a/b c%d");
    let text: String = escaped.into_iter().collect();
    assert_eq!(text, "a%2Fb%20c%25d");
}

#[test]
fn escaping_covers_the_unsafe_set() {
    let escaped: Vec<char> = escape_cookie_value("\"<>`#?{}/:;=@[\\]^|");
    let text: String = escaped.into_iter().collect();
    assert_eq!(
        text,
        "%22%3C%3E%60%23%3F%7B%7D%2F%3A%3B%3D%40%5B%5C%5D%5E%7C"
    );
}

#[test]
fn unescaping_inverts_escaping() {
    let original = "a/b c%d ✓ \"x\" [y]";
    let escaped: Vec<char> = escape_cookie_value(original);
    let text: String = escaped.into_iter().collect();
    let bytes = unescape_cookie_value(&text);
    assert_eq!(String::from_utf8(bytes).unwrap(), original);
}

#[test]
fn unescaping_passes_invalid_escapes_through() {
    let bytes = unescape_cookie_value("a%zz%4");
    assert_eq!(String::from_utf8(bytes).unwrap(), "a%zz%4");
}
