//! One-shot notification ("flash message") support for web applications.
//!
//! A handler appends short-lived messages to a per-request mailbox; a storage
//! backend carries whatever the mailbox holds across exactly one
//! response/request boundary, either inside a signed cookie or inside a
//! session store, and the next load consumes them.

pub mod codec;
pub mod cookies;
pub mod escape;
pub mod framework;
pub mod incoming;
pub mod interface;
pub mod level;
pub mod mailbox;
pub mod message;
pub mod sessions;
pub mod signing;
pub mod strutil;

pub use cookies::{CookieMessageStore, CookieMessageStoreBuilder, ResponseCookie};
pub use framework::{FlashMessagesFramework, FlashMessagesFrameworkBuilder};
pub use incoming::{extract_flash_messages, IncomingFlashMessages};
pub use interface::{
    CookiePair, FlashMessageStore, LoadError, RequestModel, ResponseModel, StoreError,
};
pub use level::{level_to_str, Level};
pub use mailbox::OutgoingMailbox;
pub use message::{FlashMessage, MessageView};
pub use sessions::{SessionMessageStore, SessionState};
