//! The severity scale of a flash message.

use vstd::prelude::*;

verus! {

/// The severity level of a [`FlashMessage`](crate::FlashMessage).
///
/// Levels form a total order, `Debug < Info < Success < Warning < Error`,
/// compared by ordinal. The order is used to filter outgoing messages
/// against a configured minimum.
#[derive(Clone, Copy, Debug, PartialEq, Eq, Structural)]
pub enum Level {
    /// Development-related messages, often hidden in production.
    Debug,
    /// Informational messages for the user.
    Info,
    /// Positive feedback after a successful action.
    Success,
    /// A warning the user should act on soon.
    Warning,
    /// A failed action.
    Error,
}

/// The ordinal of a level: `Debug` is lowest, `Error` highest.
pub open spec fn level_ord(l: Level) -> int {
    match l {
        Level::Debug => 0,
        Level::Info => 1,
        Level::Success => 2,
        Level::Warning => 3,
        Level::Error => 4,
    }
}

/// The lower-case name under which a level is rendered and serialized.
pub open spec fn spec_level_name(l: Level) -> Seq<char> {
    match l {
        Level::Debug => seq!['d', 'e', 'b', 'u', 'g'],
        Level::Info => seq!['i', 'n', 'f', 'o'],
        Level::Success => seq!['s', 'u', 'c', 'c', 'e', 's', 's'],
        Level::Warning => seq!['w', 'a', 'r', 'n', 'i', 'n', 'g'],
        Level::Error => seq!['e', 'r', 'r', 'o', 'r'],
    }
}

impl Level {
    /// The ordinal of this level as a machine integer.
    pub fn ordinal(self) -> (n: u8)
        ensures
            n == level_ord(self),
    {
        match self {
            Level::Debug => 0,
            Level::Info => 1,
            Level::Success => 2,
            Level::Warning => 3,
            Level::Error => 4,
        }
    }

    /// Whether this level reaches a configured minimum.
    pub fn at_least(self, minimum: Level) -> (r: bool)
        ensures
            r == (level_ord(self) >= level_ord(minimum)),
    {
        self.ordinal() >= minimum.ordinal()
    }
}

/// The lower-case display name of a level.
pub fn level_to_str(l: &Level) -> (r: &'static str)
    ensures
        r@ == spec_level_name(*l),
{
    match l {
        Level::Debug => {
            proof {
                reveal_strlit("debug");
            }
            "debug"
        },
        Level::Info => {
            proof {
                reveal_strlit("info");
            }
            "info"
        },
        Level::Success => {
            proof {
                reveal_strlit("success");
            }
            "success"
        },
        Level::Warning => {
            proof {
                reveal_strlit("warning");
            }
            "warning"
        },
        Level::Error => {
            proof {
                reveal_strlit("error");
            }
            "error"
        },
    }
}

} // verus!
