//! Error type for the crate.

use serde_json::Error as JsonError;
use std::time::Duration;
use vstd::prelude::*;

verus! {

/// Declares std's `std::io::Error`, which is carried through and never looked
/// into.
#[verifier::external_type_specification]
#[verifier::external_body]
pub struct ExIoError(std::io::Error);

/// Declares `serde_json::Error`, which is carried through and never looked into.
#[verifier::external_type_specification]
#[verifier::external_body]
pub struct ExJsonError(JsonError);

/// All errors that can occur while pinging a Minecraft server.
#[derive(Debug)]
pub enum Error {
    /// Underlying TCP / I/O failure (connect, read, write, ...).
    Io(std::io::Error),
    /// DNS resolution failed.
    Dns(String),
    /// The whole ping operation exceeded [`crate::PingOptions::timeout`].
    Timeout(Duration),
    /// The server sent bytes that do not form a valid protocol frame.
    Malformed(String),
    /// The server replied with a packet id we did not ask for.
    UnexpectedPacket { expected: u8, got: u8 },
    /// The incoming frame exceeds the configured
    /// [`crate::PingOptions::max_frame_size`].
    FrameTooLarge { len: u32, limit: u32 },
    /// The status JSON payload could not be parsed.
    Json(JsonError),
}

impl From<std::io::Error> for Error {
    fn from(error: std::io::Error) -> (res: Self) {
        Error::Io(error)
    }
}

impl vstd::std_specs::convert::FromSpecImpl<std::io::Error> for Error {
    open spec fn obeys_from_spec() -> bool {
        true
    }

    open spec fn from_spec(error: std::io::Error) -> Self {
        Error::Io(error)
    }
}

impl From<JsonError> for Error {
    fn from(error: JsonError) -> (res: Self) {
        Error::Json(error)
    }
}

impl vstd::std_specs::convert::FromSpecImpl<JsonError> for Error {
    open spec fn obeys_from_spec() -> bool {
        true
    }

    open spec fn from_spec(error: JsonError) -> Self {
        Error::Json(error)
    }
}

/// The ways in which received bytes can be refused, with the message as text.
pub enum Refusal {
    Malformed(Seq<char>),
    UnexpectedPacket { expected: u8, got: u8 },
    FrameTooLarge { len: u32, limit: u32 },
}

impl Error {
    /// Whether the error says just this.
    pub open spec fn says(self, refusal: Refusal) -> bool {
        match refusal {
            Refusal::Malformed(message) => self matches Error::Malformed(found) && found@
                == message,
            Refusal::UnexpectedPacket { expected, got } => self == (Error::UnexpectedPacket {
                expected,
                got,
            }),
            Refusal::FrameTooLarge { len, limit } => self == (Error::FrameTooLarge { len, limit }),
        }
    }
}

} // verus!
