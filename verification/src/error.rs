//! What can go wrong while decoding a frame or opening a session.

use vstd::prelude::*;
use vstd::string::*;

verus! {

/// The reasons for which the codec or the handshake gives up.
#[derive(Debug, Clone, Copy, PartialEq, Eq)]
pub enum StompError {
    /// The buffer ends before the frame does. More bytes may complete it.
    Incomplete,
    /// The bytes are not laid out as a frame.
    MalformedFrame,
    /// The frame's command is none that this direction knows.
    UnrecognizedCommand,
    /// A header that the command requires is absent. The header is named.
    MissingHeader(&'static str),
    /// A header holds a value that its meaning does not allow. The header is
    /// named.
    InvalidHeaderValue(&'static str),
    /// The server answered the connection request with anything but
    /// `CONNECTED`, or not at all.
    HandshakeFailed,
}

impl StompError {
    /// The text that `describe` gives for an error.
    pub open spec fn description(self) -> Seq<char> {
        match self {
            StompError::Incomplete => "Frame incomplete"@,
            StompError::MalformedFrame => "Parse failed"@,
            StompError::UnrecognizedCommand => "Frame not recognized"@,
            StompError::MissingHeader(name) => "Expected header '"@ + name@ + "' missing"@,
            StompError::InvalidHeaderValue(name) => "Invalid value of header '"@ + name@ + "'"@,
            StompError::HandshakeFailed => "unexpected reply"@,
        }
    }

    /// Is the error the end of the session? Every error is, but for
    /// `Incomplete`, which only asks for more bytes.
    pub open spec fn fatal(self) -> bool {
        !(self is Incomplete)
    }

    /// A line of text that says what went wrong.
    pub fn describe(&self) -> (r: String)
        ensures
            r@ == self.description(),
    {
        match self {
            StompError::Incomplete => String::from_str("Frame incomplete"),
            StompError::MalformedFrame => String::from_str("Parse failed"),
            StompError::UnrecognizedCommand => String::from_str("Frame not recognized"),
            StompError::MissingHeader(name) => String::from_str("Expected header '").concat(
                name,
            ).concat("' missing"),
            StompError::InvalidHeaderValue(name) => String::from_str(
                "Invalid value of header '",
            ).concat(name).concat("'"),
            StompError::HandshakeFailed => String::from_str("unexpected reply"),
        }
    }

    /// Does the error end the session?
    pub fn is_fatal(&self) -> (r: bool)
        ensures
            r == self.fatal(),
    {
        match self {
            StompError::Incomplete => false,
            _ => true,
        }
    }
}

} // verus!
