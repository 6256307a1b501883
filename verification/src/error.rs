//! The errors of Gun's operations.
use vstd::prelude::*;
use crate::text::concat;

verus! {

/// An error of a Gun operation. Errors that arise in storage, serialization,
/// I/O or URL parsing carry the message of the error that caused them.
#[derive(Debug)]
pub enum GunError {
    /// Invalid data format or structure.
    InvalidData(String),
    /// A storage operation failed.
    Storage(String),
    /// JSON serialization or deserialization failed.
    Serialization(String),
    /// A network operation failed.
    Network(String),
    /// A soul (node identifier) is invalid.
    InvalidSoul(String),
    /// The requested node is not in the graph.
    NodeNotFound,
    /// An I/O operation failed.
    Io(String),
    /// A peer URL could not be parsed.
    UrlParseError(String),
    /// A WebRTC operation failed.
    WebRTC(String),
    /// A cryptographic operation failed.
    Crypto(String),
}

/// The result of a Gun operation.
pub type GunResult<T> = Result<T, GunError>;

} // verus!

verus! {

/// The message of an error: a heading that names its kind, then, where it carries one,
/// a colon, a space and its own message.
pub open spec fn error_text(e: GunError) -> Seq<char> {
    match e {
        GunError::InvalidData(m) => "Invalid data: "@ + m@,
        GunError::Storage(m) => "Storage error: "@ + m@,
        GunError::Serialization(m) => "Serialization error: "@ + m@,
        GunError::Network(m) => "Network error: "@ + m@,
        GunError::InvalidSoul(m) => "Invalid soul: "@ + m@,
        GunError::NodeNotFound => "Node not found"@,
        GunError::Io(m) => "IO error: "@ + m@,
        GunError::UrlParseError(m) => "URL parse error: "@ + m@,
        GunError::WebRTC(m) => "WebRTC error: "@ + m@,
        GunError::Crypto(m) => "Crypto error: "@ + m@,
    }
}

impl GunError {
    /// The error's message, as it is shown to a user.
    pub fn to_string(&self) -> (s: String)
        ensures
            s@ == error_text(*self),
    {
        match self {
            GunError::InvalidData(m) => concat("Invalid data: ", m.as_str()),
            GunError::Storage(m) => concat("Storage error: ", m.as_str()),
            GunError::Serialization(m) => concat("Serialization error: ", m.as_str()),
            GunError::Network(m) => concat("Network error: ", m.as_str()),
            GunError::InvalidSoul(m) => concat("Invalid soul: ", m.as_str()),
            GunError::NodeNotFound => "Node not found".to_owned(),
            GunError::Io(m) => concat("IO error: ", m.as_str()),
            GunError::UrlParseError(m) => concat("URL parse error: ", m.as_str()),
            GunError::WebRTC(m) => concat("WebRTC error: ", m.as_str()),
            GunError::Crypto(m) => concat("Crypto error: ", m.as_str()),
        }
    }
}

} // verus!
