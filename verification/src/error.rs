//! Error kinds raised by the library's own logic.
//!
//! Failures that originate in outside collaborators (the discovery
//! transport, the network stack, the filesystem) are wrapped by the
//! application layer; the variants here cover what the verified logic
//! itself can detect.

use vstd::prelude::*;

verus! {

/// An error raised by the library's own logic.
#[derive(Debug, Clone)]
pub enum Error {
    /// A device with the requested identifier is not in the cache.
    DeviceNotFound { device_id: String },
    /// The firmware binary path does not point at a usable file.
    InvalidBinary { msg: String },
    /// A value (range header, integer) could not be parsed.
    ParserError { msg: String },
    /// An HTTP request was malformed or unsupported.
    InvalidRequest { msg: String },
    /// Anything else.
    GenericError { msg: String },
}

impl Error {
    /// A short human-readable description, in place of `Display`.
    pub fn message(&self) -> (r: String)
        ensures
            r@ == self.spec_message(),
    {
        match self {
            Error::DeviceNotFound { device_id } => {
                let mut s = String::from_str("Device with id: ");
                s.append(device_id.as_str());
                s.append(" not found");
                s
            },
            Error::InvalidBinary { msg } => {
                let mut s = String::from_str("Invalid binary: ");
                s.append(msg.as_str());
                s
            },
            Error::ParserError { msg } => {
                let mut s = String::from_str("Parser error: ");
                s.append(msg.as_str());
                s
            },
            Error::InvalidRequest { msg } => {
                let mut s = String::from_str("Invalid request: ");
                s.append(msg.as_str());
                s
            },
            Error::GenericError { msg } => msg.clone(),
        }
    }

    /// What `message` returns, as a sequence of characters.
    pub open spec fn spec_message(&self) -> Seq<char> {
        match self {
            Error::DeviceNotFound { device_id } => "Device with id: "@ + device_id@ + " not found"@,
            Error::InvalidBinary { msg } => "Invalid binary: "@ + msg@,
            Error::ParserError { msg } => "Parser error: "@ + msg@,
            Error::InvalidRequest { msg } => "Invalid request: "@ + msg@,
            Error::GenericError { msg } => msg@,
        }
    }
}

} // verus!
