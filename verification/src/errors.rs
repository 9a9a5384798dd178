//! Error kinds shared by every operation of the engine.

use vstd::prelude::*;
use vstd::string::StringExecFns;
use crate::text::{spec_decimal, u64_string};

verus! {

/// The failure classes an archive operation can surface.  Payload strings
/// carry human-readable details; the variant itself is what the pipeline's
/// policy decisions are proved against.
#[derive(Debug, Clone)]
pub enum ExtractError {
    /// A filesystem or stream operation failed; the message came with it.
    Io(String),
    /// Malformed persisted metadata.
    Serde(String),
    /// A worker task could not complete.
    Join(String),
    /// A checksum or MAC did not match.
    IntegrityFailure { details: String },
    /// The requested format or codec name is not registered.
    Unsupported(String),
    /// An encrypted entry needs a password, or the given one is wrong.
    Password,
    /// Block-level codec corruption at a known offset.
    CorruptBlock { offset: u64 },
    /// An explicit placeholder: never silently treated as success.
    Unimplemented(String),
}

impl ExtractError {
    /// A human-readable description of the failure.
    pub open spec fn spec_message(self) -> Seq<char> {
        match self {
            ExtractError::Io(m) => "io error: "@ + m@,
            ExtractError::Serde(m) => "serde error: "@ + m@,
            ExtractError::Join(m) => "task join error: "@ + m@,
            ExtractError::IntegrityFailure { details } => "integrity failure: "@ + details@,
            ExtractError::Unsupported(name) => "unsupported format: "@ + name@,
            ExtractError::Password => "password required or incorrect"@,
            ExtractError::CorruptBlock { offset } => "corrupt block at offset "@ + spec_decimal(
                offset as nat,
            ),
            ExtractError::Unimplemented(m) => "unimplemented: "@ + m@,
        }
    }

    pub fn message(&self) -> (r: String)
        ensures
            r@ == self.spec_message(),
    {
        match self {
            ExtractError::Io(m) => {
                let mut s = String::from_str("io error: ");
                s.append(m.as_str());
                s
            },
            ExtractError::Serde(m) => {
                let mut s = String::from_str("serde error: ");
                s.append(m.as_str());
                s
            },
            ExtractError::Join(m) => {
                let mut s = String::from_str("task join error: ");
                s.append(m.as_str());
                s
            },
            ExtractError::IntegrityFailure { details } => {
                let mut s = String::from_str("integrity failure: ");
                s.append(details.as_str());
                s
            },
            ExtractError::Unsupported(name) => {
                let mut s = String::from_str("unsupported format: ");
                s.append(name.as_str());
                s
            },
            ExtractError::Password => String::from_str("password required or incorrect"),
            ExtractError::CorruptBlock { offset } => {
                let mut s = String::from_str("corrupt block at offset ");
                let d = u64_string(*offset);
                s.append(d.as_str());
                s
            },
            ExtractError::Unimplemented(m) => {
                let mut s = String::from_str("unimplemented: ");
                s.append(m.as_str());
                s
            },
        }
    }
}

} // verus!
