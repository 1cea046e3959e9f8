use vstd::prelude::*;

use crate::outside::io_error_text;
use crate::text::{decimal, push_decimal};

verus! {

/// What went wrong when the serial driver enumerated or opened ports.
#[derive(Debug, Clone, Copy, PartialEq, Eq)]
pub enum PortErrorKind {
    NoDevice,
    InvalidInput,
    Unknown,
    Io,
}

/// A port enumeration or open failure, as the driver described it.
#[derive(Debug, Clone, PartialEq, Eq)]
pub struct PortError {
    pub kind: PortErrorKind,
    pub description: String,
}

/// Failures of serial configuration, discovery, and I/O.
#[derive(Debug)]
pub enum Error {
    InvalidConfiguration(&'static str),
    PortEnumerationFailed(PortError),
    PortOpenFailed(PortError),
    ReadFailed(std::io::Error),
    WriteFailed(std::io::Error),
    FlushFailed(std::io::Error),
    Timeout { partial: Vec<u8> },
    ReadLimitExceeded { max_bytes: usize, partial: Vec<u8> },
}

impl Error {
    /// The bytes received before a timeout or an exceeded read limit.
    pub open spec fn spec_partial(&self) -> Option<Seq<u8>> {
        match self {
            Error::Timeout { partial } => Some(partial@),
            Error::ReadLimitExceeded { partial, .. } => Some(partial@),
            _ => None,
        }
    }

    pub fn partial(&self) -> (bytes: Option<&[u8]>)
        ensures
            match self.spec_partial() {
                Some(p) => bytes matches Some(b) && b@ == p,
                None => bytes is None,
            },
    {
        match self {
            Error::Timeout { partial } => Some(partial.as_slice()),
            Error::ReadLimitExceeded { partial, .. } => Some(partial.as_slice()),
            _ => None,
        }
    }
}


/// The text of the errors whose `Display` does not depend on an I/O error.
pub open spec fn error_text(error: Error) -> Seq<char> {
    match error {
        Error::InvalidConfiguration(m) => "invalid configuration: "@ + m@,
        Error::PortEnumerationFailed(e) => "port enumeration failed: "@ + e.description@,
        Error::PortOpenFailed(e) => "port open failed: "@ + e.description@,
        Error::Timeout { partial } => "read timed out after "@ + decimal(partial@.len())
            + " bytes"@,
        Error::ReadLimitExceeded { max_bytes, .. } => "read limit of "@ + decimal(
            max_bytes as nat,
        ) + " bytes exceeded"@,
        Error::ReadFailed(_) => "read failed: "@,
        Error::WriteFailed(_) => "write failed: "@,
        Error::FlushFailed(_) => "flush failed: "@,
    }
}

impl Error {
    /// The error's text, as its `Display` writes it. For the I/O variants the text after
    /// the prefix is the operating system's description of the failure.
    pub fn message(&self) -> (text: String)
        ensures
            error_text(*self).is_prefix_of(text@),
            !(self is ReadFailed || self is WriteFailed || self is FlushFailed) ==> text@
                == error_text(*self),
            match self {
                Error::InvalidConfiguration(m) => text@ == "invalid configuration: "@ + m@,
                Error::PortEnumerationFailed(e) => text@ == "port enumeration failed: "@
                    + e.description@,
                Error::PortOpenFailed(e) => text@ == "port open failed: "@ + e.description@,
                Error::ReadFailed(_) => "read failed: "@.is_prefix_of(text@),
                Error::WriteFailed(_) => "write failed: "@.is_prefix_of(text@),
                Error::FlushFailed(_) => "flush failed: "@.is_prefix_of(text@),
                Error::Timeout { partial } => text@ == "read timed out after "@ + decimal(
                    partial@.len(),
                ) + " bytes"@,
                Error::ReadLimitExceeded { max_bytes, .. } => text@ == "read limit of "@ + decimal(
                    *max_bytes as nat,
                ) + " bytes exceeded"@,
            },
    {
        match self {
            Error::InvalidConfiguration(m) => {
                let mut text = String::from_str("invalid configuration: ");
                text.append(m);
                text
            },
            Error::PortEnumerationFailed(e) => {
                let mut text = String::from_str("port enumeration failed: ");
                text.append(e.description.as_str());
                text
            },
            Error::PortOpenFailed(e) => {
                let mut text = String::from_str("port open failed: ");
                text.append(e.description.as_str());
                text
            },
            Error::ReadFailed(e) => {
                let mut text = String::from_str("read failed: ");
                let detail = io_error_text(e);
                text.append(detail.as_str());
                text
            },
            Error::WriteFailed(e) => {
                let mut text = String::from_str("write failed: ");
                let detail = io_error_text(e);
                text.append(detail.as_str());
                text
            },
            Error::FlushFailed(e) => {
                let mut text = String::from_str("flush failed: ");
                let detail = io_error_text(e);
                text.append(detail.as_str());
                text
            },
            Error::Timeout { partial } => {
                let mut text = String::from_str("read timed out after ");
                push_decimal(&mut text, partial.len() as u128);
                text.append(" bytes");
                text
            },
            Error::ReadLimitExceeded { max_bytes, .. } => {
                let mut text = String::from_str("read limit of ");
                push_decimal(&mut text, *max_bytes as u128);
                text.append(" bytes exceeded");
                text
            },
        }
    }
}

} // verus!
