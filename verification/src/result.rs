//! Unified error type of the service.
//!
//! Errors carry their rendered message; the kind label is preserved so
//! that the D-Bus boundary can map every internal error to a stable
//! error-name string.

use vstd::prelude::*;

verus! {

/// Unified error type.  Each variant holds the rendered message of the
/// underlying failure.
#[derive(Clone, Debug, PartialEq, Eq)]
pub enum Error {
    /// I/O failure (filesystem, socket, device).
    Io(String),
    /// Network address parse failure.
    Addr(String),
    /// UTF-8 decode failure.
    Utf8(String),
    /// Integer parse failure.
    Int(String),
    /// JSON parse or encode failure.
    Json(String),
    /// TOML parse failure.
    Toml(String),
    /// D-Bus transport failure.
    DBus(String),
    /// Any other failure, tagged by a free-form message.
    Other(String),
}

impl Error {
    /// The stable kind label of this error.
    pub fn label(&self) -> (r: &'static str)
        ensures
            r@ == self.label_spec(),
    {
        match self {
            Error::Io(_) => "IO error",
            Error::Addr(_) => "Address error",
            Error::Utf8(_) => "UTF-8 error",
            Error::Int(_) => "Integer error",
            Error::Json(_) => "JSON error",
            Error::Toml(_) => "TOML error",
            Error::DBus(_) => "DBus error",
            Error::Other(_) => "Other error",
        }
    }

    /// What `label` returns for each variant.
    pub open spec fn label_spec(&self) -> Seq<char> {
        match self {
            Error::Io(_) => "IO error"@,
            Error::Addr(_) => "Address error"@,
            Error::Utf8(_) => "UTF-8 error"@,
            Error::Int(_) => "Integer error"@,
            Error::Json(_) => "JSON error"@,
            Error::Toml(_) => "TOML error"@,
            Error::DBus(_) => "DBus error"@,
            Error::Other(_) => "Other error"@,
        }
    }

    /// The message carried by this error.
    pub fn message(&self) -> (r: &String)
        ensures
            r@ == self.message_spec(),
    {
        match self {
            Error::Io(m) => m,
            Error::Addr(m) => m,
            Error::Utf8(m) => m,
            Error::Int(m) => m,
            Error::Json(m) => m,
            Error::Toml(m) => m,
            Error::DBus(m) => m,
            Error::Other(m) => m,
        }
    }

    /// What `message` returns for each variant.
    pub open spec fn message_spec(&self) -> Seq<char> {
        match self {
            Error::Io(m) => m@,
            Error::Addr(m) => m@,
            Error::Utf8(m) => m@,
            Error::Int(m) => m@,
            Error::Json(m) => m@,
            Error::Toml(m) => m@,
            Error::DBus(m) => m@,
            Error::Other(m) => m@,
        }
    }
}

} // verus!
