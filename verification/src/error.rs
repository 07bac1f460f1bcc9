//! The closed error taxonomy of the library. Every failure a caller can see
//! is one of these kinds, each carrying the context it arose from.

use vstd::prelude::*;
use vstd::string::StrSliceExecFns;
use vstd::string::StringExecFns;

verus! {

#[derive(Debug)]
pub enum Error {
    /// A filesystem or OS-registry access failed.
    IoError(String),
    /// The persisted configuration document is malformed.
    ParseError(String),
    /// No browser with the given id exists; carries the id.
    NotFound(String),
    /// An icon MIME type outside the supported set; carries the MIME type.
    UnsupportedFormat(String),
    /// A transport-encoded icon payload could not be decoded.
    DecodeError(String),
    /// An external browser process could not be started.
    SpawnError(String),
    /// A step of the default-handler registration sequence failed.
    RegistrationError(String),
    /// A default-handler operation was invoked on a platform without support.
    UnsupportedPlatform,
}

impl Error {
    pub open spec fn spec_message(&self) -> Seq<char> {
        match self {
            Error::IoError(d) => "I/O failure: "@ + d@,
            Error::ParseError(d) => "malformed configuration: "@ + d@,
            Error::NotFound(id) => "browser with id '"@ + id@ + "' not found"@,
            Error::UnsupportedFormat(m) => "unsupported image format: "@ + m@,
            Error::DecodeError(d) => "failed to decode icon data: "@ + d@,
            Error::SpawnError(d) => "failed to start browser: "@ + d@,
            Error::RegistrationError(d) => "failed to register as default browser: "@ + d@,
            Error::UnsupportedPlatform => "setting the default browser is not supported on this platform"@,
        }
    }

    /// The descriptive message surfaced to callers.
    pub fn message(&self) -> (r: String)
        ensures
            r@ == self.spec_message(),
    {
        match self {
            Error::IoError(d) => {
                let mut s = String::from_str("I/O failure: ");
                s.append(d.as_str());
                s
            },
            Error::ParseError(d) => {
                let mut s = String::from_str("malformed configuration: ");
                s.append(d.as_str());
                s
            },
            Error::NotFound(id) => {
                let mut s = String::from_str("browser with id '");
                s.append(id.as_str());
                s.append("' not found");
                s
            },
            Error::UnsupportedFormat(m) => {
                let mut s = String::from_str("unsupported image format: ");
                s.append(m.as_str());
                s
            },
            Error::DecodeError(d) => {
                let mut s = String::from_str("failed to decode icon data: ");
                s.append(d.as_str());
                s
            },
            Error::SpawnError(d) => {
                let mut s = String::from_str("failed to start browser: ");
                s.append(d.as_str());
                s
            },
            Error::RegistrationError(d) => {
                let mut s = String::from_str("failed to register as default browser: ");
                s.append(d.as_str());
                s
            },
            Error::UnsupportedPlatform => {
                String::from_str("setting the default browser is not supported on this platform")
            },
        }
    }
}

} // verus!
