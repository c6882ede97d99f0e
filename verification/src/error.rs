//! The error type of the library.

use vstd::prelude::*;
use vstd::std_specs::convert::FromSpecImpl;
use crate::text::{decimal, u64_text};

verus! {

#[verifier::external_type_specification]
#[verifier::external_body]
pub struct ExIoError(std::io::Error);

#[verifier::external_type_specification]
#[verifier::external_body]
pub struct ExJsonError(serde_json::Error);

#[verifier::external_type_specification]
#[verifier::external_body]
pub struct ExHttpError(reqwest::Error);

#[verifier::external_type_specification]
#[verifier::external_body]
pub struct ExZipError(zip::result::ZipError);

/// What can go wrong loading courses, running servers and tests.
pub enum PraxisError {
    /// Filesystem errors (read, write, delete, create_dir).
    Io(std::io::Error),
    /// JSON parse and serialize errors.
    Json(serde_json::Error),
    /// HTTP client errors.
    Http(reqwest::Error),
    /// Zip archive errors.
    Zip(zip::result::ZipError),
    /// A resource (chapter, course, file) was not found.
    NotFound(String),
    /// The server crashed during an operation.
    ServerCrashed,
    /// The port is already in use.
    PortInUse(u16),
    /// The course needs a newer app.
    VersionMismatch { required: String, actual: String },
    /// Any other error, with its message.
    Other(String),
}

/// The message of an error whose text this library writes itself.
pub open spec fn error_message(e: PraxisError) -> Option<Seq<char>> {
    match e {
        PraxisError::NotFound(what) => Some(what@),
        PraxisError::ServerCrashed => Some("Server crashed"@),
        PraxisError::PortInUse(port) => Some("Port "@ + decimal(port as nat) + " is already in use"@),
        PraxisError::VersionMismatch { required, actual } => Some(
            "Course requires app version >= "@ + required@ + " but this is "@ + actual@,
        ),
        PraxisError::Other(msg) => Some(msg@),
        _ => None,
    }
}

/// The display text of an I/O error; the contract states nothing of it.
#[verifier::external_body]
fn io_error_text(e: &std::io::Error) -> String {
    e.to_string()
}

/// The display text of a JSON error; the contract states nothing of it.
#[verifier::external_body]
fn json_error_text(e: &serde_json::Error) -> String {
    e.to_string()
}

/// The display text of an HTTP client error; the contract states nothing
/// of it.
#[verifier::external_body]
fn http_error_text(e: &reqwest::Error) -> String {
    e.to_string()
}

/// The display text of a zip error; the contract states nothing of it.
#[verifier::external_body]
fn zip_error_text(e: &zip::result::ZipError) -> String {
    e.to_string()
}

impl PraxisError {
    /// The message shown for this error: the wrapped error's own text for
    /// I/O, JSON, HTTP and zip errors, else the text `error_message` gives.
    pub fn message(&self) -> (r: String)
        ensures
            error_message(*self) matches Some(m) ==> r@ == m,
    {
        match self {
            PraxisError::Io(e) => io_error_text(e),
            PraxisError::Json(e) => json_error_text(e),
            PraxisError::Http(e) => http_error_text(e),
            PraxisError::Zip(e) => zip_error_text(e),
            PraxisError::NotFound(what) => what.clone(),
            PraxisError::ServerCrashed => String::from_str("Server crashed"),
            PraxisError::PortInUse(port) => {
                let mut m = String::from_str("Port ");
                m.append(u64_text(*port as u64).as_str());
                m.append(" is already in use");
                m
            },
            PraxisError::VersionMismatch { required, actual } => {
                let mut m = String::from_str("Course requires app version >= ");
                m.append(required.as_str());
                m.append(" but this is ");
                m.append(actual.as_str());
                m
            },
            PraxisError::Other(msg) => msg.clone(),
        }
    }
}

impl From<std::io::Error> for PraxisError {
    fn from(e: std::io::Error) -> (r: PraxisError) {
        PraxisError::Io(e)
    }
}

impl FromSpecImpl<std::io::Error> for PraxisError {
    open spec fn obeys_from_spec() -> bool {
        true
    }

    open spec fn from_spec(v: std::io::Error) -> PraxisError {
        PraxisError::Io(v)
    }
}

impl From<serde_json::Error> for PraxisError {
    fn from(e: serde_json::Error) -> (r: PraxisError) {
        PraxisError::Json(e)
    }
}

impl FromSpecImpl<serde_json::Error> for PraxisError {
    open spec fn obeys_from_spec() -> bool {
        true
    }

    open spec fn from_spec(v: serde_json::Error) -> PraxisError {
        PraxisError::Json(v)
    }
}

impl From<reqwest::Error> for PraxisError {
    fn from(e: reqwest::Error) -> (r: PraxisError) {
        PraxisError::Http(e)
    }
}

impl FromSpecImpl<reqwest::Error> for PraxisError {
    open spec fn obeys_from_spec() -> bool {
        true
    }

    open spec fn from_spec(v: reqwest::Error) -> PraxisError {
        PraxisError::Http(v)
    }
}

impl From<zip::result::ZipError> for PraxisError {
    fn from(e: zip::result::ZipError) -> (r: PraxisError) {
        PraxisError::Zip(e)
    }
}

impl FromSpecImpl<zip::result::ZipError> for PraxisError {
    open spec fn obeys_from_spec() -> bool {
        true
    }

    open spec fn from_spec(v: zip::result::ZipError) -> PraxisError {
        PraxisError::Zip(v)
    }
}

} // verus!
