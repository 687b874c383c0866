//! Error values surfaced by the filesystem service.

use vstd::prelude::*;
use vstd::string::*;

verus! {

/// The error kinds an operation can surface.  Each carries a
/// human-readable description; none is retried automatically.
#[derive(Debug)]
pub enum ServiceError {
    /// A write-class operation was requested while the service runs read-only.
    NoWriteAccess,
    /// A path fell outside the allowed directories.
    FromString(String),
    /// A required file or directory does not exist.
    NotFound(String),
    /// A target that must not exist beforehand already exists.
    AlreadyExists(String),
    /// A malformed request, such as an empty file list.
    InvalidInput(String),
    /// No edit target could be located in the file's content.
    NoMatch(String),
    /// An underlying input/output failure, carried as its description.
    Io(String),
    /// A malformed glob pattern.
    Pattern(String),
}

/// The description of `e`, as a sequence of characters.
pub open spec fn spec_message(e: &ServiceError) -> Seq<char> {
    match e {
        ServiceError::NoWriteAccess => no_write_access_text()@,
        ServiceError::FromString(s) => s@,
        ServiceError::NotFound(s) => s@,
        ServiceError::AlreadyExists(s) => s@,
        ServiceError::InvalidInput(s) => s@,
        ServiceError::NoMatch(s) => s@,
        ServiceError::Io(s) => s@,
        ServiceError::Pattern(s) => s@,
    }
}

/// The fixed text used when write access is refused.
pub open spec fn no_write_access_text() -> &'static str {
    "Service is running in read-only mode. To enable write access, please run with the --allow-write flag."
}

impl ServiceError {
    /// A human-readable description of the error.
    pub fn message(&self) -> (r: String)
        ensures
            r@ == spec_message(self),
    {
        match self {
            ServiceError::NoWriteAccess => String::from_str(
                "Service is running in read-only mode. To enable write access, please run with the --allow-write flag.",
            ),
            ServiceError::FromString(s) => s.clone(),
            ServiceError::NotFound(s) => s.clone(),
            ServiceError::AlreadyExists(s) => s.clone(),
            ServiceError::InvalidInput(s) => s.clone(),
            ServiceError::NoMatch(s) => s.clone(),
            ServiceError::Io(s) => s.clone(),
            ServiceError::Pattern(s) => s.clone(),
        }
    }
}

} // verus!
