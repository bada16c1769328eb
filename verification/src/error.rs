//! Errors raised while reading a site's source.

use vstd::prelude::*;

verus! {

/// The error that the YAML scanner reports.
#[verifier::external_type_specification]
#[verifier::external_body]
pub struct ExScanError(yaml_rust::ScanError);

/// An I/O error.
#[verifier::external_type_specification]
#[verifier::external_body]
pub struct ExIoError(std::io::Error);

/// An error in the site's source.
#[derive(Debug)]
pub enum SourceError {
    /// The YAML could not be scanned.
    Parse(yaml_rust::ScanError),
    /// A file could not be read.
    Read(std::io::Error),
    /// The configuration or front matter is invalid; the message says how.
    Config(String),
}

/// An error together with the path of the file or directory it concerns.
#[derive(Debug)]
pub struct AnnotatedError<E> {
    pub location: String,
    pub error: E,
}

impl SourceError {
    /// A short description of the kind of error.
    pub fn description(&self) -> (r: &'static str)
        ensures
            r@ == match self {
                SourceError::Parse(_) => "yaml parse error"@,
                SourceError::Read(_) => "read error"@,
                SourceError::Config(_) => "config error"@,
            },
    {
        match self {
            SourceError::Parse(_) => "yaml parse error",
            SourceError::Read(_) => "read error",
            SourceError::Config(_) => "config error",
        }
    }

    /// A configuration error with the given message.
    pub fn config(msg: &str) -> (r: SourceError)
        ensures
            r matches SourceError::Config(m) && m@ == msg@,
    {
        SourceError::Config(msg.to_owned())
    }
}

impl<E> AnnotatedError<E> {
    /// Annotates an error with a location.
    pub fn new(location: String, error: E) -> (r: AnnotatedError<E>)
        ensures
            r.location == location,
            r.error == error,
    {
        AnnotatedError { location, error }
    }
}

} // verus!
