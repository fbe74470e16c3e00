use vstd::prelude::*;

verus! {

use vstd::string::StringExecFns;

/// The failure taxonomy of the library.  Every component reports one of
/// these values instead of aborting: I/O trouble, registry trouble, a thing
/// that was searched for and not found, an unsupported archive type, a
/// checksum mismatch (carrying both digests), a missing cached file, and a
/// configuration with no way to acquire anything.
#[derive(Debug)]
pub enum Error {
    IoError(String),
    Config(String),
    Url(String),
    Serde(String),
    Api(String),
    NotFound(String),
    FileTypeNotSupported(String),
    Unspecified(String),
    Mismatch { expected: String, actual: String },
    CacheFileNotFound(String),
    NoDownloadStrategy,
}

impl Error {
    pub fn new(message: &str) -> (r: Self)
        ensures
            r is Unspecified,
            r->Unspecified_0@ == message@,
    {
        Error::Unspecified(String::from_str(message))
    }

    /// What each error means, as a short prefixed line of text.
    pub open spec fn spec_message(&self) -> Seq<char> {
        match self {
            Error::IoError(e) => "IO: "@ + e@,
            Error::Config(e) => "Config: "@ + e@,
            Error::Url(e) => "URL Error: "@ + e@,
            Error::Serde(e) => "Serde: "@ + e@,
            Error::Api(e) => "API: "@ + e@,
            Error::NotFound(e) => "Not found: "@ + e@,
            Error::FileTypeNotSupported(e) => "File type not supported: "@ + e@,
            Error::Unspecified(e) => "Unspecified: "@ + e@,
            Error::Mismatch { expected, actual } => "Hash Mismatch Error: expected "@ + expected@
                + ", got "@ + actual@,
            Error::CacheFileNotFound(e) => "Cache file not found: "@ + e@,
            Error::NoDownloadStrategy => "No download strategy"@,
        }
    }

    /// A readable description of the error, for the surrounding program to
    /// print or log.
    pub fn message(&self) -> (r: String)
        ensures
            r@ == self.spec_message(),
    {
        match self {
            Error::IoError(e) => String::from_str("IO: ").concat(e.as_str()),
            Error::Config(e) => String::from_str("Config: ").concat(e.as_str()),
            Error::Url(e) => String::from_str("URL Error: ").concat(e.as_str()),
            Error::Serde(e) => String::from_str("Serde: ").concat(e.as_str()),
            Error::Api(e) => String::from_str("API: ").concat(e.as_str()),
            Error::NotFound(e) => String::from_str("Not found: ").concat(e.as_str()),
            Error::FileTypeNotSupported(e) => String::from_str(
                "File type not supported: ",
            ).concat(e.as_str()),
            Error::Unspecified(e) => String::from_str("Unspecified: ").concat(e.as_str()),
            Error::Mismatch { expected, actual } => String::from_str(
                "Hash Mismatch Error: expected ",
            ).concat(expected.as_str()).concat(", got ").concat(actual.as_str()),
            Error::CacheFileNotFound(e) => String::from_str("Cache file not found: ").concat(
                e.as_str(),
            ),
            Error::NoDownloadStrategy => String::from_str("No download strategy"),
        }
    }
}

} // verus!
