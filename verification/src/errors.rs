//! The error taxonomy. Each error carries enough to print a clear message
//! and maps to a distinct non-zero exit code; the shell around the library
//! chooses the variant for each I/O or transport failure it encounters.

use vstd::prelude::*;
use vstd::string::*;

verus! {

/// Everything that can go wrong during one invocation.
///
/// `TransportError` and `RemoteError` carry the detail the transport
/// layer observed, so the message can surface it.
#[derive(Debug, PartialEq, Eq)]
pub enum Error {
    /// The local store file exists but does not parse as a note collection.
    StoreCorrupt,
    /// The content file given to `add` does not exist.
    FileNotFound,
    /// The content path given to `add` is not a regular file.
    NotAFile,
    /// The network was unreachable or the request timed out.
    TransportError(String),
    /// The remote service answered with a non-success status.
    RemoteError(String),
}

/// The human-readable message for each error.
pub open spec fn spec_message(e: Error) -> Seq<char> {
    match e {
        Error::StoreCorrupt => "local note store exists but could not be parsed"@,
        Error::FileNotFound => "the given file does not exist"@,
        Error::NotAFile => "the given path is not a regular file"@,
        Error::TransportError(d) => "network failure: "@ + d@,
        Error::RemoteError(d) => "remote service error: "@ + d@,
    }
}

/// The process exit code for each error; every variant gets its own.
pub open spec fn spec_exit_code(e: Error) -> i32 {
    match e {
        Error::StoreCorrupt => 2,
        Error::FileNotFound => 3,
        Error::NotAFile => 4,
        Error::TransportError(_) => 5,
        Error::RemoteError(_) => 6,
    }
}

impl Error {
    /// The message to print on the error stream.
    pub fn message(&self) -> (r: String)
        ensures
            r@ == spec_message(*self),
    {
        match self {
            Error::StoreCorrupt => "local note store exists but could not be parsed".to_owned(),
            Error::FileNotFound => "the given file does not exist".to_owned(),
            Error::NotAFile => "the given path is not a regular file".to_owned(),
            Error::TransportError(d) => {
                let mut m = "network failure: ".to_owned();
                m.append(d.as_str());
                m
            },
            Error::RemoteError(d) => {
                let mut m = "remote service error: ".to_owned();
                m.append(d.as_str());
                m
            },
        }
    }

    /// The exit code to end the process with; never zero.
    pub fn exit_code(&self) -> (r: i32)
        ensures
            r == spec_exit_code(*self),
            r != 0,
    {
        match self {
            Error::StoreCorrupt => 2,
            Error::FileNotFound => 3,
            Error::NotAFile => 4,
            Error::TransportError(_) => 5,
            Error::RemoteError(_) => 6,
        }
    }
}

} // verus!
