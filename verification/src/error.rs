//! The error type shared by every fallible operation of the store.

use std::num::ParseIntError;
use vstd::prelude::*;
use vstd::std_specs::convert::FromSpecImpl;

verus! {

/// `std::io::Error`: a failure of an input or output operation.
#[verifier::external_type_specification]
#[verifier::external_body]
pub struct ExIoError(std::io::Error);

/// `std::num::ParseIntError`: why a text was not accepted as an integer.
#[verifier::external_type_specification]
#[verifier::external_body]
pub struct ExParseIntError(ParseIntError);

/// `ToString::to_string` on `std::io::Error`: the description of the
/// failure, which for failures of the operating system is the system's own
/// text.
#[verifier::external_body]
fn io_failure_message(e: &std::io::Error) -> (message: String) {
    e.to_string()
}

/// `ToString::to_string` on `ParseIntError`: the description of the
/// failure.
#[verifier::external_body]
fn parse_failure_message(e: &ParseIntError) -> (message: String) {
    e.to_string()
}

/// What went wrong.
#[derive(Clone, Copy, Debug, PartialEq, Eq, Structural)]
pub enum ErrorKind {
    /// A failure of the underlying storage.
    Io,
    /// Malformed text handed in by the caller.
    Parse,
    /// A read started at an offset that is not the boundary of a row, or met
    /// a row with another number of fields than its schema has.
    FilePointerCorrupt,
    /// A row with the same primary key is already stored.
    AlreadyExists,
    /// No row with the requested primary key is stored.
    NotFound,
}

/// An error: its kind and a message for people.
#[derive(Debug)]
pub struct Error {
    pub kind: ErrorKind,
    pub message: String,
}

impl ErrorKind {
    /// The fixed description of each kind.
    pub open spec fn text(self) -> Seq<char> {
        match self {
            ErrorKind::Io => "io error"@,
            ErrorKind::Parse => "parsing error"@,
            ErrorKind::FilePointerCorrupt => "file pointer is corrupt"@,
            ErrorKind::AlreadyExists => "already exists"@,
            ErrorKind::NotFound => "record not found"@,
        }
    }

    pub fn as_str(&self) -> (s: &'static str)
        ensures
            s@ == self.text(),
    {
        match *self {
            ErrorKind::Io => "io error",
            ErrorKind::Parse => "parsing error",
            ErrorKind::FilePointerCorrupt => "file pointer is corrupt",
            ErrorKind::AlreadyExists => "already exists",
            ErrorKind::NotFound => "record not found",
        }
    }

    /// The description as an owned string.
    pub fn to_string(&self) -> (s: String)
        ensures
            s@ == self.text(),
    {
        self.as_str().to_owned()
    }
}

/// The message of a lookup that found no row with the id.
pub open spec fn missing_text() -> Seq<char> {
    "record with a given id doesn't exist"@
}

/// The message of a removal that found no row with the id.
pub open spec fn absent_text() -> Seq<char> {
    "record not found"@
}

/// The message of an insertion whose id is taken.
pub open spec fn duplicate_text() -> Seq<char> {
    "id already exists"@
}

/// The message of a read that started off a row boundary.
pub open spec fn corrupt_text() -> Seq<char> {
    "file pointer is corrupt"@
}

/// The message of a seek to an offset before the start.
pub open spec fn seek_text() -> Seq<char> {
    "invalid seek to a negative position"@
}

impl Error {
    /// This error has the given kind and message.
    pub open spec fn is(&self, kind: ErrorKind, message: Seq<char>) -> bool {
        self.kind == kind && self.message@ == message
    }

    /// A lookup found no row with the id.
    pub fn missing() -> (e: Error)
        ensures
            e.is(ErrorKind::NotFound, missing_text()),
    {
        Error::with_message(ErrorKind::NotFound, "record with a given id doesn't exist")
    }

    /// A removal found no row with the id.
    pub fn absent() -> (e: Error)
        ensures
            e.is(ErrorKind::NotFound, absent_text()),
    {
        Error::with_message(ErrorKind::NotFound, "record not found")
    }

    /// An insertion whose id is taken.
    pub fn duplicate() -> (e: Error)
        ensures
            e.is(ErrorKind::AlreadyExists, duplicate_text()),
    {
        Error::with_message(ErrorKind::AlreadyExists, "id already exists")
    }

    /// A read started off a row boundary.
    pub fn corrupt() -> (e: Error)
        ensures
            e.is(ErrorKind::FilePointerCorrupt, corrupt_text()),
    {
        Error::with_message(ErrorKind::FilePointerCorrupt, "file pointer is corrupt")
    }

    /// A seek to an offset before the start.
    pub fn bad_seek() -> (e: Error)
        ensures
            e.is(ErrorKind::Io, seek_text()),
    {
        Error::with_message(ErrorKind::Io, "invalid seek to a negative position")
    }

    /// An error of the given kind with a message of its own.
    pub fn with_message(kind: ErrorKind, message: &str) -> (e: Error)
        ensures
            e.kind == kind,
            e.message@ == message@,
    {
        Error { kind, message: message.to_owned() }
    }
}

impl From<std::io::Error> for Error {
    /// A failure of the underlying storage, with its description.
    fn from(e: std::io::Error) -> (r: Error)
        ensures
            r.kind == ErrorKind::Io,
    {
        Error { kind: ErrorKind::Io, message: io_failure_message(&e) }
    }
}

impl FromSpecImpl<std::io::Error> for Error {
    open spec fn obeys_from_spec() -> bool {
        false
    }

    open spec fn from_spec(e: std::io::Error) -> Error {
        choose|r: Error| r.kind == ErrorKind::Io
    }
}

impl From<ParseIntError> for Error {
    /// A text that is no integer, with the description of what is wrong
    /// with it.
    fn from(error: ParseIntError) -> (r: Error)
        ensures
            r.kind == ErrorKind::Parse,
    {
        Error { kind: ErrorKind::Parse, message: parse_failure_message(&error) }
    }
}

impl FromSpecImpl<ParseIntError> for Error {
    open spec fn obeys_from_spec() -> bool {
        false
    }

    open spec fn from_spec(error: ParseIntError) -> Error {
        choose|r: Error| r.kind == ErrorKind::Parse
    }
}

} // verus!
