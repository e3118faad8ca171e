//! The error type of every socket operation.

use vstd::prelude::*;

verus! {

/// What went wrong, in the categories of the standard library's I/O errors.
#[derive(Clone, Copy, Debug, PartialEq, Eq, Structural, Hash)]
pub enum ErrorKind {
    NotFound,
    PermissionDenied,
    ConnectionRefused,
    ConnectionReset,
    HostUnreachable,
    NetworkUnreachable,
    ConnectionAborted,
    NotConnected,
    AddrInUse,
    AddrNotAvailable,
    NetworkDown,
    BrokenPipe,
    AlreadyExists,
    WouldBlock,
    NotADirectory,
    IsADirectory,
    DirectoryNotEmpty,
    ReadOnlyFilesystem,
    StaleNetworkFileHandle,
    InvalidInput,
    InvalidData,
    TimedOut,
    WriteZero,
    StorageFull,
    NotSeekable,
    QuotaExceeded,
    FileTooLarge,
    ResourceBusy,
    ExecutableFileBusy,
    Deadlock,
    CrossesDevices,
    TooManyLinks,
    InvalidFilename,
    ArgumentListTooLong,
    Interrupted,
    Unsupported,
    UnexpectedEof,
    OutOfMemory,
    Other,
}

/// An error's kind and its message.
pub struct ErrorView {
    pub kind: ErrorKind,
    pub message: Seq<char>,
}

/// An error of a socket operation.
#[derive(Debug)]
pub struct Error {
    pub kind: ErrorKind,
    pub message: String,
}

impl Error {
    pub open spec fn view(&self) -> ErrorView {
        ErrorView { kind: self.kind, message: self.message@ }
    }

    pub fn new(kind: ErrorKind, message: &str) -> (r: Error)
        ensures
            r@ == err(kind, message@),
    {
        Error { kind, message: message.to_owned() }
    }

    pub fn kind(&self) -> (r: ErrorKind)
        ensures
            r == self@.kind,
    {
        self.kind
    }
}

/// The error of a given kind with a given message.
pub open spec fn err(kind: ErrorKind, message: Seq<char>) -> ErrorView {
    ErrorView { kind, message }
}

/// The views of an optional error.
pub open spec fn opt_error(e: Option<Error>) -> Option<ErrorView> {
    match e {
        Some(e) => Some(e@),
        None => None,
    }
}

} // verus!
