//! The errors of input and output, as kind and message.

use vstd::prelude::*;

verus! {

/// What went wrong: the kinds of `std::io::ErrorKind`, and one for those that it has
/// without a public name.
#[derive(Debug, Clone, Copy, PartialEq, Eq, Structural)]
pub enum IoErrorKind {
    NotFound,
    PermissionDenied,
    ConnectionRefused,
    ConnectionReset,
    HostUnreachable,
    NetworkUnreachable,
    ConnectionAborted,
    NotConnected,
    AddrInUse,
    AddrNotAvailable,
    NetworkDown,
    BrokenPipe,
    AlreadyExists,
    WouldBlock,
    NotADirectory,
    IsADirectory,
    DirectoryNotEmpty,
    ReadOnlyFilesystem,
    StaleNetworkFileHandle,
    InvalidInput,
    InvalidData,
    TimedOut,
    WriteZero,
    StorageFull,
    NotSeekable,
    QuotaExceeded,
    FileTooLarge,
    ResourceBusy,
    ExecutableFileBusy,
    Deadlock,
    CrossesDevices,
    TooManyLinks,
    InvalidFilename,
    ArgumentListTooLong,
    Interrupted,
    Unsupported,
    UnexpectedEof,
    OutOfMemory,
    Other,
    Uncategorized,
}

/// An error of input or output.
#[derive(Debug)]
pub struct IoError {
    pub kind: IoErrorKind,
    pub message: String,
}

/// The kind and the text of an error.
pub struct IoErrorView {
    pub kind: IoErrorKind,
    pub message: Seq<char>,
}

impl View for IoError {
    type V = IoErrorView;

    open spec fn view(&self) -> IoErrorView {
        IoErrorView { kind: self.kind, message: self.message@ }
    }
}

impl IoError {
    /// An error of the given kind with the given text.
    pub fn new(kind: IoErrorKind, message: &str) -> (error: IoError)
        ensures
            error@ == (IoErrorView { kind, message: message@ }),
    {
        IoError { kind, message: message.to_owned() }
    }
}

impl Clone for IoError {
    fn clone(&self) -> (copy: IoError)
        ensures
            copy@ == self@,
    {
        IoError { kind: self.kind, message: self.message.clone() }
    }
}

/// An error is seen with its kind and its text.
pub proof fn law_errors_are_seen_whole(error: IoError)
    ensures
        error@.kind == error.kind,
        error@.message == error.message@,
{
}

} // verus!
