//! Error values shared by every component, and the rule that decides how much
//! of an error a client is allowed to see.

use vstd::prelude::*;
use vstd::string::StringExecFns;

verus! {

/// The class of a failure.
#[derive(Clone, Copy, Debug, PartialEq, Eq, Structural)]
pub enum ErrorKind {
    /// A value supplied by the user is malformed or out of range.
    InvalidInput,
    /// A referenced wine or record does not exist.
    NotFound,
    /// An upload exceeds the configured size bound.
    PayloadTooLarge,
    /// A failure of storage or encoding that the user did not cause.
    Internal,
}

/// A failure together with its human-readable description.
#[derive(Clone, Debug, PartialEq, Eq)]
pub struct AppError {
    pub kind: ErrorKind,
    pub message: String,
}

/// The HTTP status that reports an error of the given kind.
pub open spec fn status_of(kind: ErrorKind) -> u16 {
    match kind {
        ErrorKind::InvalidInput => 400,
        ErrorKind::NotFound => 404,
        ErrorKind::PayloadTooLarge => 413,
        ErrorKind::Internal => 500,
    }
}

/// Whether the client caused an error of the given kind.
pub open spec fn caused_by_client(kind: ErrorKind) -> bool {
    kind != ErrorKind::Internal
}

/// The text shown to the client in place of the details of an internal error.
pub open spec fn generic_message() -> Seq<char> {
    "Internal Error"@
}

/// The text a client is shown for an error: its own description when the
/// client caused it, a fixed generic text otherwise.
pub open spec fn shown_message(kind: ErrorKind, message: Seq<char>) -> Seq<char> {
    if caused_by_client(kind) {
        message
    } else {
        generic_message()
    }
}

/// The style class of the box in which an error is shown.
pub open spec fn shown_class(kind: ErrorKind) -> Seq<char> {
    if caused_by_client(kind) {
        "text-bg-warning p-3"@
    } else {
        "text-bg-danger p-3"@
    }
}

/// Whether `e` is exactly the error of the given kind and description.
pub open spec fn is_error(e: AppError, kind: ErrorKind, message: Seq<char>) -> bool {
    e.kind == kind && e.message@ == message
}

impl ErrorKind {
    /// The HTTP status that reports this kind of error.
    pub fn status_code(self) -> (code: u16)
        ensures
            code == status_of(self),
    {
        match self {
            ErrorKind::InvalidInput => 400,
            ErrorKind::NotFound => 404,
            ErrorKind::PayloadTooLarge => 413,
            ErrorKind::Internal => 500,
        }
    }

    /// Whether the client caused this kind of error.
    pub fn is_client_error(self) -> (client: bool)
        ensures
            client == caused_by_client(self),
            client == (400 <= status_of(self) < 500),
    {
        match self {
            ErrorKind::Internal => false,
            _ => true,
        }
    }
}

impl AppError {
    /// An error of the given kind and description.
    pub fn new(kind: ErrorKind, message: &str) -> (e: AppError)
        ensures
            is_error(e, kind, message@),
    {
        AppError { kind, message: String::from_str(message) }
    }

    /// A malformed or out-of-range value supplied by the user.
    pub fn bad_request(message: &str) -> (e: AppError)
        ensures
            is_error(e, ErrorKind::InvalidInput, message@),
    {
        AppError::new(ErrorKind::InvalidInput, message)
    }

    /// A reference to a wine or record that does not exist.
    pub fn not_found(message: &str) -> (e: AppError)
        ensures
            is_error(e, ErrorKind::NotFound, message@),
    {
        AppError::new(ErrorKind::NotFound, message)
    }

    /// An upload larger than the configured bound.
    pub fn payload_too_large(message: &str) -> (e: AppError)
        ensures
            is_error(e, ErrorKind::PayloadTooLarge, message@),
    {
        AppError::new(ErrorKind::PayloadTooLarge, message)
    }

    /// A failure that the user did not cause.
    pub fn internal(message: &str) -> (e: AppError)
        ensures
            is_error(e, ErrorKind::Internal, message@),
    {
        AppError::new(ErrorKind::Internal, message)
    }

    /// The HTTP status that reports this error.
    pub fn status_code(&self) -> (code: u16)
        ensures
            code == status_of(self.kind),
    {
        self.kind.status_code()
    }

    /// Whether the client caused this error.
    pub fn is_client_error(&self) -> (client: bool)
        ensures
            client == caused_by_client(self.kind),
    {
        self.kind.is_client_error()
    }

    /// The text to show to the client. Details of an internal failure never
    /// leave the server: they are replaced by a generic text.
    pub fn public_message(&self) -> (text: String)
        ensures
            text@ == shown_message(self.kind, self.message@),
    {
        if self.kind.is_client_error() {
            self.message.clone()
        } else {
            String::from_str("Internal Error")
        }
    }

    /// The style class of the box in which this error is shown.
    pub fn css_class(&self) -> (class: &'static str)
        ensures
            class@ == shown_class(self.kind),
    {
        if self.kind.is_client_error() {
            "text-bg-warning p-3"
        } else {
            "text-bg-danger p-3"
        }
    }
}

} // verus!
