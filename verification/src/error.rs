use vstd::prelude::*;

verus! {

/// Every failure the service can report, reduced to plain values.
///
/// The taxonomy is deliberately asymmetric: client-caused failures carry
/// the decoder's own detail so the client can correct the request, while
/// server-side failures either pass the store's message through
/// (`StoreFailure`) or hide their detail entirely (`IoFailure`), whose
/// detail exists only to be logged and never reaches the wire.
#[derive(Debug)]
pub enum AppError {
    /// The request body or a path identifier failed to decode.  `status`
    /// is the client-error status the decoder produced; `message` its
    /// human-readable detail.
    InvalidInput { status: u16, message: String },
    /// The transactional store reported a failure; its text is returned
    /// to the client verbatim.
    StoreFailure { message: String },
    /// A failure unrelated to store semantics; `detail` is for the server
    /// log only and never appears in a response.
    IoFailure { detail: String },
}

/// The mathematical value of an [`AppError`].
pub enum ErrorModel {
    InvalidInput { status: u16, message: Seq<char> },
    StoreFailure { message: Seq<char> },
    IoFailure { detail: Seq<char> },
}

impl View for AppError {
    type V = ErrorModel;

    open spec fn view(&self) -> ErrorModel {
        match self {
            AppError::InvalidInput { status, message } => ErrorModel::InvalidInput {
                status: *status,
                message: message@,
            },
            AppError::StoreFailure { message } => ErrorModel::StoreFailure { message: message@ },
            AppError::IoFailure { detail } => ErrorModel::IoFailure { detail: detail@ },
        }
    }
}

/// The one message surfaced for I/O-class failures, whatever their cause.
pub const GENERIC_IO_MESSAGE: &'static str = "something went wrong, try again later";

/// The HTTP status a failure maps to: the decoder's own client-error
/// status for invalid input, 500 for everything server-side.
pub open spec fn status_of(e: ErrorModel) -> u16 {
    match e {
        ErrorModel::InvalidInput { status, .. } => status,
        ErrorModel::StoreFailure { .. } => 500,
        ErrorModel::IoFailure { .. } => 500,
    }
}

/// The message a failure maps to.  Input and store failures surface
/// their own detail; I/O failures surface only the fixed generic text.
pub open spec fn message_of(e: ErrorModel) -> Seq<char> {
    match e {
        ErrorModel::InvalidInput { message, .. } => message,
        ErrorModel::StoreFailure { message } => message,
        ErrorModel::IoFailure { .. } => GENERIC_IO_MESSAGE@,
    }
}

impl AppError {
    /// Map a failure to the status code and message of its wire envelope.
    pub fn respond(&self) -> (r: (u16, String))
        ensures
            r.0 == status_of(self@),
            r.1@ == message_of(self@),
    {
        match self {
            AppError::InvalidInput { status, message } => (*status, message.clone()),
            AppError::StoreFailure { message } => (500, message.clone()),
            AppError::IoFailure { detail: _ } => (500, GENERIC_IO_MESSAGE.to_owned()),
        }
    }
}

/// Two I/O failures with different causes surface the same message: the
/// response leaks nothing of the underlying detail.
pub proof fn lemma_io_failure_hides_detail(d1: Seq<char>, d2: Seq<char>)
    ensures
        message_of(ErrorModel::IoFailure { detail: d1 }) == message_of(
            ErrorModel::IoFailure { detail: d2 },
        ),
        status_of(ErrorModel::IoFailure { detail: d1 }) == 500,
{
}

} // verus!
