//! The failures that the gateway reports, and the HTTP status each one maps to.

use vstd::prelude::*;

verus! {

/// Why a request could not be served.
#[derive(Debug)]
pub enum GatewayError {
    /// The source of a relocation, or the resolved path of a read, is absent.
    NotFound,
    /// The destination of an upload or a relocation already exists.
    Conflict,
    /// The request is malformed: a bad multipart field, or an event out of turn.
    InvalidInput,
    /// The requested path leaves the content root or holds a forbidden character.
    InvalidPath,
    /// The operating system refused the operation; the cause is carried along.
    IOFailure(String),
    /// The directory could not be read.
    ListingFailed,
    /// A multipart request carried no file part.
    NoFileUploaded,
}

/// A failure without its cause: what the decisions of a request speak of.
#[derive(Clone, Copy, Debug, PartialEq, Eq, Structural)]
pub enum ErrorKind {
    NotFound,
    Conflict,
    InvalidInput,
    InvalidPath,
    IOFailure,
    ListingFailed,
    NoFileUploaded,
}

/// The operation that a request asks for, by HTTP method.
#[derive(Clone, Copy, Debug, PartialEq, Eq, Structural)]
pub enum Operation {
    /// GET: serve a file, an index file or a listing.
    Read,
    /// POST: upload files.
    Upload,
    /// PUT: create a directory.
    CreateDir,
    /// PATCH: move a file or directory.
    Move,
    /// DELETE: move into the trash directory.
    Delete,
}

/// The status code that `op` answers with when it fails with `err`.
pub open spec fn spec_status(op: Operation, err: GatewayError) -> int {
    match op {
        Operation::Read => match err {
            GatewayError::IOFailure(_) => 500,
            _ => 404,
        },
        Operation::Upload | Operation::CreateDir => 400,
        Operation::Move | Operation::Delete => match err {
            GatewayError::NotFound => 404,
            GatewayError::Conflict => 409,
            GatewayError::InvalidInput | GatewayError::InvalidPath => 400,
            _ => 500,
        },
    }
}

impl GatewayError {
    /// The failure without its cause.
    pub open spec fn spec_kind(&self) -> ErrorKind {
        match self {
            GatewayError::NotFound => ErrorKind::NotFound,
            GatewayError::Conflict => ErrorKind::Conflict,
            GatewayError::InvalidInput => ErrorKind::InvalidInput,
            GatewayError::InvalidPath => ErrorKind::InvalidPath,
            GatewayError::IOFailure(_) => ErrorKind::IOFailure,
            GatewayError::ListingFailed => ErrorKind::ListingFailed,
            GatewayError::NoFileUploaded => ErrorKind::NoFileUploaded,
        }
    }

    /// The failure without its cause.
    #[verifier::when_used_as_spec(spec_kind)]
    pub fn kind(&self) -> (k: ErrorKind)
        ensures
            k == self.spec_kind(),
    {
        match self {
            GatewayError::NotFound => ErrorKind::NotFound,
            GatewayError::Conflict => ErrorKind::Conflict,
            GatewayError::InvalidInput => ErrorKind::InvalidInput,
            GatewayError::InvalidPath => ErrorKind::InvalidPath,
            GatewayError::IOFailure(_) => ErrorKind::IOFailure,
            GatewayError::ListingFailed => ErrorKind::ListingFailed,
            GatewayError::NoFileUploaded => ErrorKind::NoFileUploaded,
        }
    }

    /// The failure of kind `kind`, with `cause` where it is an `IOFailure`.
    pub fn of_kind(kind: ErrorKind, cause: String) -> (e: GatewayError)
        ensures
            e.spec_kind() == kind,
            kind == ErrorKind::IOFailure ==> e == GatewayError::IOFailure(cause),
    {
        match kind {
            ErrorKind::NotFound => GatewayError::NotFound,
            ErrorKind::Conflict => GatewayError::Conflict,
            ErrorKind::InvalidInput => GatewayError::InvalidInput,
            ErrorKind::InvalidPath => GatewayError::InvalidPath,
            ErrorKind::IOFailure => GatewayError::IOFailure(cause),
            ErrorKind::ListingFailed => GatewayError::ListingFailed,
            ErrorKind::NoFileUploaded => GatewayError::NoFileUploaded,
        }
    }

    /// The HTTP status code with which `op` reports this failure.
    pub fn status(&self, op: Operation) -> (code: u16)
        ensures
            code == spec_status(op, *self),
    {
        match op {
            Operation::Read => match self {
                GatewayError::IOFailure(_) => 500,
                _ => 404,
            },
            Operation::Upload | Operation::CreateDir => 400,
            Operation::Move | Operation::Delete => match self {
                GatewayError::NotFound => 404,
                GatewayError::Conflict => 409,
                GatewayError::InvalidInput | GatewayError::InvalidPath => 400,
                _ => 500,
            },
        }
    }
}

} // verus!
