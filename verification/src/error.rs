//! Errors surfaced by the ingestion and deletion core.

use vstd::prelude::*;

verus! {

/// Error kinds surfaced by the core. The HTTP adapter maps them to statuses:
/// `NoSuchKey` on a single delete becomes 204, `BadRequest` 400, `Forbidden`
/// 403, `Internal` 500.
#[derive(Debug)]
pub enum Error {
    /// The named key holds no object.
    NoSuchKey,
    /// Malformed body, integrity mismatch, or malformed batch-delete XML.
    BadRequest(String),
    /// A bucket quota would be exceeded.
    Forbidden(String),
    /// A propagated failure from a table insert, a block write, or a worker.
    Internal(String),
}

impl Error {
    /// The AWS error code carried in batch-delete responses.
    pub fn aws_code(&self) -> (r: String)
        ensures
            r@ == self.spec_aws_code(),
    {
        match self {
            Error::NoSuchKey => "NoSuchKey".to_owned(),
            Error::BadRequest(_) => "InvalidRequest".to_owned(),
            Error::Forbidden(_) => "AccessDenied".to_owned(),
            Error::Internal(_) => "InternalError".to_owned(),
        }
    }

    /// The code rendered by `aws_code`.
    pub open spec fn spec_aws_code(&self) -> Seq<char> {
        match self {
            Error::NoSuchKey => "NoSuchKey"@,
            Error::BadRequest(_) => "InvalidRequest"@,
            Error::Forbidden(_) => "AccessDenied"@,
            Error::Internal(_) => "InternalError"@,
        }
    }

    /// A human-readable message, carried in batch-delete responses.
    pub fn message(&self) -> (r: String)
        ensures
            r@ == self.spec_message(),
    {
        match self {
            Error::NoSuchKey => "No such key".to_owned(),
            Error::BadRequest(m) => m.clone(),
            Error::Forbidden(m) => m.clone(),
            Error::Internal(m) => m.clone(),
        }
    }

    /// The message rendered by `message`.
    pub open spec fn spec_message(&self) -> Seq<char> {
        match self {
            Error::NoSuchKey => "No such key"@,
            Error::BadRequest(m) => m@,
            Error::Forbidden(m) => m@,
            Error::Internal(m) => m@,
        }
    }

    /// Whether this error is `NoSuchKey`, which the single-delete HTTP
    /// adapter reports as success.
    pub fn is_no_such_key(&self) -> (r: bool)
        ensures
            r == (self is NoSuchKey),
    {
        match self {
            Error::NoSuchKey => true,
            _ => false,
        }
    }
}

} // verus!
