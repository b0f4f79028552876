//! The error taxonomy shared by the browse and upload paths, and its
//! translation to HTTP status codes.

use vstd::prelude::*;

verus! {

/// Why a request was refused or failed.
#[derive(Clone, Copy, Debug, PartialEq, Eq, Structural)]
pub enum AppError {
    /// The resolved path does not exist.
    NotFound,
    /// The path escapes the root, or the entry is unreadable.
    Forbidden,
    /// Malformed client input: bad encoding, empty payload, non-directory target.
    BadRequest,
    /// Unexpected I/O or canonicalization failure on the server side.
    ServerError,
}

impl AppError {
    /// HTTP status used when the error arises while browsing or downloading.
    /// A missing path redirects to the root rather than reporting `404`.
    pub fn browse_status(self) -> (s: u16)
        ensures
            s == match self {
                AppError::NotFound => 303u16,
                AppError::Forbidden => 403u16,
                AppError::BadRequest => 400u16,
                AppError::ServerError => 500u16,
            },
    {
        match self {
            AppError::NotFound => 303,
            AppError::Forbidden => 403,
            AppError::BadRequest => 400,
            AppError::ServerError => 500,
        }
    }

    /// HTTP status used when the error arises while resolving an upload
    /// target: a missing or inaccessible target directory is the client's
    /// mistake, so it reports `400` instead of redirecting.
    pub fn upload_status(self) -> (s: u16)
        ensures
            s == match self {
                AppError::NotFound => 400u16,
                AppError::Forbidden => 403u16,
                AppError::BadRequest => 400u16,
                AppError::ServerError => 500u16,
            },
    {
        match self {
            AppError::NotFound => 400,
            AppError::Forbidden => 403,
            AppError::BadRequest => 400,
            AppError::ServerError => 500,
        }
    }
}

} // verus!
