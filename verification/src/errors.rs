//! Error taxonomy of the node and its mapping to transport status codes.
//!
//! Validation failures surface as 400, authentication failures as 401 and
//! everything unexpected as 500; message-level decode failures map to the
//! gRPC `InvalidArgument` code.

use vstd::prelude::*;

verus! {

/// HTTP status for a well-formed, successful response.
pub const STATUS_OK: u16 = 200;

/// HTTP status for a request rejected during validation.
pub const STATUS_BAD_REQUEST: u16 = 400;

/// HTTP status for a missing or mismatched bearer token.
pub const STATUS_UNAUTHORIZED: u16 = 401;

/// HTTP status for an internal failure.
pub const STATUS_INTERNAL_SERVER_ERROR: u16 = 500;

/// gRPC status code for a request whose message failed to decode.
pub const GRPC_INVALID_ARGUMENT: u16 = 3;

/// Errors of the cryptographic core.
#[derive(Debug)]
pub enum CryptoError {
    /// The two code sequences have mismatched or odd lengths.
    InvalidLength(String),
}

/// Application-wide errors of the REST surface.
#[derive(Debug)]
pub enum Error {
    /// An invalid length was provided.
    InvalidLength(String),
    /// Unexpected errors that fit no other category.
    Unexpected(String),
}

impl Error {
    /// The HTTP status code this error maps to: 400 for a validation
    /// failure, 500 for everything else.
    pub fn status_code(&self) -> (r: u16)
        ensures
            r == STATUS_BAD_REQUEST <==> self is InvalidLength,
            r == STATUS_INTERNAL_SERVER_ERROR <==> self is Unexpected,
    {
        match self {
            Error::InvalidLength(_) => STATUS_BAD_REQUEST,
            Error::Unexpected(_) => STATUS_INTERNAL_SERVER_ERROR,
        }
    }
}

impl From<CryptoError> for Error {
    fn from(err: CryptoError) -> (r: Self) {
        match err {
            CryptoError::InvalidLength(s) => Error::InvalidLength(s),
        }
    }
}

impl vstd::std_specs::convert::FromSpecImpl<CryptoError> for Error {
    open spec fn obeys_from_spec() -> bool {
        true
    }

    open spec fn from_spec(err: CryptoError) -> Self {
        match err {
            CryptoError::InvalidLength(s) => Error::InvalidLength(s),
        }
    }
}

/// Errors found while decoding a wire-level message.
#[derive(Debug)]
pub enum MessageError {
    /// A ciphertext did not decode to two valid group elements.
    InvalidCiphertext,
    /// An encryption key did not decode to a valid group element.
    InvalidEncryptionKey,
    /// The two codes have different lengths.
    LengthMismatch { x_len: usize, y_len: usize },
}

impl MessageError {
    /// The gRPC status code this error maps to: every decode failure is an
    /// invalid argument.
    pub fn grpc_code(&self) -> (r: u16)
        ensures
            r == GRPC_INVALID_ARGUMENT,
    {
        GRPC_INVALID_ARGUMENT
    }
}

} // verus!
