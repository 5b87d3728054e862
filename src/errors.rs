//! The outcomes a request can fail with, and the status each one maps to.
use vstd::prelude::*;

verus! {

/// A request that is malformed; detected before any state change or backend call.
#[derive(Clone, Copy, Debug, PartialEq, Eq, Structural)]
pub enum ValidationError {
    /// The expected base64 field is absent or empty.
    MissingField,
    /// The base64 field is not valid standard base64.
    InvalidEncoding,
    /// A content hash that is not 32 ASCII hex digits.
    InvalidHashFormat,
}

/// A failure on the service's side; the cause is not echoed to the caller.
#[derive(Clone, Copy, Debug, PartialEq, Eq, Structural)]
pub enum InternalError {
    /// No connection to the durable store could be had.
    ConnectionFailed,
    /// The durable-store query failed.
    QueryFailed,
    /// A stored record's image data is not valid base64.
    CorruptStoredData,
}

/// Every way a request can end without serving its result.
#[derive(Clone, Copy, Debug, PartialEq, Eq, Structural)]
pub enum ServiceError {
    Validation(ValidationError),
    NotFound,
    Internal(InternalError),
}

/// The HTTP status for an error.
pub open spec fn status_of(e: ServiceError) -> u16 {
    match e {
        ServiceError::Validation(_) => 400,
        ServiceError::NotFound => 404,
        ServiceError::Internal(_) => 500,
    }
}

impl ServiceError {
    /// The HTTP status code that this error is answered with.
    pub fn status_code(&self) -> (r: u16)
        ensures
            r == status_of(*self),
    {
        match self {
            ServiceError::Validation(_) => 400,
            ServiceError::NotFound => 404,
            ServiceError::Internal(_) => 500,
        }
    }

    /// The plain-text body that this error is answered with.
    pub fn message(&self) -> (r: &'static str)
        ensures
            *self == ServiceError::Validation(ValidationError::MissingField) ==> r@
                == "Missing 'base64' field"@,
            *self == ServiceError::Validation(ValidationError::InvalidEncoding) ==> r@
                == "Invalid Base64 encoding"@,
            *self == ServiceError::Validation(ValidationError::InvalidHashFormat) ==> r@
                == "Invalid MD5 hash format"@,
            *self == ServiceError::NotFound ==> r@ == "Image not found"@,
            *self == ServiceError::Internal(InternalError::ConnectionFailed) ==> r@
                == "Database connection failed"@,
            *self == ServiceError::Internal(InternalError::QueryFailed) ==> r@
                == "Database query failed"@,
            *self == ServiceError::Internal(InternalError::CorruptStoredData) ==> r@
                == "Failed to decode image data"@,
    {
        match self {
            ServiceError::Validation(ValidationError::MissingField) => "Missing 'base64' field",
            ServiceError::Validation(ValidationError::InvalidEncoding) => "Invalid Base64 encoding",
            ServiceError::Validation(ValidationError::InvalidHashFormat) => "Invalid MD5 hash format",
            ServiceError::NotFound => "Image not found",
            ServiceError::Internal(InternalError::ConnectionFailed) => "Database connection failed",
            ServiceError::Internal(InternalError::QueryFailed) => "Database query failed",
            ServiceError::Internal(InternalError::CorruptStoredData) => "Failed to decode image data",
        }
    }
}

} // verus!
