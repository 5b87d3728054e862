//! Retrieval by content hash: the format check made before the durable store
//! is touched, and the decision on what the store answered.
use crate::codec::{b64_decode, decode_base64};
use crate::errors::{InternalError, ServiceError, ValidationError};
use vstd::prelude::*;

verus! {

pub open spec fn is_hex_digit(c: char) -> bool {
    ('0' <= c && c <= '9') || ('a' <= c && c <= 'f') || ('A' <= c && c <= 'F')
}

/// Exactly 32 characters, each an ASCII hex digit.
pub open spec fn is_valid_hash(s: Seq<char>) -> bool {
    s.len() == 32 && forall|i: int| 0 <= i < s.len() ==> is_hex_digit(#[trigger] s[i])
}

/// Whether `c` is an ASCII hex digit, in either case.
pub fn is_ascii_hex_digit(c: char) -> (r: bool)
    ensures
        r == is_hex_digit(c),
{
    ('0' <= c && c <= '9') || ('a' <= c && c <= 'f') || ('A' <= c && c <= 'F')
}

/// Whether `hash` has the form of a content hash.
pub fn is_valid_hash_text(hash: &str) -> (r: bool)
    ensures
        r == is_valid_hash(hash@),
{
    let n = hash.unicode_len();
    if n != 32 {
        return false;
    }
    let mut i: usize = 0;
    while i < n
        invariant
            n == hash@.len(),
            0 <= i <= n,
            forall|j: int| 0 <= j < i ==> is_hex_digit(#[trigger] hash@[j]),
        decreases n - i,
    {
        if !is_ascii_hex_digit(hash.get_char(i)) {
            return false;
        }
        i = i + 1;
    }
    true
}

/// The format check that precedes any store access: a malformed hash is
/// rejected with a validation error.
pub fn check_hash_format(hash: &str) -> (r: Result<(), ServiceError>)
    ensures
        r is Ok <==> is_valid_hash(hash@),
        r is Err ==> r == Err::<(), ServiceError>(
            ServiceError::Validation(ValidationError::InvalidHashFormat),
        ),
{
    if is_valid_hash_text(hash) {
        Ok(())
    } else {
        Err(ServiceError::Validation(ValidationError::InvalidHashFormat))
    }
}

/// What a lookup by hash ends in, given the store's answer: the stored
/// base64 text of the matching row, no row, or a failure to reach the store.
pub open spec fn stored_outcome(reply: Result<Option<Seq<char>>, InternalError>) -> Result<
    Seq<u8>,
    ServiceError,
> {
    match reply {
        Err(e) => Err(ServiceError::Internal(e)),
        Ok(None) => Err(ServiceError::NotFound),
        Ok(Some(text)) => match b64_decode(text) {
            Some(b) => Ok(b),
            None => Err(ServiceError::Internal(InternalError::CorruptStoredData)),
        },
    }
}

pub open spec fn reply_view(reply: Result<Option<String>, InternalError>) -> Result<
    Option<Seq<char>>,
    InternalError,
> {
    match reply {
        Err(e) => Err(e),
        Ok(None) => Ok(None),
        Ok(Some(t)) => Ok(Some(t@)),
    }
}

pub open spec fn image_outcome(r: Result<Vec<u8>, ServiceError>) -> Result<Seq<u8>, ServiceError> {
    match r {
        Ok(v) => Ok(v@),
        Err(e) => Err(e),
    }
}

/// Turns the store's answer into the bytes to serve or the error to answer
/// with: no row is not found, and stored data that is not base64 is an
/// internal error, since the request itself was well formed.
pub fn resolve_stored_image(reply: Result<Option<String>, InternalError>) -> (r: Result<
    Vec<u8>,
    ServiceError,
>)
    ensures
        image_outcome(r) == stored_outcome(reply_view(reply)),
{
    match reply {
        Err(e) => Err(ServiceError::Internal(e)),
        Ok(None) => Err(ServiceError::NotFound),
        Ok(Some(text)) => match decode_base64(text.as_str()) {
            Some(v) => Ok(v),
            None => Err(ServiceError::Internal(InternalError::CorruptStoredData)),
        },
    }
}

} // verus!
