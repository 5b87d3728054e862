//! The transport shapes a base64 payload arrives in, normalised to one text
//! value and decoded by one shared routine.
use crate::codec::{b64_decode, decode_base64};
use crate::errors::ValidationError;
use vstd::prelude::*;

verus! {

/// A base64 field as the transport delivered it; `None` when the field was absent.
#[derive(Debug)]
pub enum Base64Payload {
    /// The `base64` field of a JSON body.
    Json(Option<String>),
    /// The `base64` field of a form body.
    Form(Option<String>),
    /// The `base64` field of a multipart body, its chunks joined.
    Multipart(Option<String>),
    /// The `base64` field taken from a raw JSON payload.
    RawJson(Option<String>),
}

impl Base64Payload {
    /// The field's text, whatever the shape.
    pub open spec fn field(&self) -> Option<Seq<char>> {
        match self {
            Base64Payload::Json(f) => field_view(*f),
            Base64Payload::Form(f) => field_view(*f),
            Base64Payload::Multipart(f) => field_view(*f),
            Base64Payload::RawJson(f) => field_view(*f),
        }
    }

    /// Normalises the payload to its field's text.
    pub fn into_field(self) -> (r: Option<String>)
        ensures
            field_view(r) == self.field(),
    {
        match self {
            Base64Payload::Json(f) => f,
            Base64Payload::Form(f) => f,
            Base64Payload::Multipart(f) => f,
            Base64Payload::RawJson(f) => f,
        }
    }
}

pub open spec fn field_view(f: Option<String>) -> Option<Seq<char>> {
    match f {
        Some(s) => Some(s@),
        None => None,
    }
}

/// What a payload decodes to: a missing or empty field is reported first, then
/// text that is not base64.
pub open spec fn payload_outcome(field: Option<Seq<char>>) -> Result<Seq<u8>, ValidationError> {
    match field {
        None => Err(ValidationError::MissingField),
        Some(text) => if text.len() == 0 {
            Err(ValidationError::MissingField)
        } else {
            match b64_decode(text) {
                Some(b) => Ok(b),
                None => Err(ValidationError::InvalidEncoding),
            }
        },
    }
}

pub open spec fn bytes_outcome(r: Result<Vec<u8>, ValidationError>) -> Result<Seq<u8>, ValidationError> {
    match r {
        Ok(v) => Ok(v@),
        Err(e) => Err(e),
    }
}

/// Decodes the base64 text of a payload into the bytes it carries; the bytes
/// are not inspected.
pub fn decode_payload(payload: Base64Payload) -> (r: Result<Vec<u8>, ValidationError>)
    ensures
        bytes_outcome(r) == payload_outcome(payload.field()),
{
    match payload.into_field() {
        None => Err(ValidationError::MissingField),
        Some(text) => {
            if text.as_str().is_empty() {
                Err(ValidationError::MissingField)
            } else {
                match decode_base64(text.as_str()) {
                    Some(v) => Ok(v),
                    None => Err(ValidationError::InvalidEncoding),
                }
            }
        },
    }
}

} // verus!
