//! Handles: random 128-bit identifiers in hyphenated hex form, and the path an
//! image is served under.
use uuid::Uuid;
use vstd::prelude::*;

verus! {

pub open spec fn is_lower_hex_digit(c: char) -> bool {
    ('0' <= c && c <= '9') || ('a' <= c && c <= 'f')
}

/// Whether `s` has the hyphenated form `8-4-4-4-12` of lower-case hex digits
/// of a version-4 identifier.
pub open spec fn is_handle_text(s: Seq<char>) -> bool {
    &&& s.len() == 36
    &&& forall|i: int|
        0 <= i < 36 ==> if i == 8 || i == 13 || i == 18 || i == 23 {
            s[i] == '-'
        } else {
            is_lower_hex_digit(#[trigger] s[i])
        }
    &&& s[14] == '4'
}

/// The path under which the image with handle `h` is served.
pub open spec fn image_path(h: Seq<char>) -> Seq<char> {
    "/image/"@ + h
}

/// Relies on `uuid::Uuid::new_v4` and its `Display` form: a random version-4
/// identifier written as 36 lower-case hyphenated characters. Nothing is
/// promised of which identifier comes out.
#[verifier::external_body]
fn random_uuid_text() -> (r: String)
    ensures
        is_handle_text(r@),
{
    Uuid::new_v4().to_string()
}

/// Issues a fresh handle from a random 128-bit value. No check is made against
/// handles issued before.
pub fn new_handle() -> (r: String)
    ensures
        is_handle_text(r@),
{
    random_uuid_text()
}

/// The path under which the image with `handle` is served: `/image/{handle}`.
pub fn image_url_path(handle: &str) -> (r: String)
    ensures
        r@ == image_path(handle@),
{
    let mut path = String::from_str("/image/");
    path.append(handle);
    path
}

} // verus!
