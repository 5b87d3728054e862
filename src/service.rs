//! Ingestion and retrieval by handle: decode, issue a handle, store; look up
//! and serve.
use crate::cache::{ImageCache, entries_wf, get_entries, has_key, lemma_put_wf, lookup, put_entries};
use crate::errors::ServiceError;
use crate::handle::{image_path, image_url_path, is_handle_text, new_handle};
use crate::payload::{Base64Payload, decode_payload, payload_outcome};
use vstd::prelude::*;

verus! {

/// Contents after ingesting a payload whose field is `field` under handle `h`:
/// a payload that fails validation changes nothing.
pub open spec fn ingest_entries(
    e: Seq<(Seq<char>, Seq<u8>)>,
    cap: nat,
    h: Seq<char>,
    field: Option<Seq<char>>,
) -> Seq<(Seq<char>, Seq<u8>)> {
    match payload_outcome(field) {
        Ok(b) => put_entries(e, cap, h, b),
        Err(_) => e,
    }
}

/// Decodes the payload and stores its bytes under `handle`, answering with
/// the path the image is served under. Validation comes first: a rejected
/// payload leaves the cache as it was.
pub fn ingest_with_handle(cache: &mut ImageCache, handle: String, payload: Base64Payload) -> (r:
    Result<String, ServiceError>)
    requires
        old(cache).wf(),
    ensures
        final(cache).wf(),
        final(cache).capacity() == old(cache).capacity(),
        final(cache).entries() == ingest_entries(
            old(cache).entries(),
            old(cache).capacity(),
            handle@,
            payload.field(),
        ),
        match payload_outcome(payload.field()) {
            Ok(_) => r matches Ok(p) && p@ == image_path(handle@),
            Err(e) => r == Err::<String, ServiceError>(ServiceError::Validation(e)) && *final(cache)
                == *old(cache),
        },
{
    match decode_payload(payload) {
        Err(e) => Err(ServiceError::Validation(e)),
        Ok(bytes) => {
            let path = image_url_path(handle.as_str());
            cache.put(handle, bytes);
            Ok(path)
        },
    }
}

/// Decodes the payload, issues a fresh random handle and stores the bytes
/// under it, answering with the path the image is served under. A rejected
/// payload issues no handle and leaves the cache as it was.
pub fn ingest(cache: &mut ImageCache, payload: Base64Payload) -> (r: Result<String, ServiceError>)
    requires
        old(cache).wf(),
    ensures
        final(cache).wf(),
        final(cache).capacity() == old(cache).capacity(),
        match payload_outcome(payload.field()) {
            Ok(b) => r matches Ok(p) && exists|h: Seq<char>|
                is_handle_text(h) && #[trigger] image_path(h) == p@ && final(cache).entries()
                    == put_entries(old(cache).entries(), old(cache).capacity(), h, b),
            Err(e) => r == Err::<String, ServiceError>(ServiceError::Validation(e)) && *final(cache)
                == *old(cache),
        },
{
    match decode_payload(payload) {
        Err(e) => Err(ServiceError::Validation(e)),
        Ok(bytes) => {
            let handle = new_handle();
            let path = image_url_path(handle.as_str());
            cache.put(handle, bytes);
            assert(image_path(handle@) == path@);
            Ok(path)
        },
    }
}

/// The bytes stored under `handle`, which becomes the most recently used
/// entry; not found when the cache does not hold the handle.
pub fn fetch_image(cache: &mut ImageCache, handle: &str) -> (r: Result<Vec<u8>, ServiceError>)
    requires
        old(cache).wf(),
    ensures
        final(cache).wf(),
        final(cache).capacity() == old(cache).capacity(),
        final(cache).entries() == get_entries(old(cache).entries(), handle@),
        match lookup(old(cache).entries(), handle@) {
            Some(b) => r matches Ok(v) && v@ == b,
            None => r == Err::<Vec<u8>, ServiceError>(ServiceError::NotFound),
        },
{
    match cache.get(handle) {
        Some(v) => Ok(v),
        None => Err(ServiceError::NotFound),
    }
}

/// Two ingestions of the same payload under two different handles are not
/// merged: afterwards each handle retrieves the payload's bytes, provided the
/// cache holds at least two entries.
pub proof fn lemma_no_dedup(
    e: Seq<(Seq<char>, Seq<u8>)>,
    cap: nat,
    h1: Seq<char>,
    h2: Seq<char>,
    field: Option<Seq<char>>,
)
    requires
        entries_wf(e, cap),
        cap >= 2,
        h1 != h2,
        payload_outcome(field) is Ok,
    ensures
        lookup(ingest_entries(ingest_entries(e, cap, h1, field), cap, h2, field), h1) == Some(
            payload_outcome(field)->Ok_0,
        ),
        lookup(ingest_entries(ingest_entries(e, cap, h1, field), cap, h2, field), h2) == Some(
            payload_outcome(field)->Ok_0,
        ),
{
    let b = payload_outcome(field)->Ok_0;
    let s1 = put_entries(e, cap, h1, b);
    lemma_put_wf(e, cap, h1, b);
    let s2 = put_entries(s1, cap, h2, b);
    lemma_put_wf(s1, cap, h2, b);
    assert(s1.last() == (h1, b));
    let n = s1.len() as int;
    if has_key(s1, h2) {
        assert(s2[n - 2] == s1[n - 1]);
    } else if s1.len() == cap {
        assert(s2[n - 2] == s1[n - 1]);
    } else {
        assert(s2[n - 1] == s1[n - 1]);
    }
    assert(has_key(s2, h1));
}

} // verus!
