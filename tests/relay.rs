use base64::engine::general_purpose::STANDARD;
use base64::Engine;
use image_relay::cache::{ImageCache, DEFAULT_CAPACITY};
use image_relay::codec::decode_base64;
use image_relay::errors::{InternalError, ServiceError, ValidationError};
use image_relay::handle::{image_url_path, new_handle};
use image_relay::lookup::{check_hash_format, is_ascii_hex_digit, is_valid_hash_text, resolve_stored_image};
use image_relay::payload::{decode_payload, Base64Payload};
use image_relay::service::{fetch_image, ingest, ingest_with_handle};

fn handle_of(path: &str) -> String {
    path.strip_prefix("/image/").expect("path under /image/").to_string()
}

#[test]
fn decode_known_text() {
    assert_eq!(decode_base64("aGVsbG8="), Some(b"hello".to_vec()));
    assert_eq!(decode_base64("aGk="), Some(b"hi".to_vec()));
    assert_eq!(decode_base64("YWJj"), Some(b"abc".to_vec()));
    assert_eq!(decode_base64(""), Some(Vec::new()));
}

#[test]
fn decode_rejects_invalid_text() {
    assert_eq!(decode_base64("not-valid-base64!!"), None);
    assert_eq!(decode_base64("aGVsbG8"), None);
    assert_eq!(decode_base64("aGVsbG9="), None);
    assert_eq!(decode_base64("aGk=aGk="), None);
}

#[test]
fn decode_round_trip_of_encoding() {
    let samples: Vec<Vec<u8>> = vec![
        vec![],
        vec![0],
        vec![255, 254],
        vec![1, 2, 3],
        (0..=255u8).collect(),
        vec![0x89, b'P', b'N', b'G', 13, 10, 26, 10],
    ];
    for b in samples {
        let text = STANDARD.encode(&b);
        assert_eq!(decode_base64(&text), Some(b));
    }
}

#[test]
fn payload_shapes_decode_alike() {
    for p in [
        Base64Payload::Json(Some("aGk=".to_string())),
        Base64Payload::Form(Some("aGk=".to_string())),
        Base64Payload::Multipart(Some("aGk=".to_string())),
        Base64Payload::RawJson(Some("aGk=".to_string())),
    ] {
        assert_eq!(decode_payload(p), Ok(b"hi".to_vec()));
    }
}

#[test]
fn payload_missing_or_empty_field() {
    assert_eq!(decode_payload(Base64Payload::Json(None)), Err(ValidationError::MissingField));
    assert_eq!(decode_payload(Base64Payload::Multipart(Some(String::new()))), Err(ValidationError::MissingField));
    assert_eq!(decode_payload(Base64Payload::Form(Some(String::new()))), Err(ValidationError::MissingField));
}

#[test]
fn payload_invalid_encoding() {
    assert_eq!(
        decode_payload(Base64Payload::Json(Some("not-valid-base64!!".to_string()))),
        Err(ValidationError::InvalidEncoding)
    );
}

#[test]
fn cache_put_then_get() {
    let mut c = ImageCache::new(4);
    c.put("a".to_string(), vec![1, 2, 3]);
    assert_eq!(c.get("a"), Some(vec![1, 2, 3]));
    assert_eq!(c.get("b"), None);
    assert_eq!(c.len(), 1);
    c.put("a".to_string(), vec![9]);
    assert_eq!(c.get("a"), Some(vec![9]));
    assert_eq!(c.len(), 1);
}

#[test]
fn cache_overflow_evicts_least_recent() {
    let mut c = ImageCache::new(3);
    for k in ["a", "b", "c", "d"] {
        c.put(k.to_string(), k.as_bytes().to_vec());
    }
    assert_eq!(c.len(), 3);
    assert_eq!(c.get("a"), None);
    assert_eq!(c.get("b"), Some(b"b".to_vec()));
    assert_eq!(c.get("c"), Some(b"c".to_vec()));
    assert_eq!(c.get("d"), Some(b"d".to_vec()));
}

#[test]
fn cache_get_refreshes_recency() {
    let mut c = ImageCache::new(3);
    for k in ["a", "b", "c"] {
        c.put(k.to_string(), k.as_bytes().to_vec());
    }
    assert_eq!(c.get("a"), Some(b"a".to_vec()));
    c.put("d".to_string(), b"d".to_vec());
    assert_eq!(c.get("b"), None);
    assert_eq!(c.get("a"), Some(b"a".to_vec()));
    assert_eq!(c.get("c"), Some(b"c".to_vec()));
}

#[test]
fn cache_capacity_one() {
    let mut c = ImageCache::new(1);
    c.put("x".to_string(), vec![1]);
    c.put("y".to_string(), vec![2]);
    assert_eq!(c.len(), 1);
    assert_eq!(c.get("x"), None);
    assert_eq!(c.get("y"), Some(vec![2]));
    assert_eq!(c.capacity_limit(), 1);
}

#[test]
fn default_capacity_is_ten_thousand() {
    let c = ImageCache::with_default_capacity();
    assert_eq!(DEFAULT_CAPACITY, 10_000);
    assert_eq!(c.capacity_limit(), 10_000);
    assert_eq!(c.len(), 0);
}

#[test]
fn fetch_never_inserted_is_not_found() {
    let mut c = ImageCache::new(8);
    let r = fetch_image(&mut c, "0b6e5c2c-8f7e-4c1a-9a53-2f0d7c1e4b11");
    assert_eq!(r, Err(ServiceError::NotFound));
    assert_eq!(r.as_ref().unwrap_err().status_code(), 404);
    assert_eq!(ServiceError::NotFound.message(), "Image not found");
}

#[test]
fn ingest_invalid_base64_leaves_cache_unchanged() {
    let mut c = ImageCache::new(8);
    c.put("kept".to_string(), vec![7]);
    let r = ingest(&mut c, Base64Payload::Json(Some("not-valid-base64!!".to_string())));
    assert_eq!(r, Err(ServiceError::Validation(ValidationError::InvalidEncoding)));
    assert_eq!(r.as_ref().unwrap_err().status_code(), 400);
    assert_eq!(c.len(), 1);
    assert_eq!(c.get("kept"), Some(vec![7]));
}

#[test]
fn ingest_missing_field_is_bad_request() {
    let mut c = ImageCache::new(8);
    let r = ingest(&mut c, Base64Payload::Multipart(None));
    assert_eq!(r, Err(ServiceError::Validation(ValidationError::MissingField)));
    assert_eq!(r.as_ref().unwrap_err().status_code(), 400);
    assert_eq!(r.as_ref().unwrap_err().message(), "Missing 'base64' field");
    assert_eq!(c.len(), 0);
}

#[test]
fn ingest_then_fetch() {
    let mut c = ImageCache::new(8);
    let path = ingest(&mut c, Base64Payload::Form(Some("aGVsbG8=".to_string()))).unwrap();
    let h = handle_of(&path);
    assert_eq!(h.len(), 36);
    assert_eq!(fetch_image(&mut c, &h), Ok(b"hello".to_vec()));
}

#[test]
fn ingest_with_given_handle() {
    let mut c = ImageCache::new(2);
    let r = ingest_with_handle(&mut c, "h1".to_string(), Base64Payload::RawJson(Some("YWJj".to_string())));
    assert_eq!(r, Ok("/image/h1".to_string()));
    assert_eq!(fetch_image(&mut c, "h1"), Ok(b"abc".to_vec()));
    let bad = ingest_with_handle(&mut c, "h2".to_string(), Base64Payload::Json(Some("@@@@".to_string())));
    assert_eq!(bad, Err(ServiceError::Validation(ValidationError::InvalidEncoding)));
    assert_eq!(fetch_image(&mut c, "h2"), Err(ServiceError::NotFound));
}

#[test]
fn identical_payloads_get_distinct_handles() {
    let mut c = ImageCache::new(8);
    let p1 = ingest(&mut c, Base64Payload::Json(Some("aGk=".to_string()))).unwrap();
    let p2 = ingest(&mut c, Base64Payload::Json(Some("aGk=".to_string()))).unwrap();
    assert_ne!(p1, p2);
    assert_eq!(fetch_image(&mut c, &handle_of(&p1)), Ok(b"hi".to_vec()));
    assert_eq!(fetch_image(&mut c, &handle_of(&p2)), Ok(b"hi".to_vec()));
    assert_eq!(c.len(), 2);
}

#[test]
fn new_handle_is_hyphenated_hex() {
    let h = new_handle();
    assert_eq!(h.len(), 36);
    for (i, ch) in h.chars().enumerate() {
        if i == 8 || i == 13 || i == 18 || i == 23 {
            assert_eq!(ch, '-');
        } else {
            assert!(ch.is_ascii_digit() || ('a'..='f').contains(&ch));
        }
    }
    assert_eq!(h.chars().nth(14), Some('4'));
    assert_ne!(new_handle(), h);
}

#[test]
fn url_path_for_handle() {
    assert_eq!(image_url_path("abc"), "/image/abc");
}

#[test]
fn hash_of_non_hex_is_rejected() {
    let g = "g".repeat(32);
    let r = check_hash_format(&g);
    assert_eq!(r, Err(ServiceError::Validation(ValidationError::InvalidHashFormat)));
    assert_eq!(r.as_ref().unwrap_err().status_code(), 400);
    assert_eq!(r.as_ref().unwrap_err().message(), "Invalid MD5 hash format");
}

#[test]
fn hash_format_rules() {
    assert_eq!(check_hash_format("d41d8cd98f00b204e9800998ecf8427e"), Ok(()));
    assert_eq!(check_hash_format("D41D8CD98F00B204E9800998ECF8427E"), Ok(()));
    assert!(!is_valid_hash_text("d41d8cd98f00b204e9800998ecf8427"));
    assert!(!is_valid_hash_text("d41d8cd98f00b204e9800998ecf8427e0"));
    assert!(!is_valid_hash_text(""));
    assert!(!is_valid_hash_text("d41d8cd98f00b204e9800998ecf8427\u{e9}"));
    assert!(is_ascii_hex_digit('F'));
    assert!(!is_ascii_hex_digit('g'));
}

#[test]
fn stored_lookup_outcomes() {
    let none = resolve_stored_image(Ok(None));
    assert_eq!(none, Err(ServiceError::NotFound));
    assert_eq!(none.as_ref().unwrap_err().status_code(), 404);
    let corrupt = resolve_stored_image(Ok(Some("not-valid-base64!!".to_string())));
    assert_eq!(corrupt, Err(ServiceError::Internal(InternalError::CorruptStoredData)));
    assert_eq!(corrupt.as_ref().unwrap_err().status_code(), 500);
    assert_eq!(corrupt.as_ref().unwrap_err().message(), "Failed to decode image data");
    assert_eq!(resolve_stored_image(Ok(Some("aGVsbG8=".to_string()))), Ok(b"hello".to_vec()));
    let failed = resolve_stored_image(Err(InternalError::QueryFailed));
    assert_eq!(failed, Err(ServiceError::Internal(InternalError::QueryFailed)));
    assert_eq!(failed.as_ref().unwrap_err().status_code(), 500);
}

#[test]
fn error_messages() {
    assert_eq!(ServiceError::Validation(ValidationError::InvalidEncoding).message(), "Invalid Base64 encoding");
    assert_eq!(ServiceError::Internal(InternalError::ConnectionFailed).message(), "Database connection failed");
    assert_eq!(ServiceError::Internal(InternalError::QueryFailed).message(), "Database query failed");
}
