//! An image relay core: base64 payload decoding, handle issuing, a bounded
//! least-recently-used image cache, and lookups of stored images by content hash.
pub mod codec;
pub mod errors;
pub mod payload;
pub mod cache;
pub mod handle;
pub mod lookup;
pub mod service;
