//! A codec for multiboxes: opaque encrypted payloads carried inside a larger
//! message format, with a human-readable legacy text encoding (base64 plus a
//! literal suffix) and a compact binary encoding (type tag plus
//! length-prefixed bytes).

pub mod b64;
pub mod multibox;
pub mod varint;

pub use multibox::{DecodeCompactError, DecodeLegacyError, Multibox};
