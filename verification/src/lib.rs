//! Canonicalization and encoding engine for HTTP message signatures.
//!
//! Given an HTTP message view (method, path, optional query, raw header
//! list), the library derives the canonical signing string, produces a
//! signature over it with a caller-supplied key, and encodes the signature
//! plus its metadata into a standard header value that a verifying peer can
//! reproduce byte for byte.

pub mod algorithm;
pub mod canon;
pub mod encode;
pub mod engine;
pub mod error;
pub mod headers;
pub mod message;
pub mod signing;

pub use algorithm::KeyFamily;
pub use algorithm::ShaSize;
pub use algorithm::SignatureAlgorithm;
pub use engine::Key;
pub use error::Error;
pub use headers::HeaderSet;
pub use message::HttpSignatureParams;
pub use message::MessageView;
pub use signing::SigningString;
