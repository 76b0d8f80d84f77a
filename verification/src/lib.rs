//! Content identifiers for byte contents: a SHA-256 digest wrapped in a
//! self-describing multihash/CID envelope (version, codec tag, hash function
//! code, digest), with a canonical base32-lower textual form, its parser, and
//! structural comparison. The wire and text codecs are verified down to the
//! bit level; the digest itself comes from a hashing crate behind a stated
//! contract.

pub mod base32;
pub mod error;
pub mod hashing;
pub mod identifier;
pub mod varint;
