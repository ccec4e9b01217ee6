//! A codec for the PS3 PUP ("PlayStation Update Package") container format.
//!
//! A package bundles a sequence of named, variable-length data segments with
//! per-segment integrity digests under a versioned, size-checked header.
//! [`Pup::decode`] parses a byte buffer into a [`Pup`] with full bounds and
//! version checking; [`Pup::encode`] serializes a [`Pup`] back to bytes,
//! byte-for-byte round-trippable. The round trip, and the rejections the
//! decoder guarantees, are proved in [`laws`].

pub mod bytes;
pub mod digest;
pub mod header;
pub mod laws;
pub mod meta;
pub mod pup;
pub mod seg;
pub mod table;
pub mod types;

pub use pup::Pup;
pub use pup::Segment;
pub use types::Digest;
pub use types::Error;
pub use types::FixedSize;
pub use types::Magic;
pub use types::SegmentId;
pub use types::SignatureKind;
