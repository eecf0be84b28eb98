//! SEGUID-style checksums for biological sequences.
//!
//! A checksum is computed by uppercasing the input bytes, hashing them with
//! SHA-1, base64-encoding the 20-byte digest, and stripping the single
//! trailing `=` padding character, which leaves a fixed 27-byte printable
//! identifier. The identifier compares byte-wise, so checksums sort
//! deterministically and can serve as database keys.

pub mod b64;
pub mod checksum;
pub mod text;

pub use b64::is_b64_byte;
pub use checksum::Seguid;
pub use checksum::SeguidError;
