//! Decoding and validation of GUID Partition Tables read from raw disk images.
//!
//! The library turns an untrusted byte buffer into a validated header and a
//! list of partition records.  Every bounds check and every field read is
//! specified and verified; malformed input surfaces as a typed error, never
//! as a panic or an out-of-bounds access.

pub mod args;
mod chars;
pub mod gpt;
pub mod guid;
pub mod laws;
pub mod name;
