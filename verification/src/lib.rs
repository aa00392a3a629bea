//! A TCP (RFC 9293) header, option and segment codec with the RFC 1071 checksum.
use vstd::prelude::*;

pub mod wire;
pub mod ones_complement;
pub mod header;
pub mod option;
pub mod segment;
pub mod v6;

pub use ones_complement::{checksum, Checksum};
pub use header::Header;

verus! {

/// The IP protocol number of TCP.
pub const PROTOCOL: u8 = 0x06;

} // verus!
