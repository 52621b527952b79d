//! ARP scanning engine for local IPv4 segments.
//!
//! The crate holds the pure logic of an ARP scanner: enumeration of the
//! target addresses, construction and decoding of the link-layer frames,
//! bookkeeping of the replies, timing estimation and vendor resolution.
//! Everything that touches the network or the terminal is left to the caller.

pub mod address;
pub mod collector;
pub mod coordinator;
pub mod estimate;
pub mod export;
pub mod frame;
pub mod interface;
pub mod options;
pub mod tabular;
pub mod text;
pub mod vendor;
