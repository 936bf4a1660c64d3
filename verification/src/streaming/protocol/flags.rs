//! Bits of the flags byte of a frame header.
use vstd::prelude::*;

verus! {

/// The payload is stored as it is.
pub const NONE: u8 = 0x00;

/// The payload is a raw DEFLATE stream.
pub const DEFLATE_RAW: u8 = 0x01;

/// The payload is an H.264 access unit.
pub const H264_PAYLOAD: u8 = 0x02;

} // verus!
