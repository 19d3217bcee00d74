//! Hides an arbitrary byte payload inside the least-significant bits of a
//! larger carrier buffer and recovers it again.
//!
//! Every logical byte of the framed stream (`START ++ payload ++ END`) is
//! spread over four consecutive carrier bytes, two bits per byte, most
//! significant pair first. The decoder locates the payload purely from the
//! fixed start and end markers; no length is transmitted.

pub mod decoder;
pub mod encoder;
pub mod errors;
pub mod framing;
pub mod laws;
