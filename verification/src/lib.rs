//! Wire-to-frame pipeline and frame decoder for a LiDAR-class instrument.
//!
//! The instrument emits a continuous stream of fixed-width 96-bit data units
//! ("HWORDs") over UDP.  This crate provides the verified core of the system:
//! the HWORD binary codec ([`hword`]), the count-based frame synchronization
//! state machine ([`frame_sync`]), the pure parts of the capture pipeline
//! ([`capture`]), and the frame decoder that reconstructs geometric points
//! from header/pixel HWORDs ([`frame`], [`coordinates`]).
//!
//! Socket reads, file writes, and thread plumbing live outside this crate;
//! they hand the library plain byte buffers and strings and take plain values
//! back.

pub mod capture;
pub mod config;
pub mod coordinates;
pub mod digits;
pub mod error;
pub mod frame;
pub mod frame_sync;
pub mod hword;
pub mod protocol;
