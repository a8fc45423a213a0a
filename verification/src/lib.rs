//! A verified core for a pre-operating-system kernel loader.
//!
//! The loader locates a kernel image on a firmware-exposed volume, places its
//! loadable segments into physical memory at page granularity, applies
//! relative relocations when the image is position independent, acquires a
//! framebuffer descriptor, snapshots the firmware memory map and hands the
//! machine over to the kernel exactly once.
//!
//! This crate holds the decision and computation core of that sequence:
//! the image-format parser, the segment layout arithmetic, byte-exact segment
//! placement and relocation over an explicit physical-memory model, the
//! framebuffer mode-selection policy, and the memory-map/exit hand-off state
//! machine. The firmware itself is reached only through plain request and
//! response values; performing the actual machine calls is the caller's
//! affair.

use vstd::prelude::*;

pub mod boot;
pub mod firmware;
pub mod handoff;
pub mod image;
pub mod layout;
pub mod loader;
pub mod memory;
pub mod relocation;
pub mod words;

verus! {

/// Every way the loader can fail. There is no partial success: any of these
/// aborts the boot before control is handed over.
#[derive(Clone, Copy, Debug, PartialEq, Eq, Structural)]
pub enum LoadError {
    /// The image header is truncated or its identification fields are wrong.
    MalformedImage,
    /// A segment's file-backed bytes reach past the end of the image buffer.
    TruncatedImage,
    /// A relocation record has an unsupported kind, a negative or overflowing
    /// target, or points outside the loaded segments.
    UnsupportedRelocation,
    /// The firmware cannot provide pages at the requested fixed address.
    AllocationFailed,
    /// No graphics output interface is available.
    NoGraphicsDevice,
    /// The memory map could not be obtained within the bounded retry budget.
    MemoryMapUnavailable,
    /// The irreversible exit call failed for a reason other than a stale key,
    /// or the stale-key retry budget ran out.
    ExitServicesFailed,
    /// A firmware file or volume operation failed.
    FirmwareIOError,
}

} // verus!
