//! Error taxonomy of the scan engine.

use vstd::prelude::*;

verus! {

/// How a scan can fail.
///
/// `MediumError` is the one recoverable kind: a read that failed because the
/// medium itself is unreadable. It is absorbed by the engine and turned into
/// scan data (bad-sector flags and counts), never surfaced as a process
/// failure. Every other kind is fatal and aborts the scan.
#[derive(Clone, Copy, Debug, PartialEq, Eq, Structural)]
pub enum ScanError {
    /// The target path does not resolve to a block special file.
    NotABlockDevice,
    /// A geometry query returned a non-positive or inconsistent value.
    GeometryQueryFailure,
    /// The medium could not be read at the probed range: the recoverable
    /// bad-sector signal.
    MediumError,
    /// Any other I/O failure; fatal.
    OtherIoFailure,
    /// A defensive internal assertion failed: a read or write not aligned to
    /// the sector size, a short zero-write, or a block-size update that the
    /// write handle did not observe. Indicates a device or transport bug.
    InvariantViolation,
}

impl ScanError {
    /// Whether the error aborts the scan (everything but a medium error).
    pub fn is_fatal(&self) -> (r: bool)
        ensures
            r == (*self != ScanError::MediumError),
    {
        match self {
            ScanError::MediumError => false,
            _ => true,
        }
    }

    /// A short human-readable description.
    pub fn describe(&self) -> (r: &'static str)
    {
        match self {
            ScanError::NotABlockDevice => "file is not a block device",
            ScanError::GeometryQueryFailure => "device geometry query failed",
            ScanError::MediumError => "medium error",
            ScanError::OtherIoFailure => "I/O failure",
            ScanError::InvariantViolation => "device I/O invariant violated",
        }
    }
}

} // verus!
