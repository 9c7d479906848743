//! Trailer-based container format: a composite binary is a launcher, an
//! opaque archive payload, and a fixed-width footer at the absolute end of
//! the file that records the archive's size (and, in the tagged variant, a
//! 4-byte format tag). `footer` encodes and decodes the trailer; `splice`
//! locates the launcher/archive boundary and performs the compose, extract
//! and append operations.

pub mod footer;
pub mod splice;

use vstd::prelude::*;

verus! {

/// Failures of the splice operations.
///
/// `IoError` and `ExternalToolFailure` arise only at the I/O boundary around
/// this library; `InvalidFooter` is returned when a buffer is too short to
/// hold any supported footer; `ArchiveBoundaryNotFound` marks the soft
/// "no archive present" outcome for callers that require a payload.
#[derive(Clone, Copy, Debug, PartialEq, Eq, Structural)]
pub enum SpliceError {
    IoError,
    InvalidFooter,
    ArchiveBoundaryNotFound,
    ExternalToolFailure,
}

} // verus!
