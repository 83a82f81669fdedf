//! Verified core of a bulk audio-library converter.
//!
//! The library mirrors a directory tree of music albums into a lossy copy:
//! lossless files are planned as transcoder invocations, everything else as
//! byte-for-byte copies. Paths are modelled as plain strings; all grouping,
//! validation, planning and tallying logic is verified here, while the
//! filesystem walk, directory creation, subprocess spawning and the worker
//! pool live in the surrounding application.

pub mod album;
pub mod convert;
pub mod paths;
pub mod tally;

use vstd::prelude::*;

verus! {

/// Error taxonomy of the library.
///
/// `NotFound` is fatal (scan root missing); the others are scoped to the
/// owning album or task, and a run counts them and continues.
#[derive(Clone, Copy, Debug, PartialEq, Eq, Structural)]
pub enum RunError {
    NotFound,
    IoError,
    PathError,
    ExternalToolError,
}

} // verus!
