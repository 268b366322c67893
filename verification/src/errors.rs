//! The ways an operation of this library can fail.

use vstd::prelude::*;

verus! {

/// Failure kinds, mirrored at every level of the pipeline.
///
/// `Configuration` covers a destination that is neither a regular file nor
/// a directory (and, in the shell around the library, bad command-line
/// flags). `Io` stands for a failed system call reported by the driver.
/// `ShortRead` means fewer than the header size of bytes were available
/// from the source or the destination. `Underflow` means the requested
/// truncation exceeds the file's current length. `UnsupportedFileType`
/// marks a symlink or special file met during traversal.
#[derive(Clone, Copy, Debug, PartialEq, Eq, Structural)]
pub enum Error {
    Configuration,
    Io,
    ShortRead,
    Underflow,
    UnsupportedFileType,
}

} // verus!
