//! Replace the fixed-size leading segment ("header") of destination files
//! with the header of a single source file, keeping a backup of each
//! original header, and then shrink each destination by a caller-chosen
//! number of trailing bytes.
//!
//! The library holds the verified core: the byte-level transformations,
//! the per-file protocol that orders the backup write before the
//! destructive overwrite, and the walk over a directory tree. The thin
//! shell around it (command-line flags, the actual file system calls)
//! lives outside and only feeds plain values in and out.

pub mod errors;
pub mod bytes;
pub mod task;
pub mod pipeline;
pub mod walk;
