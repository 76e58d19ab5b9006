//! Finds the processes that hold an open file descriptor on a given path.
//!
//! The library decides, from a snapshot of the process-filesystem tree
//! (the path of each descriptor entry and the referent its link resolved to, if
//! any), which process identifiers hold the canonical target open.
//! Reading the tree itself is left to the caller.
pub mod fields;
pub mod laws;
pub mod pid;
pub mod scan;
