//! Finds image files (`.jpg`/`.jpeg`) without a matching `nef` raw file, and
//! raw files without a matching image, in a set of directory trees, and drives
//! the deletion of the odd files it found.

pub mod paths;
pub mod remove;
pub mod scan;
