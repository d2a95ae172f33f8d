//! Post-processor for a linked bare-metal binary: it inspects the layout the
//! linker produced, merges the contiguous statically-allocated sections around
//! `.bss`/`.data`, and, when the configured stack would collide with that
//! region, computes a corrected split address for a second linker pass and
//! validates the relinked output.

pub mod args;
pub mod errors;
pub mod layout;
pub mod merge;
pub mod solver;
