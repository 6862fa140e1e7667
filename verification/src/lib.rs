//! Renders the chain of directories from the filesystem root down to a working
//! directory as a sequence of bordered panels, each listing one directory's
//! children with the active child highlighted.
//!
//! The crate holds the pure core: order statistics over name lengths, the
//! name-truncation policies built on them, panel construction (filtering,
//! highlight marking, sorting, width computation) and the greedy row-packing
//! layout that arranges panels into terminal-width rows. Reading directories,
//! querying the terminal and printing styled text are left to the caller,
//! which hands in plain values and prints the lines this crate computes.

pub mod path_container;
pub mod settings;
pub mod utils;
