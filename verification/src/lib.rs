//! Scanning directory trees for images and fingerprinting them.
//!
//! The crate holds the decisions of a scan and leaves every touch of the file
//! system to its caller. [`walker::Walker`] decides which entries of a tree
//! are visited, opened and yielded. [`pipeline`] decides what is written for
//! each yielded item. [`fingerprint`] turns decoded pixels into the text that
//! identifies an image. [`snapshot`] runs the same decisions over a tree held
//! in memory and states what a scan of a tree yields, and [`laws`] proves what
//! holds of every scan.

pub mod entry;
pub mod fingerprint;
pub mod laws;
pub mod pipeline;
pub mod policy;
pub mod snapshot;
pub mod walker;
