//! Random-access reading of a sparse, copy-on-write virtual disk image.
//!
//! A guest byte offset is resolved through a two-level table into a cluster
//! of the host image. [`reader::Reader`] keeps a cursor in the guest address
//! space, caches both table levels, and offers `read` and `seek` over the
//! guest disk. Every function is verified against the model of the guest disk
//! in [`disk`].

pub mod error;
pub mod geometry;
pub mod levels;
pub mod image;
pub mod disk;
pub mod reader;
pub mod laws;
