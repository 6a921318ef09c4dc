//! Portable data shapes shared by the library and its callers.

pub mod header;
pub mod snapshot;
pub mod blp;
pub mod image;
pub mod metadata;
