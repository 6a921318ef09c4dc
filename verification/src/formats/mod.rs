//! Parsers for the individual file formats found inside a map archive.

pub mod imp;
pub mod mmp;
pub mod w3i;
pub mod wts;
pub mod wtg;
