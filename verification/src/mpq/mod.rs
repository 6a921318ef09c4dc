//! Reading the MPQ archive that holds a map's member files.

pub mod archive;
pub mod compression;
pub mod crypt;
pub mod file;
pub mod salvage;
pub mod carve;
