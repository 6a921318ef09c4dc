//! Reading Warcraft III maps (`.w3x` / `.w3m`): the optional `HM3W` prefix,
//! the embedded MPQ archive, and the member files it carries.
//!
//! Every parser here works on bytes, is bounds-checked, and is verified
//! against a specification of the format it reads.

pub mod error;
pub mod text;
pub mod reader;
pub mod formats;
pub mod model;
pub mod mpq;
pub mod w3x;
pub mod modscan;
pub mod carve;
pub mod catalog;
pub mod record;
