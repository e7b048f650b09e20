//! Verified data formats and models for SCI fan-dub project tooling:
//! the Aseprite binary format, its user-data property maps, the voice-script
//! "book", the query expressions and ordered multimap of an indexed map, and
//! the decisions of the command line tools.
use vstd::prelude::*;

pub mod book;
pub mod bytes_le;
pub mod cli;
pub mod collections;
pub mod file;
pub mod formats;
pub mod resources;
pub mod strings;
pub mod tools;

verus! {

} // verus!
