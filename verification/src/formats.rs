//! File formats.
pub mod aseprite;
pub mod ndjson;
pub mod view_import;
