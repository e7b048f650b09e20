//! Collections that index values by keys derived from them.
pub mod indexed_map;
