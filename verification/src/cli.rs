//! The decisions of the command line tools: what a check concludes from
//! what it found, and how found files are sorted.
pub mod check_distribution;
pub mod config;
pub mod coverage;
pub mod dist_env;
pub mod data;
pub mod game_data;
pub mod project_root;
