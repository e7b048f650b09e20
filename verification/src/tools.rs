//! External tools: where their binaries are, and how their output is read.
use std::path::PathBuf;

use vstd::prelude::*;

pub mod ffmpeg;

verus! {

/// A path of the file system, as std holds it.
#[verifier::external_type_specification]
#[verifier::external_body]
pub struct ExPathBuf(PathBuf);

/// A tool run from its binary.
pub struct Tool {
    binary_path: PathBuf,
}

impl Tool {
    /// The binary the tool runs.
    pub closed spec fn binary_path_spec(&self) -> PathBuf {
        self.binary_path
    }

    /// The tool whose binary is at `path`.
    pub fn from_path(path: PathBuf) -> (t: Tool)
        ensures
            t.binary_path_spec() == path,
    {
        Tool { binary_path: path }
    }

    /// The path of the tool's binary.
    pub fn binary_path(&self) -> (p: &PathBuf)
        ensures
            *p == self.binary_path_spec(),
    {
        &self.binary_path
    }
}

} // verus!
