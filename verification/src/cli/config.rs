//! The project config: where the project keeps its voice script, game
//! files, audio files and build output, the script's web address, its
//! sources and its build targets.
//!
//! Paths are relative to the project's root, as written in the config.
use std::collections::BTreeMap;

use vstd::prelude::*;

verus! {

/// The include paths of a source config that does not name them: the
/// project's root alone.
pub fn default_inc_paths() -> (r: Vec<String>)
    ensures
        r@.len() == 1,
        r@[0]@ == Seq::<char>::empty(),
{
    let mut r = Vec::new();
    r.push(String::new());
    r
}

/// The characters of an optional path.
pub open spec fn opt_chars(o: Option<String>) -> Option<Seq<char>> {
    match o {
        Some(s) => Some(s@),
        None => None,
    }
}

/// An optional string, borrowed.
fn opt_str(o: &Option<String>) -> (r: Option<&str>)
    ensures
        match r {
            Some(s) => opt_chars(*o) == Some(s@),
            None => o is None,
        },
{
    match o {
        Some(s) => Some(s.as_str()),
        None => None,
    }
}

/// The paths `v`, borrowed, in order.
fn borrowed_paths(v: &Vec<String>) -> (r: Vec<&str>)
    ensures
        r@.len() == v@.len(),
        forall|i: int| 0 <= i < v@.len() ==> (#[trigger] r@[i])@ == v@[i]@,
{
    let mut r: Vec<&str> = Vec::new();
    let mut i: usize = 0;
    while i < v.len()
        invariant
            i <= v@.len(),
            r@.len() == i,
            forall|j: int| 0 <= j < i ==> (#[trigger] r@[j])@ == v@[j]@,
        decreases v@.len() - i,
    {
        r.push(v[i].as_str());
        i = i + 1;
    }
    r
}

/// The root project config.
pub struct ProjectConfig {
    pub voice_script_config: Option<String>,
    pub game_files: Option<String>,
    pub audio_files_root: Option<String>,
    pub build_dir: Option<String>,
    pub script_url: Option<String>,
    pub source: SourceConfig,
    pub targets: BTreeMap<String, Target>,
}

/// A build target: the file that maps its lines.
pub struct Target {
    pub line_mapping: String,
}

/// Where the project's sources are, and the files they include.
pub struct SourceConfig {
    pub source_dir: Option<String>,
    pub global_includes: Vec<String>,
    pub include_paths: Vec<String>,
}

impl Default for SourceConfig {
    /// A source config that names nothing: no source directory, no global
    /// include, no include path.
    fn default() -> (c: Self)
        ensures
            c.source_dir is None,
            c.global_includes@.len() == 0,
            c.include_paths@.len() == 0,
    {
        SourceConfig { source_dir: None, global_includes: Vec::new(), include_paths: Vec::new() }
    }
}

impl ProjectConfig {
    /// The voice script's config file, if the project names one.
    pub fn voice_script_config(&self) -> (r: Option<&str>)
        ensures
            match r {
                Some(s) => opt_chars(self.voice_script_config) == Some(s@),
                None => self.voice_script_config is None,
            },
    {
        opt_str(&self.voice_script_config)
    }

    /// The game's files, if the project names them.
    pub fn game_files(&self) -> (r: Option<&str>)
        ensures
            match r {
                Some(s) => opt_chars(self.game_files) == Some(s@),
                None => self.game_files is None,
            },
    {
        opt_str(&self.game_files)
    }

    /// The root of the audio files, if the project names one.
    pub fn audio_files_root(&self) -> (r: Option<&str>)
        ensures
            match r {
                Some(s) => opt_chars(self.audio_files_root) == Some(s@),
                None => self.audio_files_root is None,
            },
    {
        opt_str(&self.audio_files_root)
    }

    /// The build directory, if the project names one.
    pub fn build_dir(&self) -> (r: Option<&str>)
        ensures
            match r {
                Some(s) => opt_chars(self.build_dir) == Some(s@),
                None => self.build_dir is None,
            },
    {
        opt_str(&self.build_dir)
    }

    /// The web address of the game's script, if the project gives one.
    pub fn script_url(&self) -> (r: Option<&str>)
        ensures
            match r {
                Some(s) => opt_chars(self.script_url) == Some(s@),
                None => self.script_url is None,
            },
    {
        opt_str(&self.script_url)
    }

    /// The build targets, by name.
    pub fn targets(&self) -> (r: &BTreeMap<String, Target>)
        ensures
            *r == self.targets,
    {
        &self.targets
    }

    /// The sources' config.
    pub fn source_config(&self) -> (r: &SourceConfig)
        ensures
            *r == self.source,
    {
        &self.source
    }
}

impl Target {
    /// The file that maps the target's lines.
    pub fn line_mapping(&self) -> (r: &str)
        ensures
            r@ == self.line_mapping@,
    {
        self.line_mapping.as_str()
    }
}

impl SourceConfig {
    /// The source directory, if the config names one.
    pub fn source_dir(&self) -> (r: Option<&str>)
        ensures
            match r {
                Some(s) => opt_chars(self.source_dir) == Some(s@),
                None => self.source_dir is None,
            },
    {
        opt_str(&self.source_dir)
    }

    /// The files every source includes, in order.
    pub fn global_includes(&self) -> (r: Vec<&str>)
        ensures
            r@.len() == self.global_includes@.len(),
            forall|i: int| 0 <= i < r@.len() ==> (#[trigger] r@[i])@ == self.global_includes@[i]@,
    {
        borrowed_paths(&self.global_includes)
    }

    /// The paths searched for includes, in order.
    pub fn include_paths(&self) -> (r: Vec<&str>)
        ensures
            r@.len() == self.include_paths@.len(),
            forall|i: int| 0 <= i < r@.len() ==> (#[trigger] r@[i])@ == self.include_paths@[i]@,
    {
        borrowed_paths(&self.include_paths)
    }
}

} // verus!
