//! Where a distribution keeps the tools it ships, and where a tool is
//! looked for.
//!
//! Paths are strings; a relative path is joined to a directory with `/`.
use vstd::prelude::*;

verus! {

/// `base` joined with the relative path `rel`: a separator is put between
/// them unless `base` is empty or already ends with one.
pub open spec fn join_spec(base: Seq<char>, rel: Seq<char>) -> Seq<char> {
    if base.len() == 0 || base.last() == '/' {
        base + rel
    } else {
        base + seq!['/'] + rel
    }
}

/// Joins the relative path `rel` to `base`.
pub fn join_path(base: &str, rel: &str) -> (p: String)
    ensures
        p@ == join_spec(base@, rel@),
{
    let mut p = String::from_str(base);
    let n = base.unicode_len();
    if n == 0 || base.get_char(n - 1) == '/' {
        p.append(rel);
    } else {
        p.append("/");
        proof {
            reveal_strlit("/");
            assert("/"@ =~= seq!['/']);
        }
        p.append(rel);
    }
    p
}

/// The file name of a tool's binary: its name, with the platform's
/// executable extension if it has one (and the name is not empty).
pub fn add_exec_extension(name: &str, exe_ext: Option<&str>) -> (file_name: String)
    ensures
        file_name@ == match exe_ext {
            Some(ext) => if name@.len() == 0 {
                name@
            } else {
                name@ + seq!['.'] + ext@
            },
            None => name@,
        },
{
    let mut file_name = String::from_str(name);
    match exe_ext {
        Some(ext) => {
            if name.unicode_len() != 0 {
                file_name.append(".");
                proof {
                    reveal_strlit(".");
                    assert("."@ =~= seq!['.']);
                }
                file_name.append(ext);
            }
        },
        None => {},
    }
    file_name
}

/// The directories of a distribution's external tools: their root, and
/// the directory of their binaries relative to it.
#[derive(Debug, Clone)]
pub struct DefaultPaths {
    pub ext_root_dir: String,
    pub ext_bin_dir: String,
}

/// Where a tool's binary was found.
#[derive(Debug, Clone)]
pub enum ToolLocation {
    /// In the distribution: its root, and the binary's path relative to it.
    Dist { root: String, bin: String },
    /// On the system's search path.
    SystemPath { path: String },
}

/// The path where the distribution would hold the binary `bin_filename`.
pub fn dist_binary_path(paths: &DefaultPaths, bin_filename: &str) -> (p: String)
    ensures
        p@ == join_spec(join_spec(paths.ext_root_dir@, paths.ext_bin_dir@), bin_filename@),
{
    let dir = join_path(paths.ext_root_dir.as_str(), paths.ext_bin_dir.as_str());
    join_path(dir.as_str(), bin_filename)
}

/// A location as characters.
pub enum LocationModel {
    Dist(Seq<char>, Seq<char>),
    SystemPath(Seq<char>),
}

/// The model of a location.
pub open spec fn location_model(l: ToolLocation) -> LocationModel {
    match l {
        ToolLocation::Dist { root, bin } => LocationModel::Dist(root@, bin@),
        ToolLocation::SystemPath { path } => LocationModel::SystemPath(path@),
    }
}

/// The locations a search finds: the distribution's binary when there is a
/// distribution and its binary is executable, then the binary found on the
/// system's search path, if any.
pub open spec fn expected_locations(
    paths: Option<DefaultPaths>,
    bin_filename: Seq<char>,
    dist_binary_is_executable: bool,
    system_path_binary: Option<String>,
) -> Seq<LocationModel> {
    let dist = match paths {
        Some(p) => if dist_binary_is_executable {
            seq![LocationModel::Dist(p.ext_root_dir@, join_spec(p.ext_bin_dir@, bin_filename))]
        } else {
            seq![]
        },
        None => seq![],
    };
    match system_path_binary {
        Some(s) => dist.push(LocationModel::SystemPath(s@)),
        None => dist,
    }
}

/// The locations of a tool, in order of preference, from what the search
/// found: whether the distribution's binary is executable, and the binary
/// found on the system's search path.
pub fn binary_locations(
    paths: &Option<DefaultPaths>,
    bin_filename: &str,
    dist_binary_is_executable: bool,
    system_path_binary: Option<String>,
) -> (locations: Vec<ToolLocation>)
    ensures
        Seq::new(locations@.len(), |i: int| location_model(locations@[i])) == expected_locations(
            *paths,
            bin_filename@,
            dist_binary_is_executable,
            system_path_binary,
        ),
{
    let mut locations: Vec<ToolLocation> = Vec::new();
    match paths {
        Some(p) => {
            if dist_binary_is_executable {
                locations.push(
                    ToolLocation::Dist {
                        root: p.ext_root_dir.clone(),
                        bin: join_path(p.ext_bin_dir.as_str(), bin_filename),
                    },
                );
            }
        },
        None => {},
    }
    match system_path_binary {
        Some(s) => {
            locations.push(ToolLocation::SystemPath { path: s });
        },
        None => {},
    }
    assert(Seq::new(locations@.len(), |i: int| location_model(locations@[i])) =~= expected_locations(
        *paths,
        bin_filename@,
        dist_binary_is_executable,
        system_path_binary,
    ));
    locations
}

/// The names of the variables in `vars`.
pub open spec fn var_names(vars: Seq<(String, String)>) -> Seq<Seq<char>> {
    vars.map_values(|v: (String, String)| v.0@)
}

/// The value of the variable `name` among `vars`, if it is set.
pub open spec fn var_value(vars: Seq<(String, String)>, name: Seq<char>) -> Option<Seq<char>> {
    if exists|i: int| 0 <= i < vars.len() && (#[trigger] vars[i]).0@ == name {
        let i = choose|i: int| 0 <= i < vars.len() && (#[trigger] vars[i]).0@ == name;
        Some(vars[i].1@)
    } else {
        None
    }
}

/// The place of the variable `name` among `vars`, if it is set.
fn find_var(vars: &Vec<(String, String)>, name: &str) -> (r: Option<usize>)
    ensures
        match r {
            Some(i) => i < vars@.len() && vars@[i as int].0@ == name@,
            None => forall|i: int| 0 <= i < vars@.len() ==> (#[trigger] vars@[i]).0@ != name@,
        },
{
    let mut i: usize = 0;
    while i < vars.len()
        invariant
            i <= vars@.len(),
            forall|j: int| 0 <= j < i ==> (#[trigger] vars@[j]).0@ != name@,
        decreases vars@.len() - i,
    {
        if crate::strings::str_eq(vars[i].0.as_str(), name) {
            return Some(i);
        }
        i = i + 1;
    }
    None
}

/// Setting a variable twice.
#[derive(Debug, Clone, PartialEq, Eq)]
pub struct DuplicateVar {
    pub var: String,
}

/// The settings a distribution environment is built from: whether to look
/// for tools on the system's search path, and the environment variables
/// it captured, each set once.
pub struct DistEnvBuilder {
    pub use_system_path: bool,
    pub env_vars: Vec<(String, String)>,
}

impl DistEnvBuilder {
    /// No variable is set twice.
    pub open spec fn wf(&self) -> bool {
        var_names(self.env_vars@).no_duplicates()
    }

    /// Settings that do not use the system's search path and capture no
    /// variable.
    pub fn new() -> (b: Self)
        ensures
            !b.use_system_path,
            b.env_vars@.len() == 0,
            b.wf(),
    {
        let b = DistEnvBuilder { use_system_path: false, env_vars: Vec::new() };
        assert(var_names(b.env_vars@) =~= Seq::<Seq<char>>::empty());
        b
    }

    /// The settings with `use_system_path` set.
    pub fn set_use_system_path(self, use_system_path: bool) -> (b: Self)
        ensures
            b.use_system_path == use_system_path,
            b.env_vars@ == self.env_vars@,
    {
        DistEnvBuilder { use_system_path, env_vars: self.env_vars }
    }

    /// The settings with the variable `var` set to `value`; an error if it
    /// is set already.
    pub fn add_env_var(self, var: &str, value: &str) -> (r: Result<Self, DuplicateVar>)
        requires
            self.wf(),
        ensures
            match r {
                Ok(b) => var_value(self.env_vars@, var@) is None && b.wf()
                    && b.use_system_path == self.use_system_path && b.env_vars@.len()
                    == self.env_vars@.len() + 1 && var_value(b.env_vars@, var@) == Some(value@)
                    && forall|name: Seq<char>|
                    name != var@ ==> var_value(b.env_vars@, name) == var_value(
                        self.env_vars@,
                        name,
                    ),
                Err(e) => var_value(self.env_vars@, var@) is Some && e.var@ == var@,
            },
    {
        match find_var(&self.env_vars, var) {
            Some(i) => {
                proof {
                    assert(self.env_vars@[i as int].0@ == var@);
                }
                Err(DuplicateVar { var: String::from_str(var) })
            },
            None => {
                let ghost old_vars = self.env_vars@;
                let mut env_vars = self.env_vars;
                env_vars.push((String::from_str(var), String::from_str(value)));
                proof {
                    let n = old_vars.len() as int;
                    assert(var_names(env_vars@) =~= var_names(old_vars).push(var@));
                    assert(!var_names(old_vars).contains(var@)) by {
                        if var_names(old_vars).contains(var@) {
                            let k = choose|k: int| 0 <= k < n && var_names(old_vars)[k] == var@;
                            assert(old_vars[k].0@ == var@);
                        }
                    }
                    assert(env_vars@[n].0@ == var@);
                    assert(var_value(env_vars@, var@) == Some(value@)) by {
                        let i = choose|i: int|
                            0 <= i < env_vars@.len() && (#[trigger] env_vars@[i]).0@ == var@;
                        if i != n {
                            assert(env_vars@[i] == old_vars[i]);
                        }
                    }
                    assert forall|name: Seq<char>| name != var@ implies var_value(env_vars@, name)
                        == var_value(old_vars, name) by {
                        if exists|i: int| 0 <= i < old_vars.len() && (#[trigger] old_vars[i]).0@ == name {
                            let i = choose|i: int|
                                0 <= i < old_vars.len() && (#[trigger] old_vars[i]).0@ == name;
                            assert(env_vars@[i] == old_vars[i]);
                            let j = choose|j: int|
                                0 <= j < env_vars@.len() && (#[trigger] env_vars@[j]).0@ == name;
                            assert(j != n);
                            assert(env_vars@[j] == old_vars[j]);
                            assert(var_names(old_vars)[i] == name && var_names(old_vars)[j] == name);
                        }
                        if exists|j: int| 0 <= j < env_vars@.len() && (#[trigger] env_vars@[j]).0@ == name {
                            let j = choose|j: int|
                                0 <= j < env_vars@.len() && (#[trigger] env_vars@[j]).0@ == name;
                            assert(j != n);
                            assert(old_vars[j] == env_vars@[j]);
                        }
                    }
                }
                Ok(DistEnvBuilder { use_system_path: self.use_system_path, env_vars })
            },
        }
    }

    /// The environment of a distribution: the distribution's paths (when
    /// its root was found and checked), and these settings.
    pub fn build_from_root(self, paths: Option<DefaultPaths>) -> (env: DistEnv)
        ensures
            env.use_system_path == self.use_system_path,
            env.env_vars@ == self.env_vars@,
            env.paths == paths,
    {
        DistEnv { use_system_path: self.use_system_path, paths, env_vars: self.env_vars }
    }
}

/// A distribution environment: whether tools are looked for on the
/// system's search path, the distribution's paths if it has them, and the
/// environment variables it captured.
pub struct DistEnv {
    pub use_system_path: bool,
    pub paths: Option<DefaultPaths>,
    pub env_vars: Vec<(String, String)>,
}

impl DistEnv {
    /// The value the variable `var` was captured with, if any.
    pub fn get_env_var(&self, var: &str) -> (r: Option<&str>)
        ensures
            match r {
                Some(v) => var_value(self.env_vars@, var@) is Some && (exists|i: int|
                    0 <= i < self.env_vars@.len() && (#[trigger] self.env_vars@[i]).0@ == var@
                        && self.env_vars@[i].1@ == v@) && (var_names(
                    self.env_vars@,
                ).no_duplicates() ==> var_value(self.env_vars@, var@) == Some(v@)),
                None => var_value(self.env_vars@, var@) is None,
            },
    {
        match find_var(&self.env_vars, var) {
            Some(i) => {
                proof {
                    let vars = self.env_vars@;
                    if var_names(vars).no_duplicates() {
                        let j = choose|j: int| 0 <= j < vars.len() && (#[trigger] vars[j]).0@ == var@;
                        assert(var_names(vars)[j] == var@ && var_names(vars)[i as int] == var@);
                    }
                }
                Some(self.env_vars[i].1.as_str())
            },
            None => None,
        }
    }
}

/// Where a scinc home directory keeps the compiler and its includes:
/// `bin/scinc` with the platform's executable suffix, and `include`.
pub fn scinc_home_paths(home: &str, exe_suffix: &str) -> (r: (String, String))
    ensures
        r.0@ == join_spec(home@, "bin/scinc"@ + exe_suffix@),
        r.1@ == join_spec(home@, "include"@),
{
    let mut bin = String::from_str("bin/scinc");
    bin.append(exe_suffix);
    (join_path(home, bin.as_str()), join_path(home, "include"))
}

} // verus!
