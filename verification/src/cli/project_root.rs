//! Finding a project's root: the nearest directory, from a start directory
//! up to the file system's root, that holds the project file.
use vstd::prelude::*;

verus! {

/// Why no project root was found.
#[derive(Debug, Clone, Copy, PartialEq, Eq, Structural)]
pub enum ProjectRootError {
    /// The root directory was reached without finding the project file.
    NotFound,
}

/// The project root among the ancestors of a start directory: the nearest
/// that holds the project file. `holds_project_file[k]` says whether the
/// `k`-th ancestor holds it (0 for the start directory itself, then its
/// parent, and so on up to the root); the result is that `k`.
pub fn find_project_root(holds_project_file: &Vec<bool>) -> (r: Result<usize, ProjectRootError>)
    ensures
        r matches Ok(k) ==> k < holds_project_file@.len() && holds_project_file@[k as int]
            && forall|j: int| 0 <= j < k ==> !holds_project_file@[j],
        r is Err <==> forall|j: int| 0 <= j < holds_project_file@.len() ==> !holds_project_file@[j],
{
    let mut k: usize = 0;
    while k < holds_project_file.len()
        invariant
            k <= holds_project_file@.len(),
            forall|j: int| 0 <= j < k ==> !holds_project_file@[j],
        decreases holds_project_file@.len() - k,
    {
        if holds_project_file[k] {
            return Ok(k);
        }
        k = k + 1;
    }
    Err(ProjectRootError::NotFound)
}

} // verus!
