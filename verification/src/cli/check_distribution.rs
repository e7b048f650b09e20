//! Checking that a distribution has the tools it needs.
use vstd::prelude::*;

verus! {

/// A tool that a distribution may be required to have.
#[derive(Debug, Clone, Copy, PartialEq, Eq, Structural)]
pub enum RequiredTool {
    EspeakNg,
    Ffmpeg,
    Scinc,
}

/// What the check found of a tool.
#[derive(Debug, Clone, Copy, PartialEq, Eq, Structural)]
pub enum ToolStatus {
    /// No binary of the tool was found.
    Unavailable,
    /// A binary was found, but its test run failed.
    Invalid,
    /// A binary was found and its test run succeeded.
    Valid,
}

/// The status of a tool, from the outcome of its test run: `None` when no
/// binary was found to run.
pub fn tool_status(test_run_succeeded: Option<bool>) -> (s: ToolStatus)
    ensures
        s == match test_run_succeeded {
            None => ToolStatus::Unavailable,
            Some(true) => ToolStatus::Valid,
            Some(false) => ToolStatus::Invalid,
        },
{
    match test_run_succeeded {
        None => ToolStatus::Unavailable,
        Some(true) => ToolStatus::Valid,
        Some(false) => ToolStatus::Invalid,
    }
}

/// The statuses of the three tools a distribution may need.
#[derive(Debug, Clone, Copy, PartialEq, Eq, Structural)]
pub struct ToolStatuses {
    pub ffmpeg: ToolStatus,
    pub espeak: ToolStatus,
    pub scinc: ToolStatus,
}

/// The status of `tool` among `statuses`.
pub open spec fn status_of(statuses: ToolStatuses, tool: RequiredTool) -> ToolStatus {
    match tool {
        RequiredTool::Ffmpeg => statuses.ffmpeg,
        RequiredTool::EspeakNg => statuses.espeak,
        RequiredTool::Scinc => statuses.scinc,
    }
}

/// Whether the distribution passes the check: every required tool is
/// valid, and no failure was asked for (to test the check itself).
pub fn distribution_valid(
    required_tools: &Vec<RequiredTool>,
    statuses: ToolStatuses,
    test_fail: bool,
) -> (valid: bool)
    ensures
        valid == (!test_fail && forall|i: int|
            0 <= i < required_tools@.len() ==> status_of(statuses, #[trigger] required_tools@[i])
                == ToolStatus::Valid),
{
    let mut is_valid = true;
    let mut i: usize = 0;
    while i < required_tools.len()
        invariant
            i <= required_tools@.len(),
            is_valid == forall|j: int|
                0 <= j < i ==> status_of(statuses, #[trigger] required_tools@[j])
                    == ToolStatus::Valid,
        decreases required_tools@.len() - i,
    {
        let status = match required_tools[i] {
            RequiredTool::Ffmpeg => statuses.ffmpeg,
            RequiredTool::EspeakNg => statuses.espeak,
            RequiredTool::Scinc => statuses.scinc,
        };
        is_valid = is_valid && status == ToolStatus::Valid;
        i = i + 1;
        assert(is_valid == forall|j: int|
            0 <= j < i ==> status_of(statuses, #[trigger] required_tools@[j]) == ToolStatus::Valid)
            by {
            if !is_valid {
                if status != ToolStatus::Valid {
                    assert(status_of(statuses, required_tools@[i - 1]) != ToolStatus::Valid);
                }
            }
        }
    }
    if test_fail {
        is_valid = false;
    }
    is_valid
}

} // verus!
