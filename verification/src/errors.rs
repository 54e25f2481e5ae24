//! The error kind reported when a command's preconditions are not met, or
//! when an argument is rejected before any side effect.

use vstd::prelude::*;

verus! {

/// A command-level failure: a missing required argument or an unset
/// profile/repository precondition, reported before any side effect.
#[derive(Clone, Copy, Debug, PartialEq, Eq, Structural)]
pub enum CmdError {
    /// No profile is selected, or the selected name is empty.
    NoProfileSelected,
    /// The backup repository path has not been configured.
    NoRepoPath,
    /// The remote repository identifier has not been configured.
    NoGithubRepo,
    /// The selected profile has no paths registered.
    NoPathsConfigured,
    /// No last backup identifier is recorded to resolve `latest` against.
    NoLastBackupId,
    /// The repository argument is empty.
    EmptyRepoArg,
    /// The path argument is empty.
    EmptyPathArg,
    /// A registered path has no normal component to mirror it under.
    NoNormalComponent,
}

impl CmdError {
    /// The message printed for this error.
    pub fn message(&self) -> (r: String)
        ensures
            r@ == match self {
                CmdError::NoProfileSelected => "No profile selected"@,
                CmdError::NoRepoPath => "Backup repository path is not set. Please run 'fuxi init' first."@,
                CmdError::NoGithubRepo => "GitHub repository is not set. Please run 'fuxi init' first."@,
                CmdError::NoPathsConfigured => "No paths configured for the selected profile."@,
                CmdError::NoLastBackupId => "No last backup ID is recorded."@,
                CmdError::EmptyRepoArg => "Please provide a valid GitHub repository in the format username/repo-name."@,
                CmdError::EmptyPathArg => "Please provide a valid path for the backup repository."@,
                CmdError::NoNormalComponent => "Path has no normal component to back it up under."@,
            },
    {
        match self {
            CmdError::NoProfileSelected => String::from_str("No profile selected"),
            CmdError::NoRepoPath => String::from_str(
                "Backup repository path is not set. Please run 'fuxi init' first.",
            ),
            CmdError::NoGithubRepo => String::from_str(
                "GitHub repository is not set. Please run 'fuxi init' first.",
            ),
            CmdError::NoPathsConfigured => String::from_str(
                "No paths configured for the selected profile.",
            ),
            CmdError::NoLastBackupId => String::from_str("No last backup ID is recorded."),
            CmdError::EmptyRepoArg => String::from_str(
                "Please provide a valid GitHub repository in the format username/repo-name.",
            ),
            CmdError::EmptyPathArg => String::from_str(
                "Please provide a valid path for the backup repository.",
            ),
            CmdError::NoNormalComponent => String::from_str(
                "Path has no normal component to back it up under.",
            ),
        }
    }
}

} // verus!
