//! The decisions behind each command verb: which preconditions must hold,
//! which copies and git invocations follow, and how the configuration
//! changes. Reading arguments, walking the real file system and running
//! processes happen outside the library; they hand plain values in and
//! carry the planned steps out.

use vstd::prelude::*;

use crate::config::{selected_paths, ConfigView, FuxiConfig};
use crate::errors::CmdError;
use crate::gitplan::git_pull_args;
use crate::pathname::{extract_last_normal_component, last_normal_component};

verus! {

/// One planned copy: a source location, a destination location, and
/// whether a directory source's contents flatten into an already
/// existing destination (the restore direction) rather than recreating
/// the tree (the backup direction).
pub struct CopyStep {
    pub source: String,
    pub destination: String,
    pub flatten_into_existing_dir: bool,
}

/// The steps of one backup run.
pub struct BackupPlan {
    /// The identifier recorded for this backup.
    pub backup_id: String,
    /// The copies that mirror each registered path into the repository.
    pub copies: Vec<CopyStep>,
    /// Whether to push to the remote afterwards.
    pub push: bool,
    /// Whether to print the hint to run `save`, when no push was asked.
    pub hint_save: bool,
}

/// The steps of one apply run.
pub struct ApplyPlan {
    /// The identifier the given one resolved to.
    pub resolved_id: String,
    /// The git invocation that pulls the branch first; its failure is
    /// reported and the run continues.
    pub pull_args: Vec<String>,
    /// The copies that mirror each registered path back from the
    /// repository onto its live location.
    pub copies: Vec<CopyStep>,
    /// Whether to only show the steps without performing them.
    pub dryrun: bool,
}

/// The outcome of `init`.
#[derive(Clone, Copy, Debug, PartialEq, Eq, Structural)]
pub enum InitOutcome {
    /// The user declined the confirmation; nothing was changed.
    Cancelled,
    /// The repository location and remote were recorded;
    /// `create_repo` says whether the directory must still be created
    /// and initialized as a git repository.
    Initialized { create_repo: bool },
}

/// The outcome of `save`.
#[derive(Clone, Copy, Debug, PartialEq, Eq, Structural)]
pub enum SaveOutcome {
    /// The user declined the confirmation; nothing is pushed.
    Cancelled,
    /// The push sequence proceeds against the repository.
    Proceed,
}

/// Relies on chrono's `Utc::now` and its `format`: the current UTC time
/// rendered with `%Y%m%d_%H%M%S`. The result depends on the clock, so
/// nothing is promised of it.
#[verifier::external_body]
fn utc_compact_timestamp() -> String {
    chrono::Utc::now().format("%Y%m%d_%H%M%S").to_string()
}

/// The backup identifier derived from a timestamp.
pub fn make_backup_id(timestamp: &String) -> (r: String)
    ensures
        r@ == "backup_"@ + timestamp@,
{
    String::from_str("backup_").concat(timestamp.as_str())
}

/// A fresh backup identifier: `backup_` followed by the current UTC
/// timestamp.
pub fn fresh_backup_id() -> (r: String)
    ensures
        exists|ts: Seq<char>| r@ == "backup_"@ + ts,
{
    let ts = utc_compact_timestamp();
    let r = make_backup_id(&ts);
    proof {
        assert(r@ == "backup_"@ + ts@);
    }
    r
}

/// The destination under which a profile's path is mirrored:
/// `<repo>/<profile>/<component>`.
pub fn mirror_destination(repo: &String, profile: &String, component: &String) -> (r: String)
    ensures
        r@ == repo@ + "/"@ + profile@ + "/"@ + component@,
{
    repo.clone().concat("/").concat(profile.as_str()).concat("/").concat(component.as_str())
}

/// What `init` records: the repository location and the remote
/// identifier, after both arguments were checked and the user confirmed.
/// An empty path or repository argument is rejected before any change; a
/// declined confirmation cancels benignly. The repository directory is
/// to be created and initialized only where none exists yet.
pub fn plan_init(
    c: &mut FuxiConfig,
    repo: &String,
    path: &String,
    path_exists: bool,
    confirmed: bool,
) -> (r: Result<InitOutcome, CmdError>)
    ensures
        path@.len() == 0 ==> r == Err::<InitOutcome, CmdError>(CmdError::EmptyPathArg)
            && final(c)@ == old(c)@,
        path@.len() > 0 && repo@.len() == 0 ==> r == Err::<InitOutcome, CmdError>(
            CmdError::EmptyRepoArg,
        ) && final(c)@ == old(c)@,
        path@.len() > 0 && repo@.len() > 0 && !confirmed ==> r == Ok::<InitOutcome, CmdError>(
            InitOutcome::Cancelled,
        ) && final(c)@ == old(c)@,
        path@.len() > 0 && repo@.len() > 0 && confirmed ==> r == Ok::<InitOutcome, CmdError>(
            InitOutcome::Initialized { create_repo: !path_exists },
        ) && final(c)@ == (ConfigView {
            backup_repo_path: Some(path@),
            github_repo: Some(repo@),
            ..old(c)@
        }),
{
    if path.as_str().unicode_len() == 0 {
        return Err(CmdError::EmptyPathArg);
    }
    if repo.as_str().unicode_len() == 0 {
        return Err(CmdError::EmptyRepoArg);
    }
    if !confirmed {
        return Ok(InitOutcome::Cancelled);
    }
    self_set_repo(c, repo, path);
    Ok(InitOutcome::Initialized { create_repo: !path_exists })
}

/// Records the repository location and the remote identifier.
fn self_set_repo(c: &mut FuxiConfig, repo: &String, path: &String)
    ensures
        final(c)@ == (ConfigView {
            backup_repo_path: Some(path@),
            github_repo: Some(repo@),
            ..old(c)@
        }),
{
    c.backup_repo_path = Some(path.clone());
    c.github_repo = Some(repo.clone());
}

/// The copy steps that mirror the registered paths, one way or the
/// other. In the backup direction each path is copied to
/// `<repo>/<profile>/<component>`; in the restore direction the same
/// repository location is copied back onto the path, flattening into it.
fn plan_copies(
    paths: &Vec<String>,
    repo: &String,
    profile: &String,
    restore: bool,
) -> (r: Result<Vec<CopyStep>, CmdError>)
    ensures
        match r {
            Ok(copies) => (forall|i: int|
                0 <= i < paths@.len() ==> last_normal_component(
                    #[trigger] paths@[i]@,
                ).len() > 0) && copies@.len() == paths@.len() && (forall|i: int|
                0 <= i < paths@.len() ==> {
                    let mirrored = repo@ + "/"@ + profile@ + "/"@ + last_normal_component(
                        paths@[i]@,
                    );
                    &&& (#[trigger] copies@[i]).flatten_into_existing_dir == restore
                    &&& (if restore {
                        copies@[i].source@ == mirrored && copies@[i].destination@ == paths@[i]@
                    } else {
                        copies@[i].source@ == paths@[i]@ && copies@[i].destination@ == mirrored
                    })
                }),
            Err(e) => e == CmdError::NoNormalComponent && (exists|i: int|
                0 <= i < paths@.len() && last_normal_component(#[trigger] paths@[i]@).len() == 0),
        },
{
    let mut copies: Vec<CopyStep> = Vec::new();
    let mut i: usize = 0;
    while i < paths.len()
        invariant
            0 <= i <= paths.len(),
            copies@.len() == i,
            forall|j: int|
                0 <= j < i ==> last_normal_component(#[trigger] paths@[j]@).len() > 0,
            forall|j: int|
                0 <= j < i ==> {
                    let mirrored = repo@ + "/"@ + profile@ + "/"@ + last_normal_component(
                        paths@[j]@,
                    );
                    &&& (#[trigger] copies@[j]).flatten_into_existing_dir == restore
                    &&& (if restore {
                        copies@[j].source@ == mirrored && copies@[j].destination@ == paths@[j]@
                    } else {
                        copies@[j].source@ == paths@[j]@ && copies@[j].destination@ == mirrored
                    })
                },
        decreases paths.len() - i,
    {
        let component = extract_last_normal_component(paths[i].as_str());
        if component.as_str().unicode_len() == 0 {
            return Err(CmdError::NoNormalComponent);
        }
        let mirrored = mirror_destination(repo, profile, &component);
        let step = if restore {
            CopyStep {
                source: mirrored,
                destination: paths[i].clone(),
                flatten_into_existing_dir: true,
            }
        } else {
            CopyStep {
                source: paths[i].clone(),
                destination: mirrored,
                flatten_into_existing_dir: false,
            }
        };
        copies.push(step);
        i = i + 1;
    }
    Ok(copies)
}

impl FuxiConfig {
    /// What `backup` does: with the repository, the remote, a selected
    /// profile and its registered paths all present, each path is copied
    /// to `<repo>/<profile>/<component>` and the given identifier is
    /// recorded; the missing precondition is reported otherwise, before
    /// any change. Without `--push` a hint to run `save` is printed.
    pub fn plan_backup(&mut self, backup_id: &String, push: bool) -> (r: Result<
        BackupPlan,
        CmdError,
    >)
        ensures
            r is Err ==> final(self)@ == old(self)@,
            old(self)@.backup_repo_path is None ==> r == Err::<BackupPlan, CmdError>(
                CmdError::NoRepoPath,
            ),
            old(self)@.backup_repo_path is Some && old(self)@.github_repo is None ==> r == Err::<
                BackupPlan,
                CmdError,
            >(CmdError::NoGithubRepo),
            old(self)@.backup_repo_path is Some && old(self)@.github_repo is Some
                && old(self)@.selected_profile is None ==> r == Err::<BackupPlan, CmdError>(
                CmdError::NoProfileSelected,
            ),
            old(self)@.backup_repo_path is Some && old(self)@.github_repo is Some
                && old(self)@.selected_profile is Some && selected_paths(old(self)@).len() == 0
                ==> r == Err::<BackupPlan, CmdError>(CmdError::NoPathsConfigured),
            r matches Ok(p) ==> {
                let repo = old(self)@.backup_repo_path->0;
                let profile = old(self)@.selected_profile->0;
                let paths = selected_paths(old(self)@);
                &&& old(self)@.backup_repo_path is Some
                &&& old(self)@.github_repo is Some
                &&& old(self)@.selected_profile is Some
                &&& paths.len() > 0
                &&& final(self)@ == (ConfigView {
                    last_backup_id: Some(backup_id@),
                    ..old(self)@
                })
                &&& p.backup_id@ == backup_id@
                &&& p.push == push
                &&& p.hint_save == !push
                &&& p.copies@.len() == paths.len()
                &&& forall|i: int|
                    0 <= i < paths.len() ==> {
                        let mirrored = repo + "/"@ + profile + "/"@ + last_normal_component(
                            paths[i],
                        );
                        &&& (#[trigger] p.copies@[i]).source@ == paths[i]
                        &&& p.copies@[i].destination@ == mirrored
                        &&& !p.copies@[i].flatten_into_existing_dir
                    }
            },
            r is Err ==> r->Err_0 == CmdError::NoRepoPath || r->Err_0 == CmdError::NoGithubRepo
                || r->Err_0 == CmdError::NoProfileSelected || r->Err_0
                == CmdError::NoPathsConfigured || r->Err_0 == CmdError::NoNormalComponent,
            r == Err::<BackupPlan, CmdError>(CmdError::NoNormalComponent) ==> exists|i: int|
                0 <= i < selected_paths(old(self)@).len() && last_normal_component(
                    #[trigger] selected_paths(old(self)@)[i],
                ).len() == 0,
            old(self)@.backup_repo_path is Some && old(self)@.github_repo is Some && old(
                self,
            )@.selected_profile is Some && selected_paths(old(self)@).len() > 0 && (forall|i: int|
                0 <= i < selected_paths(old(self)@).len() ==> last_normal_component(
                    #[trigger] selected_paths(old(self)@)[i],
                ).len() > 0) ==> r is Ok,
    {
        let repo = match &self.backup_repo_path {
            Some(p) => p.clone(),
            None => {
                return Err(CmdError::NoRepoPath);
            },
        };
        if self.github_repo.is_none() {
            return Err(CmdError::NoGithubRepo);
        }
        let profile = match &self.selected_profile {
            Some(s) => s.clone(),
            None => {
                return Err(CmdError::NoProfileSelected);
            },
        };
        let paths = self.get_selected_profile_paths();
        if paths.len() == 0 {
            return Err(CmdError::NoPathsConfigured);
        }
        let copies = match plan_copies(&paths, &repo, &profile, false) {
            Ok(c) => c,
            Err(e) => {
                proof {
                    let i = choose|i: int|
                        0 <= i < paths@.len() && last_normal_component(paths@[i]@).len() == 0;
                    assert(paths.deep_view()[i] == paths@[i]@);
                    assert(last_normal_component(selected_paths(old(self)@)[i]).len() == 0);
                }
                return Err(e);
            },
        };
        self.update_last_backup_id(backup_id);
        Ok(
            BackupPlan {
                backup_id: backup_id.clone(),
                copies,
                push,
                hint_save: !push,
            },
        )
    }

    /// What `apply` does: the identifier `latest` resolves to the
    /// recorded last backup and fails without one; with the repository
    /// and registered paths present, the branch is pulled (a failure
    /// there is reported and the run continues) and each repository
    /// location `<repo>/<profile>/<component>` is copied back onto its
    /// live path, flattening into it; the missing precondition is
    /// reported otherwise, before any change. The resolved identifier is
    /// recorded.
    pub fn plan_apply(&mut self, id: &String, dryrun: bool) -> (r: Result<ApplyPlan, CmdError>)
        ensures
            r is Err ==> final(self)@ == old(self)@,
            old(self)@.backup_repo_path is None ==> r == Err::<ApplyPlan, CmdError>(
                CmdError::NoRepoPath,
            ),
            old(self)@.backup_repo_path is Some && id@ == "latest"@
                && old(self)@.last_backup_id is None ==> r == Err::<ApplyPlan, CmdError>(
                CmdError::NoLastBackupId,
            ),
            r matches Ok(p) ==> {
                let repo = old(self)@.backup_repo_path->0;
                let profile = old(self)@.selected_profile->0;
                let paths = selected_paths(old(self)@);
                &&& old(self)@.backup_repo_path is Some
                &&& paths.len() > 0
                &&& p.resolved_id@ == (if id@ == "latest"@ {
                    old(self)@.last_backup_id->0
                } else {
                    id@
                })
                &&& final(self)@ == (ConfigView {
                    last_backup_id: Some(p.resolved_id@),
                    ..old(self)@
                })
                &&& p.pull_args.deep_view() == seq!["pull"@, "origin"@, old(self)@.git_branch]
                &&& p.dryrun == dryrun
                &&& p.copies@.len() == paths.len()
                &&& forall|i: int|
                    0 <= i < paths.len() ==> {
                        let mirrored = repo + "/"@ + profile + "/"@ + last_normal_component(
                            paths[i],
                        );
                        &&& (#[trigger] p.copies@[i]).source@ == mirrored
                        &&& p.copies@[i].destination@ == paths[i]
                        &&& p.copies@[i].flatten_into_existing_dir
                    }
            },
            r is Err ==> r->Err_0 == CmdError::NoRepoPath || r->Err_0 == CmdError::NoLastBackupId
                || r->Err_0 == CmdError::NoPathsConfigured || r->Err_0
                == CmdError::NoNormalComponent,
            r == Err::<ApplyPlan, CmdError>(CmdError::NoPathsConfigured) ==> selected_paths(
                old(self)@,
            ).len() == 0,
            r == Err::<ApplyPlan, CmdError>(CmdError::NoNormalComponent) ==> exists|i: int|
                0 <= i < selected_paths(old(self)@).len() && last_normal_component(
                    #[trigger] selected_paths(old(self)@)[i],
                ).len() == 0,
            old(self)@.backup_repo_path is Some && (id@ == "latest"@ ==> old(
                self,
            )@.last_backup_id is Some) && selected_paths(old(self)@).len() > 0 && (forall|i: int|
                0 <= i < selected_paths(old(self)@).len() ==> last_normal_component(
                    #[trigger] selected_paths(old(self)@)[i],
                ).len() > 0) ==> r is Ok,
    {
        let repo = match &self.backup_repo_path {
            Some(p) => p.clone(),
            None => {
                return Err(CmdError::NoRepoPath);
            },
        };
        let latest = String::from_str("latest");
        let resolved_id = if *id == latest {
            match &self.last_backup_id {
                Some(last) => last.clone(),
                None => {
                    return Err(CmdError::NoLastBackupId);
                },
            }
        } else {
            id.clone()
        };
        let profile = match &self.selected_profile {
            Some(s) => s.clone(),
            None => {
                return Err(CmdError::NoPathsConfigured);
            },
        };
        let paths = self.get_selected_profile_paths();
        if paths.len() == 0 {
            return Err(CmdError::NoPathsConfigured);
        }
        let copies = match plan_copies(&paths, &repo, &profile, true) {
            Ok(c) => c,
            Err(e) => {
                proof {
                    let i = choose|i: int|
                        0 <= i < paths@.len() && last_normal_component(paths@[i]@).len() == 0;
                    assert(paths.deep_view()[i] == paths@[i]@);
                    assert(last_normal_component(selected_paths(old(self)@)[i]).len() == 0);
                }
                return Err(e);
            },
        };
        let pull_args = git_pull_args(&self.git_branch);
        self.update_last_backup_id(&resolved_id);
        Ok(ApplyPlan { resolved_id, pull_args, copies, dryrun })
    }

    /// What `save` decides: without `--force` a declined confirmation
    /// cancels benignly; with the repository unset the precondition is
    /// reported; otherwise the push sequence proceeds.
    pub fn plan_save(&self, force: bool, confirmed: bool) -> (r: Result<SaveOutcome, CmdError>)
        ensures
            !force && !confirmed ==> r == Ok::<SaveOutcome, CmdError>(SaveOutcome::Cancelled),
            (force || confirmed) && self@.backup_repo_path is None ==> r == Err::<
                SaveOutcome,
                CmdError,
            >(CmdError::NoRepoPath),
            (force || confirmed) && self@.backup_repo_path is Some ==> r == Ok::<
                SaveOutcome,
                CmdError,
            >(SaveOutcome::Proceed),
    {
        if !force && !confirmed {
            return Ok(SaveOutcome::Cancelled);
        }
        if self.backup_repo_path.is_none() {
            return Err(CmdError::NoRepoPath);
        }
        Ok(SaveOutcome::Proceed)
    }

    /// What `list` needs: the repository present, and then the one-line
    /// commit history of the backup repository.
    pub fn plan_list(&self) -> (r: Result<Vec<String>, CmdError>)
        ensures
            self@.backup_repo_path is None <==> r == Err::<Vec<String>, CmdError>(
                CmdError::NoRepoPath,
            ),
            self@.backup_repo_path is Some ==> (r matches Ok(args) && args.deep_view() == seq![
                "log"@,
                "--oneline"@,
            ]),
    {
        if self.backup_repo_path.is_none() {
            return Err(CmdError::NoRepoPath);
        }
        Ok(crate::gitplan::git_log_args())
    }
}

} // verus!
