use fuxi::commands::{make_backup_id, mirror_destination, InitOutcome, SaveOutcome};
use fuxi::commands::{fresh_backup_id, plan_init};
use fuxi::config::FuxiConfig;
use fuxi::errors::CmdError;
use fuxi::gitplan::git_init_args;

fn ready_config() -> FuxiConfig {
    let mut c = FuxiConfig::default();
    c.profile_create(&"work".to_string());
    c.add_paths(&vec!["/etc/hosts".to_string()]).unwrap();
    c.backup_repo_path = Some("/tmp/repo".to_string());
    c.github_repo = Some("alice/dotfiles".to_string());
    c
}

#[test]
fn init_records_repo_and_path_and_creates_the_repository() {
    let mut c = FuxiConfig::default();
    let r = plan_init(
        &mut c,
        &"alice/dotfiles".to_string(),
        &"/tmp/repo".to_string(),
        false,
        true,
    );
    assert_eq!(r, Ok(InitOutcome::Initialized { create_repo: true }));
    assert_eq!(c.backup_repo_path.as_deref(), Some("/tmp/repo"));
    assert_eq!(c.github_repo.as_deref(), Some("alice/dotfiles"));
    assert_eq!(git_init_args(), vec!["init".to_string()]);
}

#[test]
fn init_on_an_existing_path_skips_creation() {
    let mut c = FuxiConfig::default();
    let r = plan_init(
        &mut c,
        &"alice/dotfiles".to_string(),
        &"/tmp/repo".to_string(),
        true,
        true,
    );
    assert_eq!(r, Ok(InitOutcome::Initialized { create_repo: false }));
}

#[test]
fn init_with_an_empty_path_is_rejected_before_any_change() {
    let mut c = FuxiConfig::default();
    let r = plan_init(&mut c, &"alice/dotfiles".to_string(), &"".to_string(), false, true);
    assert_eq!(r, Err(CmdError::EmptyPathArg));
    assert!(c.backup_repo_path.is_none());
    assert!(c.github_repo.is_none());
}

#[test]
fn init_with_an_empty_repo_is_rejected_before_any_change() {
    let mut c = FuxiConfig::default();
    let r = plan_init(&mut c, &"".to_string(), &"/tmp/repo".to_string(), false, true);
    assert_eq!(r, Err(CmdError::EmptyRepoArg));
    assert!(c.backup_repo_path.is_none());
}

#[test]
fn init_declined_cancels_without_changes() {
    let mut c = FuxiConfig::default();
    let r = plan_init(
        &mut c,
        &"alice/dotfiles".to_string(),
        &"/tmp/repo".to_string(),
        false,
        false,
    );
    assert_eq!(r, Ok(InitOutcome::Cancelled));
    assert!(c.backup_repo_path.is_none());
}

#[test]
fn backup_mirrors_each_path_under_the_profile_and_hints_save() {
    let mut c = ready_config();
    let id = "backup_20240101_000000".to_string();
    let plan = c.plan_backup(&id, false).expect("backup should be planned");
    assert_eq!(plan.backup_id, id);
    assert_eq!(plan.copies.len(), 1);
    assert_eq!(plan.copies[0].source, "/etc/hosts");
    assert_eq!(plan.copies[0].destination, "/tmp/repo/work/hosts");
    assert!(!plan.copies[0].flatten_into_existing_dir);
    assert!(!plan.push);
    assert!(plan.hint_save);
    assert_eq!(c.last_backup_id.as_deref(), Some("backup_20240101_000000"));
}

#[test]
fn backup_with_push_skips_the_save_hint() {
    let mut c = ready_config();
    let plan = c
        .plan_backup(&"backup_20240101_000000".to_string(), true)
        .expect("backup should be planned");
    assert!(plan.push);
    assert!(!plan.hint_save);
}

#[test]
fn backup_without_a_repository_fails() {
    let mut c = ready_config();
    c.backup_repo_path = None;
    let r = c.plan_backup(&"backup_1".to_string(), false);
    assert!(matches!(r, Err(CmdError::NoRepoPath)));
    assert!(c.last_backup_id.is_none());
}

#[test]
fn backup_without_a_remote_fails() {
    let mut c = ready_config();
    c.github_repo = None;
    let r = c.plan_backup(&"backup_1".to_string(), false);
    assert!(matches!(r, Err(CmdError::NoGithubRepo)));
}

#[test]
fn backup_without_a_selected_profile_fails() {
    let mut c = ready_config();
    c.selected_profile = None;
    let r = c.plan_backup(&"backup_1".to_string(), false);
    assert!(matches!(r, Err(CmdError::NoProfileSelected)));
}

#[test]
fn backup_with_no_registered_paths_fails() {
    let mut c = ready_config();
    c.remove_paths(&vec!["/etc/hosts".to_string()]).unwrap();
    let r = c.plan_backup(&"backup_1".to_string(), false);
    assert!(matches!(r, Err(CmdError::NoPathsConfigured)));
}

#[test]
fn backup_of_a_path_without_a_normal_component_fails() {
    let mut c = ready_config();
    c.add_paths(&vec!["/".to_string()]).unwrap();
    let r = c.plan_backup(&"backup_1".to_string(), false);
    assert!(matches!(r, Err(CmdError::NoNormalComponent)));
    assert!(c.last_backup_id.is_none());
}

#[test]
fn apply_latest_without_a_recorded_backup_fails_without_changes() {
    let mut c = ready_config();
    assert!(c.last_backup_id.is_none());
    let before_paths = c.get_selected_profile_paths();
    let r = c.plan_apply(&"latest".to_string(), false);
    assert!(matches!(r, Err(CmdError::NoLastBackupId)));
    assert!(c.last_backup_id.is_none());
    assert_eq!(c.get_selected_profile_paths(), before_paths);
}

#[test]
fn apply_latest_resolves_to_the_recorded_identifier() {
    let mut c = ready_config();
    c.last_backup_id = Some("backup_20240101_000000".to_string());
    let plan = c.plan_apply(&"latest".to_string(), false).expect("apply should be planned");
    assert_eq!(plan.resolved_id, "backup_20240101_000000");
}

#[test]
fn apply_copies_the_mirror_back_onto_the_live_path() {
    let mut c = ready_config();
    let plan = c.plan_apply(&"backup_7".to_string(), false).expect("apply should be planned");
    assert_eq!(plan.resolved_id, "backup_7");
    assert_eq!(plan.copies.len(), 1);
    assert_eq!(plan.copies[0].source, "/tmp/repo/work/hosts");
    assert_eq!(plan.copies[0].destination, "/etc/hosts");
    assert!(plan.copies[0].flatten_into_existing_dir);
    assert_eq!(
        plan.pull_args,
        vec!["pull".to_string(), "origin".to_string(), "main".to_string()]
    );
    assert!(!plan.dryrun);
    assert_eq!(c.last_backup_id.as_deref(), Some("backup_7"));
}

#[test]
fn apply_without_a_repository_fails() {
    let mut c = ready_config();
    c.backup_repo_path = None;
    let r = c.plan_apply(&"backup_7".to_string(), false);
    assert!(matches!(r, Err(CmdError::NoRepoPath)));
}

#[test]
fn apply_with_no_registered_paths_fails() {
    let mut c = ready_config();
    c.remove_paths(&vec!["/etc/hosts".to_string()]).unwrap();
    let r = c.plan_apply(&"backup_7".to_string(), false);
    assert!(matches!(r, Err(CmdError::NoPathsConfigured)));
}

#[test]
fn save_declined_without_force_cancels() {
    let c = ready_config();
    assert_eq!(c.plan_save(false, false), Ok(SaveOutcome::Cancelled));
}

#[test]
fn save_confirmed_or_forced_proceeds() {
    let c = ready_config();
    assert_eq!(c.plan_save(false, true), Ok(SaveOutcome::Proceed));
    assert_eq!(c.plan_save(true, false), Ok(SaveOutcome::Proceed));
}

#[test]
fn save_without_a_repository_fails() {
    let c = FuxiConfig::default();
    assert_eq!(c.plan_save(true, false), Err(CmdError::NoRepoPath));
}

#[test]
fn list_needs_the_repository_and_reads_the_log() {
    let c = ready_config();
    assert_eq!(
        c.plan_list(),
        Ok(vec!["log".to_string(), "--oneline".to_string()])
    );
    assert_eq!(FuxiConfig::default().plan_list(), Err(CmdError::NoRepoPath));
}

#[test]
fn backup_id_is_the_prefixed_timestamp() {
    assert_eq!(
        make_backup_id(&"20240101_000000".to_string()),
        "backup_20240101_000000"
    );
}

#[test]
fn fresh_backup_id_carries_the_prefix() {
    let id = fresh_backup_id();
    assert!(id.starts_with("backup_"));
    assert!(id.len() > "backup_".len());
}

#[test]
fn mirror_destination_joins_repo_profile_and_component() {
    assert_eq!(
        mirror_destination(
            &"/tmp/repo".to_string(),
            &"work".to_string(),
            &"hosts".to_string()
        ),
        "/tmp/repo/work/hosts"
    );
}

#[test]
fn error_messages_name_the_missing_precondition() {
    assert_eq!(CmdError::NoProfileSelected.message(), "No profile selected");
    assert_eq!(
        CmdError::NoRepoPath.message(),
        "Backup repository path is not set. Please run 'fuxi init' first."
    );
    assert_eq!(
        CmdError::NoGithubRepo.message(),
        "GitHub repository is not set. Please run 'fuxi init' first."
    );
    assert_eq!(
        CmdError::NoPathsConfigured.message(),
        "No paths configured for the selected profile."
    );
    assert_eq!(CmdError::NoLastBackupId.message(), "No last backup ID is recorded.");
    assert_eq!(
        CmdError::EmptyRepoArg.message(),
        "Please provide a valid GitHub repository in the format username/repo-name."
    );
    assert_eq!(
        CmdError::EmptyPathArg.message(),
        "Please provide a valid path for the backup repository."
    );
    assert_eq!(
        CmdError::NoNormalComponent.message(),
        "Path has no normal component to back it up under."
    );
}
