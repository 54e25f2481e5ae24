use fuxi::config::FuxiConfig;
use fuxi::errors::CmdError;

fn with_profile(name: &str) -> FuxiConfig {
    let mut c = FuxiConfig::default();
    let r = c.profile_create(&name.to_string());
    assert!(r.created);
    assert!(r.now_selected);
    c
}

#[test]
fn default_config_has_main_branch_and_nothing_else() {
    let c = FuxiConfig::default();
    assert_eq!(c.git_branch, "main");
    assert!(c.platform.is_none());
    assert!(c.selected_profile.is_none());
    assert!(c.profiles.is_empty());
    assert!(c.last_backup_id.is_none());
    assert!(c.backup_repo_path.is_none());
    assert!(c.github_repo.is_none());
}

#[test]
fn first_profile_created_becomes_selected() {
    let c = with_profile("work");
    assert_eq!(c.selected_profile.as_deref(), Some("work"));
    assert_eq!(c.profiles.len(), 1);
    assert_eq!(c.profiles[0].name, "work");
    assert!(c.profiles[0].paths.is_empty());
}

#[test]
fn second_profile_does_not_steal_selection() {
    let mut c = with_profile("work");
    let r = c.profile_create(&"home".to_string());
    assert!(r.created);
    assert!(!r.now_selected);
    assert_eq!(c.selected_profile.as_deref(), Some("work"));
    assert_eq!(c.profiles.len(), 2);
}

#[test]
fn creating_an_existing_profile_changes_nothing_but_reports_it() {
    let mut c = with_profile("work");
    c.add_paths(&vec!["/etc/hosts".to_string()]).unwrap();
    let r = c.profile_create(&"work".to_string());
    assert!(!r.created);
    assert_eq!(c.profiles.len(), 1);
    assert_eq!(c.profiles[0].paths, vec!["/etc/hosts".to_string()]);
}

#[test]
fn select_switches_to_an_existing_profile() {
    let mut c = with_profile("work");
    c.profile_create(&"home".to_string());
    assert!(c.profile_select(&"home".to_string()));
    assert_eq!(c.selected_profile.as_deref(), Some("home"));
}

#[test]
fn select_of_a_missing_profile_changes_nothing() {
    let mut c = with_profile("work");
    assert!(!c.profile_select(&"absent".to_string()));
    assert_eq!(c.selected_profile.as_deref(), Some("work"));
}

#[test]
fn deleting_the_selected_profile_clears_the_selection() {
    let mut c = with_profile("work");
    assert!(c.profile_delete(&"work".to_string()));
    assert!(c.selected_profile.is_none());
    assert!(c.profiles.is_empty());
}

#[test]
fn deleting_another_profile_keeps_the_selection() {
    let mut c = with_profile("work");
    c.profile_create(&"home".to_string());
    assert!(c.profile_delete(&"home".to_string()));
    assert_eq!(c.selected_profile.as_deref(), Some("work"));
    assert_eq!(c.profiles.len(), 1);
}

#[test]
fn deleting_a_missing_profile_changes_nothing() {
    let mut c = with_profile("work");
    assert!(!c.profile_delete(&"absent".to_string()));
    assert_eq!(c.selected_profile.as_deref(), Some("work"));
    assert_eq!(c.profiles.len(), 1);
}

#[test]
fn adding_paths_keeps_insertion_order() {
    let mut c = with_profile("work");
    let r = c
        .add_paths(&vec!["/etc/hosts".to_string(), "/etc/fstab".to_string()])
        .unwrap();
    assert_eq!(r, vec![true, true]);
    assert_eq!(
        c.profiles[0].paths,
        vec!["/etc/hosts".to_string(), "/etc/fstab".to_string()]
    );
}

#[test]
fn adding_a_present_path_is_a_no_op_and_reports_it() {
    let mut c = with_profile("work");
    c.add_paths(&vec!["/etc/hosts".to_string()]).unwrap();
    let before = c.profiles[0].paths.clone();
    let r = c.add_paths(&vec!["/etc/hosts".to_string()]).unwrap();
    assert_eq!(r, vec![false]);
    assert_eq!(c.profiles[0].paths, before);
}

#[test]
fn add_without_a_selected_profile_fails_and_changes_nothing() {
    let mut c = FuxiConfig::default();
    let r = c.add_paths(&vec!["/etc/hosts".to_string()]);
    assert_eq!(r, Err(CmdError::NoProfileSelected));
    assert!(c.profiles.is_empty());
    assert!(c.selected_profile.is_none());
}

#[test]
fn removing_a_present_path_takes_it_out() {
    let mut c = with_profile("work");
    c.add_paths(&vec!["/etc/hosts".to_string(), "/etc/fstab".to_string()])
        .unwrap();
    let r = c.remove_paths(&vec!["/etc/hosts".to_string()]).unwrap();
    assert_eq!(r, vec![true]);
    assert_eq!(c.profiles[0].paths, vec!["/etc/fstab".to_string()]);
}

#[test]
fn removing_an_absent_path_is_a_no_op_and_reports_it() {
    let mut c = with_profile("work");
    c.add_paths(&vec!["/etc/hosts".to_string()]).unwrap();
    let before = c.profiles[0].paths.clone();
    let r = c.remove_paths(&vec!["/var/log".to_string()]).unwrap();
    assert_eq!(r, vec![false]);
    assert_eq!(c.profiles[0].paths, before);
}

#[test]
fn remove_without_a_selected_profile_fails_and_changes_nothing() {
    let mut c = FuxiConfig::default();
    let r = c.remove_paths(&vec!["/etc/hosts".to_string()]);
    assert_eq!(r, Err(CmdError::NoProfileSelected));
    assert!(c.profiles.is_empty());
}

#[test]
fn dangling_selection_is_treated_as_an_empty_path_list() {
    let mut c = FuxiConfig::default();
    c.selected_profile = Some("ghost".to_string());
    assert!(c.get_selected_profile_paths().is_empty());
}

#[test]
fn selected_paths_are_returned_as_registered() {
    let mut c = with_profile("work");
    c.add_paths(&vec!["/etc/hosts".to_string(), "/etc/fstab".to_string()])
        .unwrap();
    assert_eq!(
        c.get_selected_profile_paths(),
        vec!["/etc/hosts".to_string(), "/etc/fstab".to_string()]
    );
}

#[test]
fn update_last_backup_id_records_the_identifier() {
    let mut c = FuxiConfig::default();
    c.update_last_backup_id(&"backup_20240101_000000".to_string());
    assert_eq!(c.last_backup_id.as_deref(), Some("backup_20240101_000000"));
}
