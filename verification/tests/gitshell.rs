use fuxi::escalate::{escalation_allowed, sudo_copy_args, sudo_mkdir_args};
use fuxi::gitplan::{
    commit_message, git_add_args, git_log_args, git_pull_args, git_status_args, has_changes,
    plan_fetch, plan_push_after_status,
};
use fuxi::prompt::is_affirmative;

fn s(v: &[&str]) -> Vec<String> {
    v.iter().map(|x| x.to_string()).collect()
}

#[test]
fn blank_status_means_nothing_to_commit() {
    assert!(!has_changes(""));
    assert!(!has_changes("  \n\t\r\n"));
    assert!(has_changes(" M src/main.rs\n"));
    assert!(has_changes("?? new-file"));
}

#[test]
fn push_sequence_noops_on_a_clean_tree() {
    let r = plan_push_after_status("  \n", None, &"main".to_string());
    assert!(r.is_none());
}

#[test]
fn push_sequence_commits_with_the_default_message() {
    let p = plan_push_after_status(" M a\n", None, &"main".to_string()).expect("changes present");
    assert_eq!(
        p.commit_args,
        s(&["commit", "-m", "Automated backup commit"])
    );
    assert_eq!(p.push_args, s(&["push", "origin", "main"]));
}

#[test]
fn push_sequence_keeps_a_supplied_message() {
    let p = plan_push_after_status(" M a\n", Some("weekly state".to_string()), &"main".to_string())
        .expect("changes present");
    assert_eq!(p.commit_args, s(&["commit", "-m", "weekly state"]));
}

#[test]
fn commit_message_defaults_only_when_none_is_given() {
    assert_eq!(commit_message(None), "Automated backup commit");
    assert_eq!(commit_message(Some("mine".to_string())), "mine");
}

#[test]
fn staging_and_status_arguments_are_fixed() {
    assert_eq!(git_add_args(), s(&["add", "."]));
    assert_eq!(git_status_args(), s(&["status", "--porcelain"]));
    assert_eq!(git_log_args(), s(&["log", "--oneline"]));
    assert_eq!(git_pull_args(&"main".to_string()), s(&["pull", "origin", "main"]));
}

#[test]
fn fetch_of_a_commit_checks_that_commit_out() {
    let steps = plan_fetch(&"main".to_string(), Some(&"abc123".to_string()));
    assert_eq!(steps.len(), 2);
    assert_eq!(steps[0], s(&["fetch", "origin", "abc123"]));
    assert_eq!(steps[1], s(&["checkout", "abc123"]));
}

#[test]
fn fetch_of_a_branch_hard_resets_to_origin() {
    let steps = plan_fetch(&"main".to_string(), None);
    assert_eq!(steps.len(), 3);
    assert_eq!(steps[0], s(&["fetch", "origin", "main"]));
    assert_eq!(steps[1], s(&["checkout", "main"]));
    assert_eq!(steps[2], s(&["reset", "--hard", "origin/main"]));
}

#[test]
fn escalation_needs_unix_and_a_confirmation() {
    assert!(escalation_allowed(true, true));
    assert!(!escalation_allowed(true, false));
    assert!(!escalation_allowed(false, true));
    assert!(!escalation_allowed(false, false));
}

#[test]
fn elevated_helper_arguments_are_fixed() {
    assert_eq!(
        sudo_mkdir_args(&"/opt/backup".to_string()),
        s(&["mkdir", "-p", "/opt/backup"])
    );
    assert_eq!(
        sudo_copy_args(&"/etc/hosts".to_string(), &"/opt/backup/hosts".to_string()),
        s(&["cp", "-a", "/etc/hosts", "/opt/backup/hosts"])
    );
}

#[test]
fn short_and_long_yes_affirm_in_any_case() {
    assert!(is_affirmative("y"));
    assert!(is_affirmative("Y"));
    assert!(is_affirmative("yes"));
    assert!(is_affirmative("YES"));
    assert!(is_affirmative("Yes"));
    assert!(is_affirmative(" yes \n"));
    assert!(is_affirmative("y\n"));
}

#[test]
fn anything_else_declines() {
    assert!(!is_affirmative(""));
    assert!(!is_affirmative("   "));
    assert!(!is_affirmative("n"));
    assert!(!is_affirmative("no"));
    assert!(!is_affirmative("yess"));
    assert!(!is_affirmative("ye"));
    assert!(!is_affirmative("y e s"));
}
