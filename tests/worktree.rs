use ikanban::worktree::{CommandOutput, WorktreeError, WorktreeManager};

fn output(success: bool, stdout: &str, stderr: &str) -> CommandOutput {
    CommandOutput {
        success,
        stdout: stdout.to_string(),
        stderr: stderr.to_string(),
    }
}

#[test]
fn porcelain_listing_parses_every_record() {
    let text = "worktree /a\nHEAD deadbeef\nbranch refs/heads/main\n\nworktree /b\nHEAD cafef00d\nbranch refs/heads/feature/x";
    let manager = WorktreeManager::new();
    let list = manager.list_worktrees(&output(true, text, "")).unwrap();
    assert_eq!(list.len(), 2);
    assert_eq!(list[0].path, "/a");
    assert_eq!(list[0].branch, "main");
    assert_eq!(list[0].commit, "deadbeef");
    assert_eq!(list[1].path, "/b");
    assert_eq!(list[1].branch, "feature/x");
    assert_eq!(list[1].commit, "cafef00d");
}

#[test]
fn porcelain_listing_with_trailing_blank_line() {
    let text = "worktree /repo\r\nHEAD 0123\r\nbranch refs/heads/dev\r\n\r\n";
    let list = WorktreeManager::new().list_worktrees(&output(true, text, "")).unwrap();
    assert_eq!(list.len(), 1);
    assert_eq!(list[0].path, "/repo");
    assert_eq!(list[0].branch, "dev");
    assert_eq!(list[0].commit, "0123");
}

#[test]
fn porcelain_record_without_branch_is_skipped() {
    let text = "worktree /main\nHEAD aaaa\nbranch refs/heads/main\n\nworktree /detached\nHEAD bbbb\ndetached\n\n";
    let list = WorktreeManager::new().list_worktrees(&output(true, text, "")).unwrap();
    assert_eq!(list.len(), 1);
    assert_eq!(list[0].path, "/main");
}

#[test]
fn branch_outside_heads_is_kept_whole() {
    let text = "worktree /x\nHEAD 1\nbranch remotes/origin/x\n";
    let list = WorktreeManager::new().list_worktrees(&output(true, text, "")).unwrap();
    assert_eq!(list[0].branch, "remotes/origin/x");
}

#[test]
fn empty_listing_gives_no_worktrees() {
    let list = WorktreeManager::new().list_worktrees(&output(true, "", "")).unwrap();
    assert!(list.is_empty());
}

#[test]
fn failed_listing_reports_stderr() {
    let err = WorktreeManager::new()
        .list_worktrees(&output(false, "", "fatal: not a git repository"))
        .unwrap_err();
    match err {
        WorktreeError::Vcs(m) => assert_eq!(m, "fatal: not a git repository"),
        other => panic!("unexpected error {:?}", other),
    }
}

#[test]
fn create_command_targets_task_directory() {
    let manager = WorktreeManager::new();
    let cmd = manager
        .create_worktree("/tmp/proj", "T1", "task/T1", false)
        .unwrap();
    assert_eq!(cmd.dir, "/tmp/proj");
    assert_eq!(
        cmd.args,
        vec!["worktree", "add", "-b", "task/T1", "/tmp/proj/.worktrees/T1", "HEAD"]
    );
    assert_eq!(manager.worktree_path("/tmp/proj/", "T1"), "/tmp/proj/.worktrees/T1");
}

#[test]
fn create_refused_when_target_exists() {
    let err = WorktreeManager::new()
        .create_worktree("/tmp/proj", "T1", "task/T1", true)
        .unwrap_err();
    match err {
        WorktreeError::Busy(p) => assert_eq!(p, "/tmp/proj/.worktrees/T1"),
        other => panic!("unexpected error {:?}", other),
    }
}

#[test]
fn remove_runs_in_project_directory() {
    let manager = WorktreeManager::new();
    let cmd = manager
        .remove_worktree("/tmp/proj/.worktrees/T1", true)
        .unwrap()
        .unwrap();
    assert_eq!(cmd.dir, "/tmp/proj");
    assert_eq!(cmd.args, vec!["worktree", "remove", "/tmp/proj/.worktrees/T1"]);
}

#[test]
fn remove_of_missing_directory_is_a_no_op() {
    let manager = WorktreeManager::new();
    assert!(manager.remove_worktree("/tmp/proj/.worktrees/T1", false).unwrap().is_none());
}

#[test]
fn remove_without_project_directory_is_invalid() {
    let err = WorktreeManager::new().remove_worktree("T1", true).unwrap_err();
    assert!(matches!(err, WorktreeError::InvalidPath(_)));
}

#[test]
fn list_command_is_porcelain() {
    let cmd = WorktreeManager::new().list_command("/p");
    assert_eq!(cmd.dir, "/p");
    assert_eq!(cmd.args, vec!["worktree", "list", "--porcelain"]);
}
