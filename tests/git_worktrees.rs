use ikanban::worktree::{CommandOutput, WorktreeManager};

fn listing(entries: &[(&str, &str, &str)]) -> CommandOutput {
    let mut text = String::new();
    for (path, head, branch) in entries {
        text.push_str(&format!("worktree {}\nHEAD {}\nbranch refs/heads/{}\n\n", path, head, branch));
    }
    CommandOutput {
        success: true,
        stdout: text,
        stderr: String::new(),
    }
}

#[test]
fn test_create_and_remove_worktree() {
    let manager = WorktreeManager::new();
    let repo = "/tmp/repo";

    let create = manager
        .create_worktree(repo, "task-123", "feature/test-branch", false)
        .unwrap();
    let worktree_path = manager.worktree_path(repo, "task-123");
    assert_eq!(worktree_path, "/tmp/repo/.worktrees/task-123");
    assert_eq!(create.dir, repo);
    assert_eq!(
        create.args,
        vec!["worktree", "add", "-b", "feature/test-branch", "/tmp/repo/.worktrees/task-123", "HEAD"]
    );

    let remove = manager.remove_worktree(&worktree_path, true).unwrap().unwrap();
    assert_eq!(remove.dir, repo);
    assert_eq!(remove.args, vec!["worktree", "remove", "/tmp/repo/.worktrees/task-123"]);
    assert!(manager.remove_worktree(&worktree_path, false).unwrap().is_none());
}

#[test]
fn test_list_worktrees() {
    let manager = WorktreeManager::new();
    let main = ("/tmp/repo", "1111", "main");

    let worktrees = manager.list_worktrees(&listing(&[main])).unwrap();
    assert_eq!(worktrees.len(), 1);

    let first = manager.worktree_path("/tmp/repo", "task-1");
    let second = manager.worktree_path("/tmp/repo", "task-2");
    let worktrees = manager
        .list_worktrees(&listing(&[
            main,
            (&first, "1111", "feature/task-1"),
            (&second, "1111", "feature/task-2"),
        ]))
        .unwrap();
    assert_eq!(worktrees.len(), 3);
    assert_eq!(worktrees[1].branch, "feature/task-1");
    assert_eq!(worktrees[2].path, "/tmp/repo/.worktrees/task-2");
}
