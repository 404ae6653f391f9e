use ikanban::executor::StartupWatch;
use ikanban::log_store::LogMsg;
use ikanban::model::{LogType, SessionStatus};
use ikanban::supervisor::{SessionError, SessionManager, SpawnFailure};
use ikanban::worktree::{CommandOutput, WorktreeError};

fn ok_output() -> CommandOutput {
    CommandOutput {
        success: true,
        stdout: String::new(),
        stderr: String::new(),
    }
}

fn started(manager: &mut SessionManager, id: &str, task: &str, now: i64) {
    let plan = manager.prepare_session(task, "/tmp/proj", None, false).unwrap();
    manager
        .begin_session_with_id(id.to_string(), &plan, "direct", now)
        .unwrap();
    manager.attach(id, None, None).unwrap();
}

#[test]
fn test_session_manager_creation() {
    let manager = SessionManager::new();
    assert_eq!(manager.live_count(), 0);
}

#[test]
fn happy_path_runs_to_completion() {
    let mut manager = SessionManager::new();
    let plan = manager.prepare_session("T1", "/tmp/proj", None, false).unwrap();
    assert_eq!(plan.worktree_path, "/tmp/proj/.worktrees/T1");
    assert_eq!(plan.branch, "task/T1");
    assert_eq!(
        plan.command.args,
        vec!["worktree", "add", "-b", "task/T1", "/tmp/proj/.worktrees/T1", "HEAD"]
    );
    let session = manager.begin_session(&plan, "direct", &ok_output(), 100).unwrap();
    assert_eq!(session.status, SessionStatus::Running);
    assert_eq!(session.created_at, 100);
    assert_eq!(session.started_at, Some(100));
    assert_eq!(session.worktree_path.as_deref(), Some("/tmp/proj/.worktrees/T1"));
    let id = session.id.clone();
    manager.attach(&id, None, None).unwrap();
    let mut rx = manager.subscribe_logs(&id).unwrap();

    assert_eq!(manager.record_output(&id, LogType::Stdout, "hi".to_string(), 101).unwrap(), true);
    let done = manager.finish_session(&id, Some(0), 102).unwrap();
    assert_eq!(done.status, SessionStatus::Completed);
    assert_eq!(done.exit_code, Some(0));

    assert!(matches!(rx.try_recv().unwrap(), LogMsg::Stdout(ref s) if s == "hi"));
    assert!(matches!(rx.try_recv().unwrap(), LogMsg::Finished));
    assert!(rx.try_recv().is_err());

    let stored = manager.get_session(&id).unwrap();
    assert_eq!(stored.status, SessionStatus::Completed);
    assert_eq!(stored.exit_code, Some(0));
    assert_eq!(stored.finished_at, Some(102));
    let logs = manager.get_logs(&id);
    assert_eq!(logs.len(), 1);
    assert_eq!(logs[0].content, "hi");
    assert_eq!(logs[0].log_type, LogType::Stdout);
}

#[test]
fn creation_fails_when_the_vcs_refuses() {
    let mut manager = SessionManager::new();
    let plan = manager.prepare_session("T1", "/tmp/proj", Some("feature/x"), false).unwrap();
    assert_eq!(plan.branch, "feature/x");
    let out = CommandOutput {
        success: false,
        stdout: String::new(),
        stderr: "fatal: a branch named 'feature/x' already exists".to_string(),
    };
    match manager.begin_session(&plan, "direct", &out, 5) {
        Err(SessionError::WorktreeCreationFailed(WorktreeError::Vcs(m))) => {
            assert_eq!(m, "fatal: a branch named 'feature/x' already exists")
        }
        other => panic!("unexpected {:?}", other.map(|s| s.id)),
    }
    assert!(manager.list_sessions("T1").is_empty());
}

#[test]
fn busy_worktree_fails_creation() {
    let manager = SessionManager::new();
    assert!(matches!(
        manager.prepare_session("T1", "/tmp/proj", None, true),
        Err(SessionError::WorktreeCreationFailed(WorktreeError::Busy(_)))
    ));
}

#[test]
fn cancel_kills_and_finishes_once() {
    let mut manager = SessionManager::new();
    started(&mut manager, "s1", "T1", 10);
    let mut rx = manager.subscribe_logs("s1").unwrap();
    let action = manager.stop_session("s1", 11).unwrap();
    assert!(action.child.is_none());
    let s = manager.get_session("s1").unwrap();
    assert_eq!(s.status, SessionStatus::Killed);
    assert_eq!(s.finished_at, Some(11));
    assert!(matches!(rx.try_recv().unwrap(), LogMsg::Finished));

    // A second stop is a successful no-op.
    manager.stop_session("s1", 12).unwrap();
    let again = manager.get_session("s1").unwrap();
    assert_eq!(again.status, SessionStatus::Killed);
    assert_eq!(again.finished_at, Some(11));
    assert!(rx.try_recv().is_err());

    // Output and exit after the stop change nothing.
    assert_eq!(manager.record_output("s1", LogType::Stdout, "late".to_string(), 13).unwrap(), false);
    assert_eq!(manager.finish_session("s1", Some(0), 14).unwrap().status, SessionStatus::Killed);
    assert!(manager.get_logs("s1").is_empty());
}

#[test]
fn stop_of_unknown_session_is_not_found() {
    let mut manager = SessionManager::new();
    assert!(matches!(
        manager.stop_session("nope", 1),
        Err(SessionError::SessionNotFound(_))
    ));
}

#[test]
fn spawn_failure_marks_the_session_failed() {
    let mut manager = SessionManager::new();
    let plan = manager.prepare_session("T2", "/tmp/proj", None, false).unwrap();
    manager
        .begin_session_with_id("s2".to_string(), &plan, "opencode", 20)
        .unwrap();
    let err = manager.spawn_failed("s2", SpawnFailure::Launch("no such binary".to_string()), 21);
    assert!(matches!(err, SessionError::SpawnFailed(ref m) if m == "no such binary"));
    let s = manager.get_session("s2").unwrap();
    assert_eq!(s.status, SessionStatus::Failed);
    assert_eq!(s.finished_at, Some(21));
    assert!(!manager.is_live("s2"));
    assert!(matches!(manager.attach("s2", None, None), Err(SessionError::SessionNotRunning(_))));
}

#[test]
fn daemon_startup_timeout_is_surfaced() {
    let mut watch = StartupWatch::new();
    assert!(watch.observe("booting".to_string()).is_none());
    let message = watch.timed_out();
    assert_eq!(
        message,
        "Timed out waiting for OpenCode server to print listening URL.\nServer output tail:\nbooting"
    );
    let mut manager = SessionManager::new();
    let plan = manager.prepare_session("T3", "/tmp/proj", None, false).unwrap();
    manager
        .begin_session_with_id("s3".to_string(), &plan, "opencode", 30)
        .unwrap();
    let err = manager.spawn_failed("s3", SpawnFailure::StartupTimeout(message.clone()), 210);
    assert!(matches!(err, SessionError::ExecutorStartupTimeout(ref m) if *m == message));
    assert_eq!(manager.get_session("s3").unwrap().status, SessionStatus::Failed);
}

#[test]
fn two_subscribers_see_the_same_feed() {
    let mut manager = SessionManager::new();
    started(&mut manager, "s4", "T4", 40);
    let mut a = manager.subscribe_logs("s4").unwrap();
    let mut b = manager.subscribe_logs("s4").unwrap();
    manager.record_output("s4", LogType::Stdout, "one".to_string(), 41).unwrap();
    manager.record_output("s4", LogType::Stderr, "two".to_string(), 42).unwrap();
    manager.record_output("s4", LogType::Stdout, "three".to_string(), 43).unwrap();
    manager.finish_session("s4", Some(0), 44).unwrap();
    let mut seen_a = Vec::new();
    while let Ok(m) = a.try_recv() {
        seen_a.push(format!("{:?}", m));
    }
    let mut seen_b = Vec::new();
    while let Ok(m) = b.try_recv() {
        seen_b.push(format!("{:?}", m));
    }
    assert_eq!(seen_a.len(), 4);
    assert_eq!(seen_a, seen_b);
    assert_eq!(seen_a[3], "Finished");
    assert!(matches!(manager.subscribe_logs("s4"), Err(SessionError::SessionNotRunning(_))));
}

#[test]
fn finished_session_is_terminal_in_the_store() {
    let mut manager = SessionManager::new();
    started(&mut manager, "s5", "T5", 50);
    let mut rx = manager.subscribe_logs("s5").unwrap();
    manager.finish_session("s5", Some(3), 51).unwrap();
    assert!(matches!(rx.try_recv().unwrap(), LogMsg::Finished));
    let s = manager.get_session("s5").unwrap();
    assert!(s.status.is_terminal());
    assert_eq!(s.exit_code, Some(3));
}

#[test]
fn create_stop_cleanup_round_trip() {
    let mut manager = SessionManager::new();
    started(&mut manager, "s6", "T6", 60);
    assert!(matches!(
        manager.cleanup_session("s6", false, true),
        Err(SessionError::SessionStillRunning(_))
    ));
    manager.stop_session("s6", 61).unwrap();
    let plan = manager.cleanup_session("s6", true, true).unwrap();
    let remove = plan.remove.unwrap();
    assert_eq!(remove.dir, "/tmp/proj");
    assert_eq!(remove.args, vec!["worktree", "remove", "/tmp/proj/.worktrees/T6"]);
    let delete = plan.delete_branch.unwrap();
    assert_eq!(delete.args, vec!["branch", "-D", "task/T6"]);
    manager.complete_cleanup("s6", Ok(())).unwrap();
    assert!(!manager.is_live("s6"));
    assert_eq!(manager.get_session("s6").unwrap().status, SessionStatus::Killed);
    assert_eq!(manager.live_count(), 0);
}

#[test]
fn failed_removal_keeps_the_session_live() {
    let mut manager = SessionManager::new();
    started(&mut manager, "s7", "T7", 70);
    manager.stop_session("s7", 71).unwrap();
    let plan = manager.cleanup_session("s7", false, true).unwrap();
    assert!(plan.delete_branch.is_none());
    let err = manager
        .complete_cleanup("s7", Err(WorktreeError::Vcs("dirty".to_string())))
        .unwrap_err();
    assert!(matches!(err, SessionError::CleanupFailed(WorktreeError::Vcs(_))));
    assert!(manager.is_live("s7"));
}

#[test]
fn cleanup_of_missing_directory_needs_no_vcs() {
    let mut manager = SessionManager::new();
    started(&mut manager, "s8", "T8", 80);
    manager.stop_session("s8", 81).unwrap();
    let plan = manager.cleanup_session("s8", false, false).unwrap();
    assert!(plan.remove.is_none());
    assert!(matches!(
        manager.cleanup_session("other", false, false),
        Err(SessionError::SessionNotFound(_))
    ));
}

#[test]
fn a_session_is_attached_once() {
    let mut manager = SessionManager::new();
    started(&mut manager, "s9", "T9", 90);
    assert!(matches!(manager.attach("s9", None, None), Err(SessionError::SessionStillRunning(_))));
    assert_eq!(manager.live_count(), 1);
    assert!(matches!(manager.attach("none", None, None), Err(SessionError::SessionNotFound(_))));
}

#[test]
fn duplicate_id_fails_to_persist() {
    let mut manager = SessionManager::new();
    let plan = manager.prepare_session("T1", "/tmp/proj", None, false).unwrap();
    manager.begin_session_with_id("dup".to_string(), &plan, "x", 1).unwrap();
    assert!(matches!(
        manager.begin_session_with_id("dup".to_string(), &plan, "x", 2),
        Err(SessionError::PersistFailed(_))
    ));
}

#[test]
fn logs_come_back_in_timestamp_order_per_stream() {
    let mut manager = SessionManager::new();
    started(&mut manager, "s10", "T10", 100);
    manager.record_output("s10", LogType::Stdout, "b".to_string(), 105).unwrap();
    manager.record_output("s10", LogType::Stderr, "e".to_string(), 103).unwrap();
    manager.record_output("s10", LogType::Stdout, "a".to_string(), 102).unwrap();
    manager.record_output("s10", LogType::Stdout, "c".to_string(), 105).unwrap();
    let logs = manager.get_logs("s10");
    let stamps: Vec<i64> = logs.iter().map(|e| e.timestamp).collect();
    assert_eq!(stamps, vec![102, 103, 105, 105]);
    let stdout: Vec<&str> = logs
        .iter()
        .filter(|e| e.log_type == LogType::Stdout)
        .map(|e| e.content.as_str())
        .collect();
    assert_eq!(stdout, vec!["a", "b", "c"]);
    let buffered = manager.buffered_logs("s10").unwrap();
    assert_eq!(buffered.len(), 4);
}

#[test]
fn sessions_of_a_task_come_newest_first() {
    let mut manager = SessionManager::new();
    let plan = manager.prepare_session("T1", "/p", None, false).unwrap();
    manager.begin_session_with_id("old".to_string(), &plan, "x", 1).unwrap();
    manager.begin_session_with_id("new".to_string(), &plan, "x", 9).unwrap();
    manager.begin_session_with_id("mid".to_string(), &plan, "x", 5).unwrap();
    let other = manager.prepare_session("T2", "/p", None, false).unwrap();
    manager.begin_session_with_id("elsewhere".to_string(), &other, "x", 7).unwrap();
    let ids: Vec<String> = manager.list_sessions("T1").into_iter().map(|s| s.id).collect();
    assert_eq!(ids, vec!["new", "mid", "old"]);
}

#[test]
fn statuses_only_move_forward() {
    let mut manager = SessionManager::new();
    started(&mut manager, "s11", "T11", 1);
    let mut seen = vec![manager.get_session("s11").unwrap().status];
    manager.finish_session("s11", Some(0), 2).unwrap();
    seen.push(manager.get_session("s11").unwrap().status);
    manager.stop_session("s11", 3).unwrap();
    seen.push(manager.get_session("s11").unwrap().status);
    assert_eq!(
        seen,
        vec![SessionStatus::Running, SessionStatus::Completed, SessionStatus::Completed]
    );
}

#[test]
fn execution_env_exports_the_task() {
    let env = SessionManager::execution_env("T1", "/tmp/proj");
    assert_eq!(env.repo_paths, vec!["/tmp/proj".to_string()]);
    assert_eq!(env.env_vars, vec![("TASK_ID".to_string(), "T1".to_string())]);
}

#[test]
fn saved_entries_are_listed() {
    let mut manager = SessionManager::new();
    manager.save_log_entry("sx", LogType::Event, "started", 3).unwrap();
    manager.save_log_entry("sx", LogType::Event, "again", 4).unwrap();
    let logs = manager.get_logs("sx");
    assert_eq!(logs.len(), 2);
    assert_eq!(logs[0].log_type, LogType::Event);
    assert_eq!(logs[0].timestamp, 3);
    assert!(!logs[0].id.is_empty());
    assert_ne!(logs[0].id, logs[1].id);
}

#[test]
fn crashed_pump_fails_the_session() {
    let mut manager = SessionManager::new();
    started(&mut manager, "s12", "T12", 1);
    let mut rx = manager.subscribe_logs("s12").unwrap();
    let s = manager.pump_crashed("s12", "boom", 2).unwrap();
    assert_eq!(s.status, SessionStatus::Failed);
    assert!(matches!(rx.try_recv().unwrap(), LogMsg::Event(ref m) if m == "pump crashed: boom"));
    assert!(matches!(rx.try_recv().unwrap(), LogMsg::Finished));
    let logs = manager.get_logs("s12");
    assert_eq!(logs.len(), 1);
    assert_eq!(logs[0].log_type, LogType::Event);
    assert!(matches!(manager.pump_crashed("none", "x", 3), Err(SessionError::SessionNotRunning(_))));
    assert_eq!(manager.fail_session("s12", 4).unwrap().finished_at, Some(2));
}

#[test]
fn stop_hands_back_the_interrupt_once() {
    let mut manager = SessionManager::new();
    let plan = manager.prepare_session("T13", "/tmp/proj", None, false).unwrap();
    manager.begin_session_with_id("s13".to_string(), &plan, "x", 1).unwrap();
    let (tx, mut rx) = tokio::sync::mpsc::channel::<()>(1);
    manager.attach("s13", None, Some(tx)).unwrap();
    let action = manager.stop_session("s13", 2).unwrap();
    let interrupt = action.interrupt.expect("interrupt handed back");
    interrupt.try_send(()).unwrap();
    assert!(rx.try_recv().is_ok());
    let again = manager.stop_session("s13", 3).unwrap();
    assert!(again.interrupt.is_none());
    assert!(again.child.is_none());
}

#[test]
fn cleanup_failure_carries_the_vcs_error() {
    let mut manager = SessionManager::new();
    started(&mut manager, "s14", "T14", 1);
    manager.stop_session("s14", 2).unwrap();
    match manager.complete_cleanup("s14", Err(WorktreeError::Vcs("contains modified files".to_string()))) {
        Err(SessionError::CleanupFailed(WorktreeError::Vcs(m))) => assert_eq!(m, "contains modified files"),
        other => panic!("unexpected {:?}", other),
    }
    assert_eq!(manager.get_session("s14").unwrap().status, SessionStatus::Killed);
}
