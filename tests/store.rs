use ikanban::model::{LogEntry, LogType, Session, SessionStatus};
use ikanban::store::{SessionStore, StoreError};

fn session(id: &str, task: &str, at: i64) -> Session {
    Session {
        id: id.to_string(),
        task_id: task.to_string(),
        worktree_path: None,
        branch_name: None,
        executor_type: "x".to_string(),
        status: SessionStatus::Running,
        exit_code: None,
        created_at: at,
        started_at: Some(at),
        finished_at: None,
    }
}

#[test]
fn duplicate_and_missing_ids() {
    let mut store = SessionStore::new();
    store.insert_session(session("a", "t", 1)).unwrap();
    assert!(matches!(store.insert_session(session("a", "t", 2)), Err(StoreError::Duplicate(ref id)) if id == "a"));
    assert!(matches!(store.get_session("b"), Err(StoreError::NotFound(ref id)) if id == "b"));
    assert!(matches!(
        store.update_session_status("b", SessionStatus::Killed, None, Some(3)),
        Err(StoreError::NotFound(_))
    ));
    assert_eq!(store.get_session("a").unwrap().created_at, 1);
}

#[test]
fn status_never_moves_backwards() {
    let mut store = SessionStore::new();
    store.insert_session(session("a", "t", 1)).unwrap();
    assert_eq!(store.update_session_status("a", SessionStatus::Completed, Some(0), Some(5)).unwrap(), true);
    assert_eq!(store.update_session_status("a", SessionStatus::Running, None, None).unwrap(), false);
    assert_eq!(store.update_session_status("a", SessionStatus::Killed, None, Some(6)).unwrap(), false);
    let s = store.get_session("a").unwrap();
    assert_eq!(s.status, SessionStatus::Completed);
    assert_eq!(s.exit_code, Some(0));
    assert_eq!(s.finished_at, Some(5));
}

#[test]
fn logs_listed_per_session_in_time_order() {
    let mut store = SessionStore::new();
    for (id, sid, ts) in [("1", "a", 5), ("2", "b", 1), ("3", "a", 2), ("4", "a", 5)] {
        store
            .insert_log_entry(LogEntry {
                id: id.to_string(),
                session_id: sid.to_string(),
                timestamp: ts,
                log_type: LogType::Stdout,
                content: id.to_string(),
            })
            .unwrap();
    }
    let ids: Vec<String> = store.list_logs("a").into_iter().map(|e| e.id).collect();
    assert_eq!(ids, vec!["3", "1", "4"]);
    let ids: Vec<String> = store
        .list_sessions_by_task("none")
        .into_iter()
        .map(|s| s.id)
        .collect();
    assert!(ids.is_empty());
}

#[test]
fn a_log_id_is_used_once() {
    let mut store = SessionStore::new();
    let entry = |content: &str| LogEntry {
        id: "same".to_string(),
        session_id: "a".to_string(),
        timestamp: 1,
        log_type: LogType::Stderr,
        content: content.to_string(),
    };
    store.insert_log_entry(entry("first")).unwrap();
    assert!(matches!(store.insert_log_entry(entry("second")), Err(StoreError::Duplicate(ref id)) if id == "same"));
    let logs = store.list_logs("a");
    assert_eq!(logs.len(), 1);
    assert_eq!(logs[0].content, "first");
}
