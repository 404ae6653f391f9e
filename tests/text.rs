use ikanban::model::SessionStatus;
use ikanban::tasks::{
    ApiResponse, CreateProject, CreateTask, Project, ProjectFields, Task, TaskFields, TaskStatus,
    UpdateProject, UpdateTask,
};
use ikanban::text::{join_lines, same_text, split_lines, strip_prefix, trim};

#[test]
fn trim_drops_unicode_white_space() {
    assert_eq!(trim("  a b \t\n"), "a b");
    assert_eq!(trim("\u{3000}x\u{a0}"), "x");
    assert_eq!(trim("   "), "");
    assert_eq!(trim(""), "");
}

#[test]
fn lines_split_like_str_lines() {
    for text in ["a\nb", "a\r\nb\n", "\n\nx", "", "x\r", "one"] {
        let expected: Vec<String> = text.lines().map(|l| l.to_string()).collect();
        assert_eq!(split_lines(text), expected, "input {:?}", text);
    }
}

#[test]
fn prefix_and_join() {
    assert_eq!(strip_prefix("HEAD abc", "HEAD "), Some("abc".to_string()));
    assert_eq!(strip_prefix("HEA", "HEAD "), None);
    assert_eq!(join_lines(&vec!["a".to_string(), "b".to_string()]), "a\nb");
    assert_eq!(join_lines(&vec![]), "");
    assert!(same_text("x", "x"));
    assert!(!same_text("x", "xy"));
}

#[test]
fn session_status_names_round_trip() {
    for s in [
        SessionStatus::Starting,
        SessionStatus::Running,
        SessionStatus::Completed,
        SessionStatus::Failed,
        SessionStatus::Killed,
    ] {
        assert_eq!(SessionStatus::parse(s.as_str()), Some(s));
    }
    assert_eq!(SessionStatus::Killed.as_str(), "killed");
    assert_eq!(SessionStatus::parse("Running"), None);
    assert!(SessionStatus::Running.can_become(SessionStatus::Killed));
    assert!(!SessionStatus::Completed.can_become(SessionStatus::Running));
    assert!(!SessionStatus::Killed.can_become(SessionStatus::Failed));
    assert!(SessionStatus::Starting.can_become(SessionStatus::Failed));
}

#[test]
fn task_status_names_and_default() {
    assert_eq!(TaskStatus::default(), TaskStatus::Todo);
    assert_eq!(TaskStatus::InProgress.as_str(), "inprogress");
    assert_eq!(TaskStatus::parse("done"), Some(TaskStatus::Done));
    assert_eq!(TaskStatus::parse("later"), None);
}

#[test]
fn updates_keep_unset_fields() {
    let current = TaskFields {
        title: "Old".to_string(),
        description: Some("desc".to_string()),
        status: TaskStatus::Todo,
    };
    let change = UpdateTask {
        title: None,
        description: None,
        status: Some(TaskStatus::Done),
    };
    let next = change.apply(&current);
    assert_eq!(next.title, "Old");
    assert_eq!(next.description.as_deref(), Some("desc"));
    assert_eq!(next.status, TaskStatus::Done);
    let project = ProjectFields { name: "p".to_string(), description: None };
    let renamed = UpdateProject { name: Some("q".to_string()), description: None }.apply(&project);
    assert_eq!(renamed.name, "q");
    assert_eq!(renamed.description, None);
}

#[test]
fn api_envelopes() {
    let ok = ApiResponse::success(5);
    assert!(ok.success);
    assert_eq!(ok.data, Some(5));
    assert_eq!(ok.error, None);
    let err: ApiResponse<i32> = ApiResponse::error("bad");
    assert!(!err.success);
    assert_eq!(err.error.as_deref(), Some("bad"));
}

#[test]
fn task_records_created_and_updated() {
    let task = Task::create(
        "t1".to_string(),
        &CreateTask {
            project_id: "p1".to_string(),
            title: "Write".to_string(),
            description: None,
            status: None,
        },
        10,
    );
    assert_eq!(task.status, TaskStatus::Todo);
    assert_eq!((task.created_at, task.updated_at), (10, 10));
    let moved = task.update(
        &UpdateTask { title: None, description: Some("d".to_string()), status: Some(TaskStatus::InReview) },
        20,
    );
    assert_eq!(moved.title, "Write");
    assert_eq!(moved.description.as_deref(), Some("d"));
    assert_eq!(moved.status, TaskStatus::InReview);
    assert_eq!((moved.created_at, moved.updated_at), (10, 20));
    let project = Project::create(
        "p1".to_string(),
        &CreateProject { name: "Kanban".to_string(), description: Some("x".to_string()) },
        1,
    );
    let renamed = project.update(&UpdateProject { name: Some("Board".to_string()), description: None }, 2);
    assert_eq!(renamed.name, "Board");
    assert_eq!(renamed.description.as_deref(), Some("x"));
    assert_eq!(renamed.updated_at, 2);
}
