//! Projects, tasks and the envelopes of the board API.
use vstd::prelude::*;

use crate::model::Timestamp;
use crate::text::{clone_opt, opt_view, same_text};

verus! {

/// Where a task stands on the board.
#[derive(Debug, Clone, Copy, PartialEq, Eq, Structural)]
pub enum TaskStatus {
    Todo,
    InProgress,
    InReview,
    Done,
}

pub open spec fn task_status_name(s: TaskStatus) -> Seq<char> {
    match s {
        TaskStatus::Todo => "todo"@,
        TaskStatus::InProgress => "inprogress"@,
        TaskStatus::InReview => "inreview"@,
        TaskStatus::Done => "done"@,
    }
}

impl TaskStatus {
    /// The lowercase name under which the status is stored and sent.
    pub fn as_str(&self) -> (r: &'static str)
        ensures
            r@ == task_status_name(*self),
    {
        match self {
            TaskStatus::Todo => "todo",
            TaskStatus::InProgress => "inprogress",
            TaskStatus::InReview => "inreview",
            TaskStatus::Done => "done",
        }
    }

    /// The status stored under `name`.
    pub fn parse(name: &str) -> (r: Option<TaskStatus>)
        ensures
            r matches Some(s) ==> task_status_name(s) == name@,
            r is None ==> forall|s: TaskStatus| task_status_name(s) != name@,
    {
        if same_text(name, "todo") {
            Some(TaskStatus::Todo)
        } else if same_text(name, "inprogress") {
            Some(TaskStatus::InProgress)
        } else if same_text(name, "inreview") {
            Some(TaskStatus::InReview)
        } else if same_text(name, "done") {
            Some(TaskStatus::Done)
        } else {
            None
        }
    }
}

impl Default for TaskStatus {
    fn default() -> (r: Self)
        ensures
            r == TaskStatus::Todo,
    {
        TaskStatus::Todo
    }
}

/// The fields a new project is created with.
#[derive(Debug, Clone)]
pub struct CreateProject {
    pub name: String,
    pub description: Option<String>,
}

/// A partial change of a project: a field left out keeps its value.
#[derive(Debug, Clone)]
pub struct UpdateProject {
    pub name: Option<String>,
    pub description: Option<String>,
}

/// The editable fields of a project.
#[derive(Debug, Clone)]
pub struct ProjectFields {
    pub name: String,
    pub description: Option<String>,
}

impl UpdateProject {
    /// `current` with this change applied.
    pub fn apply(&self, current: &ProjectFields) -> (r: ProjectFields)
        ensures
            r.name@ == match self.name {
                Some(n) => n@,
                None => current.name@,
            },
            opt_view(r.description) == match self.description {
                Some(d) => Some(d@),
                None => opt_view(current.description),
            },
    {
        let name = match &self.name {
            Some(n) => n.clone(),
            None => current.name.clone(),
        };
        let description = match &self.description {
            Some(d) => Some(d.clone()),
            None => clone_opt(&current.description),
        };
        ProjectFields { name, description }
    }
}

/// A partial change of a task: a field left out keeps its value.
#[derive(Debug, Clone)]
pub struct UpdateTask {
    pub title: Option<String>,
    pub description: Option<String>,
    pub status: Option<TaskStatus>,
}

/// The editable fields of a task.
#[derive(Debug, Clone)]
pub struct TaskFields {
    pub title: String,
    pub description: Option<String>,
    pub status: TaskStatus,
}

impl UpdateTask {
    /// `current` with this change applied.
    pub fn apply(&self, current: &TaskFields) -> (r: TaskFields)
        ensures
            r.title@ == match self.title {
                Some(t) => t@,
                None => current.title@,
            },
            opt_view(r.description) == match self.description {
                Some(d) => Some(d@),
                None => opt_view(current.description),
            },
            r.status == match self.status {
                Some(s) => s,
                None => current.status,
            },
    {
        let title = match &self.title {
            Some(t) => t.clone(),
            None => current.title.clone(),
        };
        let description = match &self.description {
            Some(d) => Some(d.clone()),
            None => clone_opt(&current.description),
        };
        let status = match self.status {
            Some(s) => s,
            None => current.status,
        };
        TaskFields { title, description, status }
    }
}

/// A project: a repository that tasks belong to.
#[derive(Debug, Clone)]
pub struct Project {
    pub id: String,
    pub name: String,
    pub description: Option<String>,
    pub created_at: Timestamp,
    pub updated_at: Timestamp,
}

impl Project {
    /// The record of a project created under `id` at `now`.
    pub fn create(id: String, payload: &CreateProject, now: Timestamp) -> (r: Project)
        ensures
            r.id@ == id@,
            r.name@ == payload.name@,
            opt_view(r.description) == opt_view(payload.description),
            r.created_at == now && r.updated_at == now,
    {
        Project {
            id,
            name: payload.name.clone(),
            description: clone_opt(&payload.description),
            created_at: now,
            updated_at: now,
        }
    }

    /// This record with `payload` applied at `now`.
    pub fn update(&self, payload: &UpdateProject, now: Timestamp) -> (r: Project)
        ensures
            r.id@ == self.id@,
            r.name@ == match payload.name {
                Some(n) => n@,
                None => self.name@,
            },
            opt_view(r.description) == match payload.description {
                Some(d) => Some(d@),
                None => opt_view(self.description),
            },
            r.created_at == self.created_at && r.updated_at == now,
    {
        let fields = payload.apply(
            &ProjectFields { name: self.name.clone(), description: clone_opt(&self.description) },
        );
        Project {
            id: self.id.clone(),
            name: fields.name,
            description: fields.description,
            created_at: self.created_at,
            updated_at: now,
        }
    }
}

/// The fields a new task is created with; the status defaults to `Todo`.
#[derive(Debug, Clone)]
pub struct CreateTask {
    pub project_id: String,
    pub title: String,
    pub description: Option<String>,
    pub status: Option<TaskStatus>,
}

/// Which project's tasks to list.
#[derive(Debug, Clone)]
pub struct TaskQuery {
    pub project_id: String,
}

/// A unit of work on the board.
#[derive(Debug, Clone)]
pub struct Task {
    pub id: String,
    pub project_id: String,
    pub title: String,
    pub description: Option<String>,
    pub status: TaskStatus,
    pub created_at: Timestamp,
    pub updated_at: Timestamp,
}

impl Task {
    /// The record of a task created under `id` at `now`.
    pub fn create(id: String, payload: &CreateTask, now: Timestamp) -> (r: Task)
        ensures
            r.id@ == id@,
            r.project_id@ == payload.project_id@,
            r.title@ == payload.title@,
            opt_view(r.description) == opt_view(payload.description),
            r.status == match payload.status {
                Some(s) => s,
                None => TaskStatus::Todo,
            },
            r.created_at == now && r.updated_at == now,
    {
        let status = match payload.status {
            Some(s) => s,
            None => TaskStatus::default(),
        };
        Task {
            id,
            project_id: payload.project_id.clone(),
            title: payload.title.clone(),
            description: clone_opt(&payload.description),
            status,
            created_at: now,
            updated_at: now,
        }
    }

    /// This record with `payload` applied at `now`.
    pub fn update(&self, payload: &UpdateTask, now: Timestamp) -> (r: Task)
        ensures
            r.id@ == self.id@,
            r.project_id@ == self.project_id@,
            r.title@ == match payload.title {
                Some(t) => t@,
                None => self.title@,
            },
            opt_view(r.description) == match payload.description {
                Some(d) => Some(d@),
                None => opt_view(self.description),
            },
            r.status == match payload.status {
                Some(s) => s,
                None => self.status,
            },
            r.created_at == self.created_at && r.updated_at == now,
    {
        let fields = payload.apply(
            &TaskFields {
                title: self.title.clone(),
                description: clone_opt(&self.description),
                status: self.status,
            },
        );
        Task {
            id: self.id.clone(),
            project_id: self.project_id.clone(),
            title: fields.title,
            description: fields.description,
            status: fields.status,
            created_at: self.created_at,
            updated_at: now,
        }
    }
}

/// A change of the board, as pushed to connected clients.
#[derive(Debug, Clone)]
pub enum WsEvent {
    ProjectCreated(Project),
    ProjectUpdated(Project),
    ProjectDeleted { id: String },
    TaskCreated(Task),
    TaskUpdated(Task),
    TaskDeleted { id: String },
    Connected,
    Ping,
    Pong,
}

/// The envelope of every API answer: data on success, a message on failure.
#[derive(Debug)]
pub struct ApiResponse<T> {
    pub success: bool,
    pub data: Option<T>,
    pub error: Option<String>,
}

impl<T> ApiResponse<T> {
    pub fn success(data: T) -> (r: Self)
        ensures
            r.success,
            r.data == Some(data),
            r.error is None,
    {
        ApiResponse { success: true, data: Some(data), error: None }
    }

    pub fn error(message: &str) -> (r: Self)
        ensures
            !r.success,
            r.data is None,
            r.error matches Some(m) && m@ == message@,
    {
        ApiResponse { success: false, data: None, error: Some(message.to_owned()) }
    }
}

/// How an agent run is configured.
#[derive(Debug, Clone)]
pub struct AgentConfig {
    pub prompt: String,
    pub model: Option<String>,
    pub max_turns: Option<u32>,
}

} // verus!
