//! Sessions, log entries and the order in which a session status may move.
use vstd::prelude::*;

use crate::text::{clone_opt, opt_view, same_text};

verus! {

/// An instant in UTC, in milliseconds since the Unix epoch.
pub type Timestamp = i64;

/// Where a session is in its life.
#[derive(Debug, Clone, Copy, PartialEq, Eq, Structural)]
pub enum SessionStatus {
    Starting,
    Running,
    Completed,
    Failed,
    Killed,
}

/// How far along its life a status lies; the three ends share the last rank.
pub open spec fn rank(s: SessionStatus) -> nat {
    match s {
        SessionStatus::Starting => 0,
        SessionStatus::Running => 1,
        _ => 2,
    }
}

pub open spec fn terminal(s: SessionStatus) -> bool {
    rank(s) == 2
}

/// `to` may be observed after `from`: the same status, or one further along.
/// The ends absorb: nothing follows one of them but itself.
pub open spec fn reachable(from: SessionStatus, to: SessionStatus) -> bool {
    from == to || rank(from) < rank(to)
}

impl SessionStatus {
    pub fn is_terminal(&self) -> (r: bool)
        ensures
            r == terminal(*self),
    {
        match self {
            SessionStatus::Starting | SessionStatus::Running => false,
            _ => true,
        }
    }

    /// Whether the store may move a session from `self` to `to`.
    pub fn can_become(&self, to: SessionStatus) -> (r: bool)
        ensures
            r == reachable(*self, to),
    {
        if *self == to {
            return true;
        }
        match (self, to) {
            (SessionStatus::Starting, SessionStatus::Starting) => false,
            (SessionStatus::Starting, _) => true,
            (SessionStatus::Running, SessionStatus::Starting) => false,
            (SessionStatus::Running, SessionStatus::Running) => false,
            (SessionStatus::Running, _) => true,
            _ => false,
        }
    }

    /// The lowercase name under which the status is persisted.
    pub fn as_str(&self) -> (r: &'static str)
        ensures
            r@ == status_name(*self),
    {
        match self {
            SessionStatus::Starting => "starting",
            SessionStatus::Running => "running",
            SessionStatus::Completed => "completed",
            SessionStatus::Failed => "failed",
            SessionStatus::Killed => "killed",
        }
    }

    /// The status persisted under `name`.
    pub fn parse(name: &str) -> (r: Option<SessionStatus>)
        ensures
            r matches Some(s) ==> status_name(s) == name@,
            r is None ==> forall|s: SessionStatus| status_name(s) != name@,
    {
        if same_text(name, "starting") {
            Some(SessionStatus::Starting)
        } else if same_text(name, "running") {
            Some(SessionStatus::Running)
        } else if same_text(name, "completed") {
            Some(SessionStatus::Completed)
        } else if same_text(name, "failed") {
            Some(SessionStatus::Failed)
        } else if same_text(name, "killed") {
            Some(SessionStatus::Killed)
        } else {
            None
        }
    }
}

pub open spec fn status_name(s: SessionStatus) -> Seq<char> {
    match s {
        SessionStatus::Starting => "starting"@,
        SessionStatus::Running => "running"@,
        SessionStatus::Completed => "completed"@,
        SessionStatus::Failed => "failed"@,
        SessionStatus::Killed => "killed"@,
    }
}

/// Statuses observed one after another, each reachable from the one before, never go
/// back, and after an end only that end is seen.
pub proof fn lemma_observed_statuses(obs: Seq<SessionStatus>)
    requires
        forall|i: int| 0 <= i < obs.len() - 1 ==> reachable(#[trigger] obs[i], obs[i + 1]),
    ensures
        forall|i: int, j: int| 0 <= i <= j < obs.len() ==> reachable(#[trigger] obs[i], #[trigger] obs[j]),
        forall|i: int, j: int|
            0 <= i <= j < obs.len() && terminal(#[trigger] obs[i]) ==> #[trigger] obs[j] == obs[i],
    decreases obs.len(),
{
    if obs.len() > 1 {
        let front = obs.drop_last();
        assert forall|i: int| 0 <= i < front.len() - 1 implies reachable(
            #[trigger] front[i],
            front[i + 1],
        ) by {
            assert(front[i] == obs[i] && front[i + 1] == obs[i + 1]);
        }
        lemma_observed_statuses(front);
        assert forall|i: int, j: int| 0 <= i <= j < obs.len() implies reachable(
            #[trigger] obs[i],
            #[trigger] obs[j],
        ) by {
            if j < obs.len() - 1 {
                assert(front[i] == obs[i] && front[j] == obs[j]);
            } else if i < j {
                assert(front[i] == obs[i] && front[j - 1] == obs[j - 1]);
                assert(reachable(obs[i], obs[j - 1]));
                assert(reachable(obs[j - 1], obs[j]));
            }
        }
    }
}

/// The kind of output a log entry records.
#[derive(Debug, Clone, Copy, PartialEq, Eq, Structural)]
pub enum LogType {
    Stdout,
    Stderr,
    Event,
}

impl LogType {
    pub fn as_str(&self) -> (r: &'static str)
        ensures
            r@ == match self {
                LogType::Stdout => "stdout"@,
                LogType::Stderr => "stderr"@,
                LogType::Event => "event"@,
            },
    {
        match self {
            LogType::Stdout => "stdout",
            LogType::Stderr => "stderr",
            LogType::Event => "event",
        }
    }
}

/// One execution attempt of an agent for a task.
#[derive(Debug, Clone)]
pub struct Session {
    pub id: String,
    pub task_id: String,
    pub worktree_path: Option<String>,
    pub branch_name: Option<String>,
    pub executor_type: String,
    pub status: SessionStatus,
    pub exit_code: Option<i32>,
    pub created_at: Timestamp,
    pub started_at: Option<Timestamp>,
    pub finished_at: Option<Timestamp>,
}

/// A session as plain values.
pub struct SessionRecord {
    pub id: Seq<char>,
    pub task_id: Seq<char>,
    pub worktree_path: Option<Seq<char>>,
    pub branch_name: Option<Seq<char>>,
    pub executor_type: Seq<char>,
    pub status: SessionStatus,
    pub exit_code: Option<i32>,
    pub created_at: Timestamp,
    pub started_at: Option<Timestamp>,
    pub finished_at: Option<Timestamp>,
}

impl SessionRecord {
    /// `finished_at` is set exactly when the status is an end.
    pub open spec fn consistent(&self) -> bool {
        self.finished_at is Some <==> terminal(self.status)
    }
}

impl View for Session {
    type V = SessionRecord;

    open spec fn view(&self) -> SessionRecord {
        SessionRecord {
            id: self.id@,
            task_id: self.task_id@,
            worktree_path: opt_view(self.worktree_path),
            branch_name: opt_view(self.branch_name),
            executor_type: self.executor_type@,
            status: self.status,
            exit_code: self.exit_code,
            created_at: self.created_at,
            started_at: self.started_at,
            finished_at: self.finished_at,
        }
    }
}

impl Session {
    /// An equal record.
    pub fn duplicate(&self) -> (r: Session)
        ensures
            r@ == self@,
    {
        Session {
            id: self.id.clone(),
            task_id: self.task_id.clone(),
            worktree_path: clone_opt(&self.worktree_path),
            branch_name: clone_opt(&self.branch_name),
            executor_type: self.executor_type.clone(),
            status: self.status,
            exit_code: self.exit_code,
            created_at: self.created_at,
            started_at: self.started_at,
            finished_at: self.finished_at,
        }
    }
}

/// One line of output recorded durably.
#[derive(Debug, Clone)]
pub struct LogEntry {
    pub id: String,
    pub session_id: String,
    pub timestamp: Timestamp,
    pub log_type: LogType,
    pub content: String,
}

/// A log entry as plain values.
pub struct LogRecord {
    pub id: Seq<char>,
    pub session_id: Seq<char>,
    pub timestamp: Timestamp,
    pub log_type: LogType,
    pub content: Seq<char>,
}

impl View for LogEntry {
    type V = LogRecord;

    open spec fn view(&self) -> LogRecord {
        LogRecord {
            id: self.id@,
            session_id: self.session_id@,
            timestamp: self.timestamp,
            log_type: self.log_type,
            content: self.content@,
        }
    }
}

impl LogEntry {
    pub fn duplicate(&self) -> (r: LogEntry)
        ensures
            r@ == self@,
    {
        LogEntry {
            id: self.id.clone(),
            session_id: self.session_id.clone(),
            timestamp: self.timestamp,
            log_type: self.log_type,
            content: self.content.clone(),
        }
    }
}

} // verus!
