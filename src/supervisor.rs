//! The session supervisor: live sessions, their creation, output, end, stop and cleanup.
use vstd::prelude::*;
use vstd::string::*;

use tokio::process::Child;
use tokio::sync::broadcast;
use tokio::sync::mpsc;

use crate::keyed::{
    by_key, has_key, keys_unique, lemma_by_key_absent, lemma_by_key_at, lemma_by_key_push,
    lemma_by_key_remove, lemma_by_key_update, Keyed,
};
use crate::log_store::{bounded, finished_count, lemma_finished_is_last, LogMsg, MsgStore};
use crate::model::{
    reachable, terminal, LogEntry, LogRecord, LogType, Session, SessionRecord, SessionStatus,
    Timestamp,
};
use crate::store::{
    has_log_id, lemma_stream_order, logs_of, logs_sorted, newest_first, stream_of, with_status, SessionStore,
};
use crate::worktree::{
    create_args, project_of, remove_args, views, worktree_location, CommandOutput, VcsCommand,
    WorktreeError, WorktreeManager,
};

verus! {

/// tokio's `process::Child`, carried opaquely: the agent process a live session holds.
#[verifier::external_type_specification]
#[verifier::external_body]
pub struct ExChild(Child);

/// tokio's `mpsc::Sender`, carried opaquely: the cooperative interrupt of an agent.
#[verifier::external_type_specification]
#[verifier::external_body]
#[verifier::reject_recursive_types(T)]
pub struct ExMpscSender<T>(mpsc::Sender<T>);

/// Relies on uuid's `Uuid::new_v4`, written out in its hyphenated form: a fresh random id.
#[verifier::external_body]
fn fresh_id() -> (r: String) {
    uuid::Uuid::new_v4().to_string()
}

/// Why a supervisor operation failed.
#[derive(Debug)]
pub enum SessionError {
    WorktreeCreationFailed(WorktreeError),
    SpawnFailed(String),
    ExecutorStartupTimeout(String),
    SessionNotFound(String),
    SessionStillRunning(String),
    SessionNotRunning(String),
    PersistFailed(String),
    CleanupFailed(WorktreeError),
}

/// How an adapter failed to start an agent.
#[derive(Debug, Clone)]
pub enum SpawnFailure {
    /// The child could not be launched; the adapter's message.
    Launch(String),
    /// A daemon never announced where it listens; the adapter's message.
    StartupTimeout(String),
}

/// What creating a session asks of the VCS before anything is recorded.
#[derive(Debug, Clone)]
pub struct SessionPlan {
    pub task_id: String,
    pub project_path: String,
    pub branch: String,
    pub worktree_path: String,
    pub command: VcsCommand,
}

/// What tearing down a session asks of the VCS.
#[derive(Debug, Clone)]
pub struct CleanupPlan {
    /// Detaches the worktree; none when there is nothing on disk.
    pub remove: Option<VcsCommand>,
    /// Deletes the session's branch; only when asked for.
    pub delete_branch: Option<VcsCommand>,
}

/// What stopping a live session hands back: the cooperative interrupt to signal, then
/// the child to kill once the grace window has passed.
pub struct StopAction {
    pub interrupt: Option<mpsc::Sender<()>>,
    pub child: Option<Child>,
}

/// A session the supervisor is following: its record, its output feed, and the handles
/// of its agent until it is stopped.
struct LiveSession {
    session: Session,
    msg_store: MsgStore,
    child: Option<Child>,
    interrupt: Option<mpsc::Sender<()>>,
}

/// A live session as plain values.
pub struct LiveView {
    pub record: SessionRecord,
    pub history: Seq<LogMsg>,
    pub buffered: Seq<LogMsg>,
    pub bound: nat,
    pub finished: bool,
    pub has_child: bool,
    pub has_interrupt: bool,
}

impl LiveSession {
    spec fn view_of(&self) -> LiveView {
        LiveView {
            record: self.session@,
            history: self.msg_store.history(),
            buffered: self.msg_store.buffered(),
            bound: self.msg_store.bound(),
            finished: self.msg_store.is_finished(),
            has_child: self.child is Some,
            has_interrupt: self.interrupt is Some,
        }
    }
}

/// The default branch of a task: `task/<task_id>`.
pub open spec fn default_branch(task_id: Seq<char>) -> Seq<char> {
    "task/"@ + task_id
}

/// The record a session starts with.
pub open spec fn running_record(
    id: Seq<char>,
    task_id: Seq<char>,
    worktree_path: Seq<char>,
    branch: Seq<char>,
    executor_type: Seq<char>,
    now: Timestamp,
) -> SessionRecord {
    SessionRecord {
        id,
        task_id,
        worktree_path: Some(worktree_path),
        branch_name: Some(branch),
        executor_type,
        status: SessionStatus::Running,
        exit_code: None,
        created_at: now,
        started_at: Some(now),
        finished_at: None,
    }
}

/// No stored session lost, and none moved backwards.
pub open spec fn advances(
    before: Map<Seq<char>, SessionRecord>,
    after: Map<Seq<char>, SessionRecord>,
) -> bool {
    forall|id: Seq<char>| #[trigger]
        before.contains_key(id) ==> after.contains_key(id) && reachable(
            before[id].status,
            after[id].status,
        )
}

/// The message a pump forwards for a line of the given kind.
pub open spec fn carries(m: LogMsg, kind: LogType, text: Seq<char>) -> bool {
    match kind {
        LogType::Stdout => m matches LogMsg::Stdout(s) && s@ == text,
        LogType::Stderr => m matches LogMsg::Stderr(s) && s@ == text,
        LogType::Event => m matches LogMsg::Event(s) && s@ == text,
    }
}

/// A live session once it has reached the end `rec` and broadcast the terminal marker.
/// A stop hands back the child and the interrupt (`child_kept` false); an exit keeps them.
pub open spec fn ended(v: LiveView, rec: SessionRecord, child_kept: bool) -> LiveView {
    LiveView {
        record: rec,
        history: v.history.push(LogMsg::Finished),
        buffered: bounded(v.buffered.push(LogMsg::Finished), v.bound),
        bound: v.bound,
        finished: true,
        has_child: v.has_child && child_kept,
        has_interrupt: v.has_interrupt && child_kept,
    }
}

/// The supervisor: the live sessions by id, over the session store and the worktree provider.
pub struct SessionManager {
    store: SessionStore,
    worktree_manager: WorktreeManager,
    sessions: Vec<LiveSession>,
}

impl SessionManager {
    pub closed spec fn live_seq(&self) -> Keyed<LiveView> {
        self.sessions@.map_values(|l: LiveSession| (l.session.id@, l.view_of()))
    }

    /// The live sessions by id.
    pub open spec fn live(&self) -> Map<Seq<char>, LiveView> {
        by_key(self.live_seq())
    }

    /// The stored sessions by id.
    pub closed spec fn stored(&self) -> Map<Seq<char>, SessionRecord> {
        self.store.records()
    }

    /// The stored log entries, in timestamp order.
    pub closed spec fn logged(&self) -> Seq<LogRecord> {
        self.store.log_list()
    }

    spec fn entry_ok(&self, l: LiveSession) -> bool {
        &&& l.msg_store.wf()
        &&& self.store.records().contains_key(l.session.id@)
        &&& self.store.records()[l.session.id@] == l.session@
        &&& l.msg_store.is_finished() == terminal(l.session.status)
        &&& l.session@.consistent()
    }

    pub closed spec fn wf(&self) -> bool {
        &&& self.store.wf()
        &&& forall|k: Seq<char>| #[trigger]
            self.store.records().contains_key(k) ==> self.store.records()[k].consistent()
        &&& keys_unique(self.live_seq())
        &&& forall|i: int| 0 <= i < self.sessions@.len() ==> self.entry_ok(#[trigger] self.sessions@[i])
    }

    /// What the supervisor promises of every live session at rest.
    pub open spec fn coherent(&self) -> bool {
        forall|id: Seq<char>| #[trigger]
            self.live().contains_key(id) ==> {
                let v = self.live()[id];
                &&& self.stored().contains_key(id)
                &&& self.stored()[id] == v.record
                &&& v.record.id == id
                &&& v.finished == terminal(v.record.status)
                &&& v.record.consistent()
                &&& v.finished ==> v.history.len() > 0 && v.history.last() is Finished
                &&& finished_count(v.history) == if v.finished {
                    1nat
                } else {
                    0nat
                }
            }
    }

    proof fn lemma_view_at(&self, i: int)
        requires
            0 <= i < self.sessions@.len(),
            keys_unique(self.live_seq()),
        ensures
            self.live().contains_key(self.sessions@[i].session.id@),
            self.live()[self.sessions@[i].session.id@] == self.sessions@[i].view_of(),
    {
        assert(self.live_seq()[i] == (self.sessions@[i].session.id@, self.sessions@[i].view_of()));
        lemma_by_key_at(self.live_seq(), i);
    }

    pub proof fn lemma_coherent(&self)
        requires
            self.wf(),
        ensures
            self.coherent(),
    {
        assert forall|id: Seq<char>| #[trigger] self.live().contains_key(id) implies {
            let v = self.live()[id];
            &&& self.stored().contains_key(id)
            &&& self.stored()[id] == v.record
            &&& v.record.id == id
            &&& v.finished == terminal(v.record.status)
            &&& v.record.consistent()
            &&& v.finished ==> v.history.len() > 0 && v.history.last() is Finished
            &&& finished_count(v.history) == if v.finished {
                1nat
            } else {
                0nat
            }
        } by {
            let i = choose|i: int| 0 <= i < self.live_seq().len() && (#[trigger] self.live_seq()[i]).0 == id;
            self.lemma_view_at(i);
            assert(self.entry_ok(self.sessions@[i]));
            lemma_finished_is_last(&self.sessions@[i].msg_store);
        }
    }

    fn find_live(&self, id: &str) -> (r: Option<usize>)
        requires
            keys_unique(self.live_seq()),
        ensures
            r is None <==> !self.live().contains_key(id@),
            r matches Some(i) ==> i < self.sessions@.len() && self.sessions@[i as int].session.id@ == id@,
    {
        let mut i: usize = 0;
        while i < self.sessions.len()
            invariant
                keys_unique(self.live_seq()),
                i <= self.sessions@.len(),
                forall|k: int| 0 <= k < i ==> (#[trigger] self.live_seq()[k]).0 != id@,
            decreases self.sessions@.len() - i,
        {
            assert(self.live_seq()[i as int].0 == self.sessions@[i as int].session.id@);
            if crate::text::same_text(self.sessions[i].session.id.as_str(), id) {
                proof {
                    self.lemma_view_at(i as int);
                }
                return Some(i);
            }
            i += 1;
        }
        proof {
            lemma_by_key_absent(self.live_seq(), id@);
        }
        None
    }

    pub fn new() -> (r: Self)
        ensures
            r.wf(),
            r.live() == Map::<Seq<char>, LiveView>::empty(),
            r.stored() == Map::<Seq<char>, SessionRecord>::empty(),
            r.logged() == Seq::<LogRecord>::empty(),
    {
        let r = SessionManager {
            store: SessionStore::new(),
            worktree_manager: WorktreeManager::new(),
            sessions: Vec::new(),
        };
        assert(r.live_seq() =~= Seq::<(Seq<char>, LiveView)>::empty());
        assert(r.live() =~= Map::<Seq<char>, LiveView>::empty());
        r
    }

    /// How many sessions are live.
    pub fn live_count(&self) -> (r: usize)
        requires
            self.wf(),
        ensures
            r == self.live().len(),
    {
        proof {
            self.lemma_live_len();
        }
        self.sessions.len()
    }

    proof fn lemma_live_len(&self)
        requires
            self.wf(),
        ensures
            self.live().len() == self.sessions@.len(),
        decreases self.sessions@.len(),
    {
        let s = self.live_seq();
        let ks = s.map_values(|p: (Seq<char>, LiveView)| p.0);
        assert forall|k: Seq<char>| self.live().dom().contains(k) <==> ks.to_set().contains(k) by {
            if has_key(s, k) {
                let i = choose|i: int| 0 <= i < s.len() && (#[trigger] s[i]).0 == k;
                assert(ks[i] == k);
            }
            if ks.contains(k) {
                let i = choose|i: int| 0 <= i < ks.len() && ks[i] == k;
                assert(s[i].0 == k);
            }
        }
        assert(self.live().dom() =~= ks.to_set());
        assert forall|i: int, j: int| 0 <= i < ks.len() && 0 <= j < ks.len() && i != j implies ks[i]
            != ks[j] by {
            assert(ks[i] == s[i].0 && ks[j] == s[j].0);
        }
        ks.unique_seq_to_set();
    }

    /// Whether `id` is live.
    pub fn is_live(&self, id: &str) -> (r: bool)
        requires
            self.wf(),
        ensures
            r == self.live().contains_key(id@),
    {
        self.find_live(id).is_some()
    }

    /// Step one of creating a session: its branch (`task/<task_id>` unless one is given),
    /// its worktree, and the VCS call that makes it; refused when the worktree exists.
    pub fn prepare_session(
        &self,
        task_id: &str,
        project_path: &str,
        branch_name: Option<&str>,
        target_exists: bool,
    ) -> (r: Result<SessionPlan, SessionError>)
        ensures
            target_exists <==> r.is_err(),
            r matches Err(e) ==> (e matches SessionError::WorktreeCreationFailed(
                WorktreeError::Busy(p),
            ) && p@ == worktree_location(project_path@, task_id@)),
            r matches Ok(p) ==> {
                let branch = match branch_name {
                    Some(b) => b@,
                    None => default_branch(task_id@),
                };
                &&& p.task_id@ == task_id@
                &&& p.project_path@ == project_path@
                &&& p.branch@ == branch
                &&& p.worktree_path@ == worktree_location(project_path@, task_id@)
                &&& p.command.dir@ == project_path@
                &&& views(p.command.args@) == create_args(
                    branch,
                    worktree_location(project_path@, task_id@),
                )
            },
    {
        let branch = match branch_name {
            Some(b) => b.to_owned(),
            None => {
                let mut b = String::from_str("task/");
                b.append(task_id);
                b
            },
        };
        match self.worktree_manager.create_worktree(
            project_path,
            task_id,
            branch.as_str(),
            target_exists,
        ) {
            Err(e) => Err(SessionError::WorktreeCreationFailed(e)),
            Ok(command) => Ok(
                SessionPlan {
                    task_id: task_id.to_owned(),
                    project_path: project_path.to_owned(),
                    branch,
                    worktree_path: self.worktree_manager.worktree_path(project_path, task_id),
                    command,
                },
            ),
        }
    }

    /// The effect of recording a new session under `id`.
    pub open spec fn begin_effect(
        before: &SessionManager,
        after: &SessionManager,
        id: Seq<char>,
        rec: SessionRecord,
        ok: bool,
    ) -> bool {
        &&& ok <==> !before.stored().contains_key(id)
        &&& ok ==> after.stored() == before.stored().insert(id, rec)
        &&& !ok ==> after.stored() == before.stored()
        &&& after.live() == before.live()
        &&& after.logged() == before.logged()
    }

    /// Step two of creating a session, once the VCS made the worktree: the session is
    /// recorded as running under `id`. A taken id fails to persist.
    pub fn begin_session_with_id(
        &mut self,
        id: String,
        plan: &SessionPlan,
        executor_type: &str,
        now: Timestamp,
    ) -> (r: Result<Session, SessionError>)
        requires
            old(self).wf(),
        ensures
            final(self).wf(),
            Self::begin_effect(
                old(self),
                final(self),
                id@,
                running_record(
                    id@,
                    plan.task_id@,
                    plan.worktree_path@,
                    plan.branch@,
                    executor_type@,
                    now,
                ),
                r.is_ok(),
            ),
            r matches Err(e) ==> (e matches SessionError::PersistFailed(m) && m@ == id@),
            r matches Ok(s) ==> s@ == running_record(
                id@,
                plan.task_id@,
                plan.worktree_path@,
                plan.branch@,
                executor_type@,
                now,
            ),
            advances(old(self).stored(), final(self).stored()),
    {
        let session = Session {
            id: id.clone(),
            task_id: plan.task_id.clone(),
            worktree_path: Some(plan.worktree_path.clone()),
            branch_name: Some(plan.branch.clone()),
            executor_type: executor_type.to_owned(),
            status: SessionStatus::Running,
            exit_code: None,
            created_at: now,
            started_at: Some(now),
            finished_at: None,
        };
        let copy = session.duplicate();
        let ghost before = self.store.records();
        match self.store.insert_session(session) {
            Err(_) => Err(SessionError::PersistFailed(id)),
            Ok(()) => {
                proof {
                    assert forall|i: int| 0 <= i < self.sessions@.len() implies self.entry_ok(
                        #[trigger] self.sessions@[i],
                    ) by {
                        let l = self.sessions@[i];
                        assert(old(self).entry_ok(l));
                    }
                    assert forall|k: Seq<char>| #[trigger]
                        before.contains_key(k) implies self.store.records().contains_key(k)
                        && reachable(before[k].status, self.store.records()[k].status) by {}
                }
                Ok(copy)
            },
        }
    }

    /// Step two of creating a session, once the VCS reported on the worktree: a failed
    /// VCS call fails the creation with nothing recorded; else the session is recorded
    /// as running under a fresh id.
    pub fn begin_session(
        &mut self,
        plan: &SessionPlan,
        executor_type: &str,
        vcs: &CommandOutput,
        now: Timestamp,
    ) -> (r: Result<Session, SessionError>)
        requires
            old(self).wf(),
        ensures
            final(self).wf(),
            !vcs.success ==> (r matches Err(e) && e matches SessionError::WorktreeCreationFailed(
                WorktreeError::Vcs(m),
            ) && m@ == vcs.stderr@),
            !vcs.success ==> final(self).stored() == old(self).stored(),
            vcs.success ==> (r is Ok || (r matches Err(e) && e matches SessionError::PersistFailed(m)
                && old(self).stored().contains_key(m@))),
            r matches Ok(s) ==> s@ == running_record(
                s.id@,
                plan.task_id@,
                plan.worktree_path@,
                plan.branch@,
                executor_type@,
                now,
            ) && !old(self).stored().contains_key(s.id@) && final(self).stored()
                == old(self).stored().insert(s.id@, s@),
            r.is_err() ==> final(self).stored() == old(self).stored(),
            final(self).live() == old(self).live(),
            final(self).logged() == old(self).logged(),
            advances(old(self).stored(), final(self).stored()),
    {
        if !vcs.success {
            return Err(
                SessionError::WorktreeCreationFailed(WorktreeError::Vcs(vcs.stderr.clone())),
            );
        }
        let id = fresh_id();
        self.begin_session_with_id(id, plan, executor_type, now)
    }

    /// The environment an agent runs with: the project as its repository and `TASK_ID`.
    pub fn execution_env(task_id: &str, project_path: &str) -> (r: crate::executor::ExecutionEnv)
        ensures
            views(r.repo_paths@) == seq![project_path@],
            r.env_vars@.len() == 1,
            r.env_vars@[0].0@ == "TASK_ID"@ && r.env_vars@[0].1@ == task_id@,
    {
        let base = crate::executor::ExecutionEnv::new().with_repo_path(project_path.to_owned());
        assert(views(base.repo_paths@) =~= seq![project_path@]);
        assert(crate::executor::pair_views(base.env_vars@) =~= Seq::empty());
        let r = base.with_env_var(String::from_str("TASK_ID"), task_id.to_owned());
        assert(crate::executor::pair_views(r.env_vars@) =~= seq![("TASK_ID"@, task_id@)]);
        assert(crate::executor::pair_views(r.env_vars@)[0] == (r.env_vars@[0].0@, r.env_vars@[0].1@));
        r
    }

    /// Records that the adapter could not start the agent of `id`: the session ends
    /// `Failed`, and the error to surface comes back.
    pub fn spawn_failed(&mut self, id: &str, failure: SpawnFailure, now: Timestamp) -> (r:
        SessionError)
        requires
            old(self).wf(),
        ensures
            final(self).wf(),
            !old(self).stored().contains_key(id@) ==> (r matches SessionError::SessionNotFound(m)
                && m@ == id@ && final(self).stored() == old(self).stored()),
            old(self).stored().contains_key(id@) ==> match failure {
                SpawnFailure::Launch(m) => r matches SessionError::SpawnFailed(x) && x@ == m@,
                SpawnFailure::StartupTimeout(m) => r matches SessionError::ExecutorStartupTimeout(x)
                    && x@ == m@,
            },
            old(self).stored().contains_key(id@) && !terminal(old(self).stored()[id@].status)
                && !old(self).live().contains_key(id@) ==> final(self).stored()
                == old(self).stored().insert(
                id@,
                with_status(old(self).stored()[id@], SessionStatus::Failed, None, Some(now)),
            ),
            old(self).stored().contains_key(id@) && (terminal(old(self).stored()[id@].status)
                || old(self).live().contains_key(id@)) ==> final(self).stored() == old(
                self,
            ).stored(),
            final(self).live() == old(self).live(),
            final(self).logged() == old(self).logged(),
            advances(old(self).stored(), final(self).stored()),
    {
        let found = self.store.get_session(id);
        match found {
            Err(_) => {
                return SessionError::SessionNotFound(id.to_owned());
            },
            Ok(s) => {
                if !s.status.is_terminal() && self.find_live(id).is_none() {
                    let ghost before = self.store.records();
                    let _ = self.store.update_session_status(
                        id,
                        SessionStatus::Failed,
                        None,
                        Some(now),
                    );
                    proof {
                        assert forall|i: int| 0 <= i < self.sessions@.len() implies self.entry_ok(
                            #[trigger] self.sessions@[i],
                        ) by {
                            let l = self.sessions@[i];
                            assert(old(self).entry_ok(l));
                            old(self).lemma_view_at(i);
                        }
                        assert forall|k: Seq<char>| #[trigger]
                            before.contains_key(k) implies self.store.records().contains_key(k)
                            && reachable(before[k].status, self.store.records()[k].status) by {}
                    }
                }
            },
        }
        match failure {
            SpawnFailure::Launch(m) => SessionError::SpawnFailed(m),
            SpawnFailure::StartupTimeout(m) => SessionError::ExecutorStartupTimeout(m),
        }
    }

    /// The sessions stored, oldest first.
    pub closed spec fn stored_list(&self) -> Seq<SessionRecord> {
        self.store.session_list()
    }

    /// How many entries the live map holds.
    pub closed spec fn entry_count(&self) -> nat {
        self.sessions@.len()
    }

    /// The id under which the `i`-th entry of the live map is held.
    pub closed spec fn entry_id(&self, i: int) -> Seq<char> {
        self.sessions@[i].session.id@
    }

    /// A session that just became live.
    pub open spec fn fresh_live(rec: SessionRecord, has_child: bool, has_interrupt: bool) -> LiveView {
        LiveView {
            record: rec,
            history: Seq::empty(),
            buffered: Seq::empty(),
            bound: crate::log_store::DEFAULT_STORE_CAPACITY as nat,
            finished: false,
            has_child,
            has_interrupt,
        }
    }

    proof fn lemma_replace_entry(
        before: &SessionManager,
        after: &SessionManager,
        i: int,
        l: LiveSession,
    )
        requires
            before.wf(),
            0 <= i < before.sessions@.len(),
            after.sessions@ == before.sessions@.update(i, l),
            l.session.id@ == before.sessions@[i].session.id@,
            after.store.wf(),
            after.store.records() == before.store.records().insert(l.session.id@, l.session@),
            after.entry_ok(l),
        ensures
            after.wf(),
            after.live() == before.live().insert(l.session.id@, l.view_of()),
    {
        let id = l.session.id@;
        assert(after.live_seq() =~= before.live_seq().update(i, (id, l.view_of())));
        assert(before.live_seq()[i].0 == id);
        lemma_by_key_update(before.live_seq(), i, l.view_of());
        assert forall|j: int| 0 <= j < after.sessions@.len() implies after.entry_ok(
            #[trigger] after.sessions@[j],
        ) by {
            if j != i {
                let e = before.sessions@[j];
                assert(before.entry_ok(e));
                assert(before.live_seq()[j].0 == e.session.id@);
                assert(e.session.id@ != id);
                assert(after.sessions@[j] == e);
            }
        }
    }

    /// Registers the agent of a recorded, running session as live, with a fresh output
    /// feed. Refused when the session is unknown, already live, or already over.
    pub fn attach(&mut self, id: &str, child: Option<Child>, interrupt: Option<mpsc::Sender<()>>) -> (r:
        Result<(), SessionError>)
        requires
            old(self).wf(),
        ensures
            final(self).wf(),
            final(self).stored() == old(self).stored(),
            final(self).logged() == old(self).logged(),
            !old(self).stored().contains_key(id@) ==> (r matches Err(e) && e matches SessionError::SessionNotFound(m) && m@ == id@),
            old(self).stored().contains_key(id@) && old(self).live().contains_key(id@) ==> (r matches Err(e) && e matches SessionError::SessionStillRunning(m) && m@ == id@),
            old(self).stored().contains_key(id@) && !old(self).live().contains_key(id@) && terminal(old(self).stored()[id@].status) ==> (r matches Err(e) && e matches SessionError::SessionNotRunning(m) && m@ == id@),
            r.is_ok() <==> old(self).stored().contains_key(id@) && !old(self).live().contains_key(id@) && !terminal(old(self).stored()[id@].status),
            r.is_ok() ==> final(self).live() == old(self).live().insert(id@, Self::fresh_live(old(self).stored()[id@], child is Some, interrupt is Some)),
            r.is_err() ==> final(self).live() == old(self).live(),
    {
        let session = match self.store.get_session(id) {
            Err(_) => {
                return Err(SessionError::SessionNotFound(id.to_owned()));
            },
            Ok(s) => s,
        };
        if self.find_live(id).is_some() {
            return Err(SessionError::SessionStillRunning(id.to_owned()));
        }
        if session.status.is_terminal() {
            return Err(SessionError::SessionNotRunning(id.to_owned()));
        }
        let ghost has_child = child is Some;
        let ghost has_interrupt = interrupt is Some;
        let l = LiveSession { session, msg_store: MsgStore::new(), child, interrupt };
        let ghost before = self.live_seq();
        let ghost v = l.view_of();
        self.sessions.push(l);
        proof {
            assert(self.live_seq() =~= before.push((id@, v)));
            lemma_by_key_push(before, id@, v);
            assert(v == Self::fresh_live(old(self).stored()[id@], has_child, has_interrupt));
            assert forall|j: int| 0 <= j < self.sessions@.len() implies self.entry_ok(
                #[trigger] self.sessions@[j],
            ) by {
                if j < old(self).sessions@.len() {
                    assert(old(self).entry_ok(old(self).sessions@[j]));
                    assert(self.sessions@[j] == old(self).sessions@[j]);
                } else {
                    assert(self.sessions@[j].session@ == old(self).stored()[id@]);
                }
            }
        }
        Ok(())
    }

    /// The effect of a pump forwarding one line of output of `id`.
    pub open spec fn output_effect(
        before: &SessionManager,
        after: &SessionManager,
        id: Seq<char>,
        kind: LogType,
        text: Seq<char>,
        now: Timestamp,
    ) -> bool {
        let v = before.live()[id];
        &&& after.stored() == before.stored()
        &&& exists|m: LogMsg|
            carries(m, kind, text) && after.live() == before.live().insert(
                id,
                LiveView {
                    history: v.history.push(m),
                    buffered: bounded(v.buffered.push(m), v.bound),
                    ..v
                },
            )
        &&& exists|pos: int, rec: LogRecord|
            0 <= pos <= before.logged().len() && rec.session_id == id && rec.timestamp == now
                && rec.log_type == kind && rec.content == text && after.logged()
                == before.logged().insert(pos, rec)
    }

    /// One line of output of `id`: broadcast on its feed and recorded as a log entry.
    /// Nothing is taken once the feed has finished; a session that is not live is refused.
    pub fn record_output(&mut self, id: &str, log_type: LogType, line: String, now: Timestamp) -> (r:
        Result<bool, SessionError>)
        requires
            old(self).wf(),
        ensures
            final(self).wf(),
            !old(self).live().contains_key(id@) ==> (r matches Err(e) && e matches SessionError::SessionNotRunning(m) && m@ == id@),
            old(self).live().contains_key(id@) && old(self).live()[id@].finished ==> r == Ok::<bool, SessionError>(false),
            old(self).live().contains_key(id@) && !old(self).live()[id@].finished ==> (r == Ok::<bool, SessionError>(true)
                || (r matches Err(e) && e matches SessionError::PersistFailed(m) && has_log_id(old(self).logged(), m@))),
            r matches Ok(true) ==> Self::output_effect(old(self), final(self), id@, log_type, line@, now),
            !(r matches Ok(true)) ==> final(self).stored() == old(self).stored() && final(self).live() == old(self).live() && final(self).logged() == old(self).logged(),
            advances(old(self).stored(), final(self).stored()),
    {
        let i = match self.find_live(id) {
            None => {
                return Err(SessionError::SessionNotRunning(id.to_owned()));
            },
            Some(i) => i,
        };
        proof {
            self.lemma_view_at(i as int);
        }
        if self.sessions[i].msg_store.finished() {
            return Ok(false);
        }
        let msg = match log_type {
            LogType::Stdout => LogMsg::Stdout(line.clone()),
            LogType::Stderr => LogMsg::Stderr(line.clone()),
            LogType::Event => LogMsg::Event(line.clone()),
        };
        let ghost m = msg;
        let entry = LogEntry {
            id: fresh_id(),
            session_id: id.to_owned(),
            timestamp: now,
            log_type,
            content: line,
        };
        let ghost rec = entry@;
        let ghost old_logs = self.store.log_list();
        let entry_id = entry.id.clone();
        if self.store.insert_log_entry(entry).is_err() {
            return Err(SessionError::PersistFailed(entry_id));
        }
        let mut l = self.sessions.remove(i);
        proof {
            assert(old(self).entry_ok(l));
        }
        l.msg_store.push(msg);
        let ghost lid = l.session.id@;
        self.sessions.insert(i, l);
        proof {
            assert(self.sessions@ =~= old(self).sessions@.update(i as int, l));
            assert(self.store.records() =~= old(self).store.records().insert(lid, l.session@));
            Self::lemma_replace_entry(old(self), self, i as int, l);
            assert(carries(m, log_type, line@));
            let pos = choose|pos: int|
                0 <= pos <= old_logs.len() && (forall|k: int|
                    0 <= k < pos ==> (#[trigger] old_logs[k]).timestamp <= rec.timestamp) && (forall|
                    k: int,
                |
                    pos <= k < old_logs.len() ==> (#[trigger] old_logs[k]).timestamp > rec.timestamp)
                    && self.store.log_list() == old_logs.insert(pos, rec);
            assert(0 <= pos <= old(self).logged().len() && rec.session_id == id@ && rec.timestamp
                == now && rec.log_type == log_type && rec.content == line@ && self.logged()
                == old(self).logged().insert(pos, rec));
            assert(self.live() == old(self).live().insert(
                id@,
                LiveView {
                    history: old(self).live()[id@].history.push(m),
                    buffered: bounded(old(self).live()[id@].buffered.push(m), old(self).live()[id@].bound),
                    ..old(self).live()[id@]
                },
            ));
            assert forall|k: Seq<char>| #[trigger]
                old(self).stored().contains_key(k) implies self.stored().contains_key(k)
                && reachable(old(self).stored()[k].status, self.stored()[k].status) by {}
        }
        Ok(true)
    }

    /// The effect of the agent of `id` exiting on its own.
    pub open spec fn finish_effect(
        before: &SessionManager,
        after: &SessionManager,
        id: Seq<char>,
        exit_code: Option<i32>,
        now: Timestamp,
    ) -> bool {
        let stays = !before.live().contains_key(id) || before.live()[id].finished;
        let rec = with_status(before.live()[id].record, SessionStatus::Completed, exit_code, Some(now));
        &&& after.logged() == before.logged()
        &&& stays ==> after.stored() == before.stored() && after.live() == before.live()
        &&& !stays ==> after.stored() == before.stored().insert(id, rec) && after.live()
            == before.live().insert(id, ended(before.live()[id], rec, true))
    }

    /// The agent of `id` exited: a running session is completed with its exit code, the
    /// store learns it, and only then the feed broadcasts `Finished`. A session already
    /// over is left as it is.
    pub fn finish_session(&mut self, id: &str, exit_code: Option<i32>, now: Timestamp) -> (r: Result<
        Session,
        SessionError,
    >)
        requires
            old(self).wf(),
        ensures
            final(self).wf(),
            Self::finish_effect(old(self), final(self), id@, exit_code, now),
            !old(self).live().contains_key(id@) <==> r.is_err(),
            r matches Err(e) ==> (e matches SessionError::SessionNotRunning(m) && m@ == id@),
            r matches Ok(s) ==> final(self).live().contains_key(id@) && s@ == final(self).live()[id@].record,
            advances(old(self).stored(), final(self).stored()),
    {
        let i = match self.find_live(id) {
            None => {
                return Err(SessionError::SessionNotRunning(id.to_owned()));
            },
            Some(i) => i,
        };
        proof {
            self.lemma_view_at(i as int);
            assert(old(self).entry_ok(self.sessions@[i as int]));
        }
        if self.sessions[i].msg_store.finished() {
            return Ok(self.sessions[i].session.duplicate());
        }
        let mut l = self.sessions.remove(i);
        l.session.status = SessionStatus::Completed;
        if exit_code.is_some() {
            l.session.exit_code = exit_code;
        }
        l.session.finished_at = Some(now);
        let _ = self.store.update_session_status(id, SessionStatus::Completed, exit_code, Some(now));
        l.msg_store.push(LogMsg::Finished);
        let out = l.session.duplicate();
        let ghost lid = l.session.id@;
        self.sessions.insert(i, l);
        proof {
            assert(self.sessions@ =~= old(self).sessions@.update(i as int, l));
            Self::lemma_replace_entry(old(self), self, i as int, l);
            self.lemma_view_at(i as int);
            assert forall|k: Seq<char>| #[trigger]
                old(self).stored().contains_key(k) implies self.stored().contains_key(k)
                && reachable(old(self).stored()[k].status, self.stored()[k].status) by {}
        }
        Ok(out)
    }

    /// The effect of ending a live session of `id` as `Failed`.
    pub open spec fn fail_effect(
        before: &SessionManager,
        after: &SessionManager,
        id: Seq<char>,
        now: Timestamp,
    ) -> bool {
        let stays = !before.live().contains_key(id) || before.live()[id].finished;
        let rec = with_status(before.live()[id].record, SessionStatus::Failed, None, Some(now));
        &&& after.logged() == before.logged()
        &&& stays ==> after.stored() == before.stored() && after.live() == before.live()
        &&& !stays ==> after.stored() == before.stored().insert(id, rec) && after.live()
            == before.live().insert(id, ended(before.live()[id], rec, true))
    }

    /// A live session that cannot go on ends `Failed`: the store learns it, then the feed
    /// broadcasts `Finished`. A session already over is left as it is.
    pub fn fail_session(&mut self, id: &str, now: Timestamp) -> (r: Result<Session, SessionError>)
        requires
            old(self).wf(),
        ensures
            final(self).wf(),
            Self::fail_effect(old(self), final(self), id@, now),
            !old(self).live().contains_key(id@) <==> r.is_err(),
            r matches Err(e) ==> (e matches SessionError::SessionNotRunning(m) && m@ == id@),
            r matches Ok(s) ==> final(self).live().contains_key(id@) && s@ == final(self).live()[id@].record,
            advances(old(self).stored(), final(self).stored()),
    {
        let i = match self.find_live(id) {
            None => {
                return Err(SessionError::SessionNotRunning(id.to_owned()));
            },
            Some(i) => i,
        };
        proof {
            self.lemma_view_at(i as int);
            assert(old(self).entry_ok(self.sessions@[i as int]));
        }
        if self.sessions[i].msg_store.finished() {
            return Ok(self.sessions[i].session.duplicate());
        }
        let mut l = self.sessions.remove(i);
        l.session.status = SessionStatus::Failed;
        l.session.finished_at = Some(now);
        let _ = self.store.update_session_status(id, SessionStatus::Failed, None, Some(now));
        l.msg_store.push(LogMsg::Finished);
        let out = l.session.duplicate();
        self.sessions.insert(i, l);
        proof {
            assert(self.sessions@ =~= old(self).sessions@.update(i as int, l));
            Self::lemma_replace_entry(old(self), self, i as int, l);
            self.lemma_view_at(i as int);
            assert forall|k: Seq<char>| #[trigger]
                old(self).stored().contains_key(k) implies self.stored().contains_key(k)
                && reachable(old(self).stored()[k].status, self.stored()[k].status) by {}
        }
        Ok(out)
    }

    /// A pump of `id` crashed: its message is recorded as an event
    /// (`pump crashed: <detail>`), then the session ends `Failed`.
    pub fn pump_crashed(&mut self, id: &str, detail: &str, now: Timestamp) -> (r: Result<
        Session,
        SessionError,
    >)
        requires
            old(self).wf(),
        ensures
            final(self).wf(),
            !old(self).live().contains_key(id@) <==> r.is_err(),
            r matches Err(e) ==> (e matches SessionError::SessionNotRunning(m) && m@ == id@),
            r.is_err() ==> final(self).stored() == old(self).stored() && final(self).live() == old(self).live(),
            old(self).live().contains_key(id@) && !old(self).live()[id@].finished ==> {
                &&& final(self).stored()[id@].status == SessionStatus::Failed
                &&& final(self).live()[id@].finished
                &&& final(self).live()[id@].history.last() is Finished
                &&& (final(self).live()[id@].history == old(self).live()[id@].history.push(LogMsg::Finished)
                    || (final(self).live()[id@].history.len() == old(self).live()[id@].history.len() + 2
                    && carries(final(self).live()[id@].history[old(self).live()[id@].history.len() as int], LogType::Event, "pump crashed: "@ + detail@)))
            },
            advances(old(self).stored(), final(self).stored()),
    {
        let mut message = String::from_str("pump crashed: ");
        message.append(detail);
        let ghost text = message@;
        let taken = self.record_output(id, LogType::Event, message, now);
        if let Err(SessionError::SessionNotRunning(_)) = taken {
            return Err(SessionError::SessionNotRunning(id.to_owned()));
        }
        let ghost mid = self.live()[id@];
        let ghost was_taken = taken == Ok::<bool, SessionError>(true);
        let r = self.fail_session(id, now);
        proof {
            if old(self).live().contains_key(id@) && !old(self).live()[id@].finished && was_taken {
                let m = choose|m: LogMsg|
                    carries(m, LogType::Event, text) && mid == (LiveView {
                        history: old(self).live()[id@].history.push(m),
                        buffered: bounded(old(self).live()[id@].buffered.push(m), old(self).live()[id@].bound),
                        ..old(self).live()[id@]
                    });
                assert(self.live()[id@].history == mid.history.push(LogMsg::Finished));
                assert(self.live()[id@].history[old(self).live()[id@].history.len() as int] == m);
            }
        }
        r
    }

    /// The effect of stopping `id`.
    pub open spec fn stop_effect(
        before: &SessionManager,
        after: &SessionManager,
        id: Seq<char>,
        now: Timestamp,
    ) -> bool {
        let stays = !before.stored().contains_key(id) || terminal(before.stored()[id].status);
        let rec = with_status(before.stored()[id], SessionStatus::Killed, None, Some(now));
        &&& after.logged() == before.logged()
        &&& stays ==> after.stored() == before.stored() && after.live() == before.live()
        &&& !stays ==> after.stored() == before.stored().insert(id, rec)
        &&& !stays && before.live().contains_key(id) ==> after.live() == before.live().insert(
            id,
            ended(before.live()[id], rec, false),
        )
        &&& !stays && !before.live().contains_key(id) ==> after.live() == before.live()
    }

    /// Stops `id`: a session not yet over ends `Killed`, the store learns it, and a live
    /// one broadcasts `Finished` and hands back its interrupt and its child. A session
    /// already over is left as it is.
    pub fn stop_session(&mut self, id: &str, now: Timestamp) -> (r: Result<StopAction, SessionError>)
        requires
            old(self).wf(),
        ensures
            final(self).wf(),
            Self::stop_effect(old(self), final(self), id@, now),
            !old(self).stored().contains_key(id@) <==> r.is_err(),
            r matches Err(e) ==> (e matches SessionError::SessionNotFound(m) && m@ == id@),
            r matches Ok(a) ==> ((a.child is Some) <==> (old(self).live().contains_key(id@)
                && !old(self).live()[id@].finished && old(self).live()[id@].has_child)),
            r matches Ok(a) ==> ((a.interrupt is Some) <==> (old(self).live().contains_key(id@)
                && !old(self).live()[id@].finished && old(self).live()[id@].has_interrupt)),
            advances(old(self).stored(), final(self).stored()),
    {
        proof {
            old(self).lemma_coherent();
        }
        match self.find_live(id) {
            Some(i) => {
                proof {
                    self.lemma_view_at(i as int);
                    assert(old(self).entry_ok(self.sessions@[i as int]));
                }
                if self.sessions[i].msg_store.finished() {
                    return Ok(StopAction { interrupt: None, child: None });
                }
                let mut l = self.sessions.remove(i);
                let interrupt = l.interrupt.take();
                let child = l.child.take();
                l.session.status = SessionStatus::Killed;
                l.session.finished_at = Some(now);
                let _ = self.store.update_session_status(id, SessionStatus::Killed, None, Some(now));
                l.msg_store.push(LogMsg::Finished);
                self.sessions.insert(i, l);
                proof {
                    assert(self.sessions@ =~= old(self).sessions@.update(i as int, l));
                    Self::lemma_replace_entry(old(self), self, i as int, l);
                    assert forall|k: Seq<char>| #[trigger]
                        old(self).stored().contains_key(k) implies self.stored().contains_key(k)
                        && reachable(old(self).stored()[k].status, self.stored()[k].status) by {}
                }
                Ok(StopAction { interrupt, child })
            },
            None => {
                match self.store.get_session(id) {
                    Err(_) => Err(SessionError::SessionNotFound(id.to_owned())),
                    Ok(s) => {
                        if !s.status.is_terminal() {
                            let _ = self.store.update_session_status(
                                id,
                                SessionStatus::Killed,
                                None,
                                Some(now),
                            );
                            proof {
                                assert forall|j: int| 0 <= j < self.sessions@.len() implies self.entry_ok(
                                    #[trigger] self.sessions@[j],
                                ) by {
                                    let e = self.sessions@[j];
                                    assert(old(self).entry_ok(e));
                                    old(self).lemma_view_at(j);
                                }
                                assert forall|k: Seq<char>| #[trigger]
                                    old(self).stored().contains_key(k) implies self.stored().contains_key(k)
                                    && reachable(old(self).stored()[k].status, self.stored()[k].status) by {}
                            }
                        }
                        Ok(StopAction { interrupt: None, child: None })
                    },
                }
            },
        }
    }

    /// What tearing down `id` asks of the VCS: detaching its worktree (nothing when the
    /// directory is already gone) and, only when asked for, deleting its branch. Refused
    /// for an unknown session and for one not yet over.
    pub fn cleanup_session(&self, id: &str, delete_branch: bool, worktree_exists: bool) -> (r:
        Result<CleanupPlan, SessionError>)
        requires
            self.wf(),
        ensures
            !self.stored().contains_key(id@) ==> (r matches Err(e) && e matches SessionError::SessionNotFound(m) && m@ == id@),
            self.stored().contains_key(id@) && !terminal(self.stored()[id@].status) ==> (r matches Err(e) && e matches SessionError::SessionStillRunning(m) && m@ == id@),
            self.stored().contains_key(id@) && terminal(self.stored()[id@].status) ==> {
                let rec = self.stored()[id@];
                match rec.worktree_path {
                    None => r matches Ok(p) && p.remove is None && p.delete_branch is None,
                    Some(path) => match project_of(path) {
                        None => if worktree_exists {
                            r matches Err(e) && e matches SessionError::CleanupFailed(WorktreeError::InvalidPath(x)) && x@ == path
                        } else {
                            r matches Ok(p) && p.remove is None && p.delete_branch is None
                        },
                        Some(project) => r matches Ok(p) && (worktree_exists <==> p.remove is Some)
                            && (p.remove matches Some(c) ==> c.dir@ == project && views(c.args@) == remove_args(path))
                            && ((p.delete_branch is Some) <==> (delete_branch && rec.branch_name is Some))
                            && (p.delete_branch matches Some(c) ==> c.dir@ == project && views(c.args@) == seq!["branch"@, "-D"@, rec.branch_name.unwrap()]),
                    },
                }
            },
    {
        let s = match self.store.get_session(id) {
            Err(_) => {
                return Err(SessionError::SessionNotFound(id.to_owned()));
            },
            Ok(s) => s,
        };
        if !s.status.is_terminal() {
            return Err(SessionError::SessionStillRunning(id.to_owned()));
        }
        let path = match &s.worktree_path {
            None => {
                return Ok(CleanupPlan { remove: None, delete_branch: None });
            },
            Some(p) => p,
        };
        let remove = match self.worktree_manager.remove_worktree(path.as_str(), worktree_exists) {
            Err(e) => {
                return Err(SessionError::CleanupFailed(e));
            },
            Ok(c) => c,
        };
        let project = match crate::worktree::parent(path.as_str()) {
            Some(p) => crate::worktree::parent(p.as_str()),
            None => None,
        };
        let delete = match (delete_branch, &s.branch_name, project) {
            (true, Some(b), Some(dir)) => {
                let args = vec![String::from_str("branch"), String::from_str("-D"), b.clone()];
                assert(views(args@) =~= seq!["branch"@, "-D"@, b@]);
                Some(VcsCommand { dir, args })
            },
            _ => None,
        };
        Ok(CleanupPlan { remove, delete_branch: delete })
    }

    /// The effect of tearing down `id`: it leaves the live map; its record stays.
    pub open spec fn cleanup_effect(before: &SessionManager, after: &SessionManager, id: Seq<char>) -> bool {
        &&& after.stored() == before.stored()
        &&& after.logged() == before.logged()
        &&& after.live() == before.live().remove(id)
    }

    /// Finishes tearing down `id` once the VCS reported on its worktree: a failed removal
    /// is surfaced and changes nothing; else the session leaves the live map. Its record
    /// stays in the store.
    pub fn complete_cleanup(&mut self, id: &str, removal: Result<(), WorktreeError>) -> (r: Result<
        (),
        SessionError,
    >)
        requires
            old(self).wf(),
        ensures
            final(self).wf(),
            final(self).stored() == old(self).stored(),
            final(self).logged() == old(self).logged(),
            !old(self).stored().contains_key(id@) ==> (r matches Err(e) && e matches SessionError::SessionNotFound(m) && m@ == id@),
            old(self).stored().contains_key(id@) && !terminal(old(self).stored()[id@].status) ==> (r matches Err(e) && e matches SessionError::SessionStillRunning(m) && m@ == id@),
            old(self).stored().contains_key(id@) && terminal(old(self).stored()[id@].status) ==> (
            removal matches Err(w) ==> r == Err::<(), SessionError>(SessionError::CleanupFailed(w))),
            r.is_ok() <==> old(self).stored().contains_key(id@) && terminal(old(self).stored()[id@].status) && removal.is_ok(),
            r.is_ok() ==> Self::cleanup_effect(old(self), final(self), id@),
            r.is_err() ==> final(self).live() == old(self).live(),
    {
        let s = match self.store.get_session(id) {
            Err(_) => {
                return Err(SessionError::SessionNotFound(id.to_owned()));
            },
            Ok(s) => s,
        };
        if !s.status.is_terminal() {
            return Err(SessionError::SessionStillRunning(id.to_owned()));
        }
        if let Err(e) = removal {
            return Err(SessionError::CleanupFailed(e));
        }
        match self.find_live(id) {
            None => {
                assert(old(self).live().remove(id@) =~= old(self).live());
            },
            Some(i) => {
                let ghost before = self.live_seq();
                let _gone = self.sessions.remove(i);
                proof {
                    assert(self.live_seq() =~= before.remove(i as int));
                    assert(before[i as int].0 == id@);
                    lemma_by_key_remove(before, i as int);
                    assert forall|j: int| 0 <= j < self.sessions@.len() implies self.entry_ok(
                        #[trigger] self.sessions@[j],
                    ) by {
                        let jj = if j < i {
                            j
                        } else {
                            j + 1
                        };
                        assert(self.sessions@[j] == old(self).sessions@[jj]);
                        assert(old(self).entry_ok(old(self).sessions@[jj]));
                    }
                }
            },
        }
        Ok(())
    }

    /// A receiver of the feed of a live session that has not finished.
    pub fn subscribe_logs(&self, id: &str) -> (r: Result<broadcast::Receiver<LogMsg>, SessionError>)
        requires
            self.wf(),
        ensures
            r.is_ok() <==> self.live().contains_key(id@) && !self.live()[id@].finished,
            r matches Err(e) ==> (e matches SessionError::SessionNotRunning(m) && m@ == id@),
    {
        match self.find_live(id) {
            Some(i) => {
                proof {
                    self.lemma_view_at(i as int);
                }
                if self.sessions[i].msg_store.finished() {
                    Err(SessionError::SessionNotRunning(id.to_owned()))
                } else {
                    Ok(self.sessions[i].msg_store.subscribe())
                }
            },
            None => Err(SessionError::SessionNotRunning(id.to_owned())),
        }
    }

    /// The messages that the feed of a live session holds, oldest first.
    pub fn buffered_logs(&self, id: &str) -> (r: Result<Vec<LogMsg>, SessionError>)
        requires
            self.wf(),
        ensures
            r.is_ok() <==> self.live().contains_key(id@),
            r matches Ok(v) ==> v@ == self.live()[id@].buffered,
            r matches Err(e) ==> (e matches SessionError::SessionNotRunning(m) && m@ == id@),
    {
        match self.find_live(id) {
            Some(i) => {
                proof {
                    self.lemma_view_at(i as int);
                }
                Ok(self.sessions[i].msg_store.get_all())
            },
            None => Err(SessionError::SessionNotRunning(id.to_owned())),
        }
    }

    /// The recorded log entries of a session, in timestamp order.
    pub fn get_logs(&self, id: &str) -> (r: Vec<LogEntry>)
        requires
            self.wf(),
        ensures
            r@.map_values(|e: LogEntry| e@) == logs_of(self.logged(), id@),
            logs_sorted(r@.map_values(|e: LogEntry| e@)),
            forall|k: int| 0 <= k < r@.len() ==> (#[trigger] r@[k]).session_id@ == id@,
    {
        self.store.list_logs(id)
    }

    /// The stored record of a session.
    pub fn get_session(&self, id: &str) -> (r: Result<Session, SessionError>)
        requires
            self.wf(),
        ensures
            r.is_ok() <==> self.stored().contains_key(id@),
            r matches Ok(s) ==> s@ == self.stored()[id@],
            r matches Err(e) ==> (e matches SessionError::SessionNotFound(m) && m@ == id@),
    {
        match self.store.get_session(id) {
            Ok(s) => Ok(s),
            Err(_) => Err(SessionError::SessionNotFound(id.to_owned())),
        }
    }

    /// The stored sessions of a task, newest first.
    pub fn list_sessions(&self, task_id: &str) -> (r: Vec<Session>)
        requires
            self.wf(),
        ensures
            r@.map_values(|s: Session| s@) == newest_first(self.stored_list(), task_id@),
            forall|k: int| 0 <= k < r@.len() ==> self.stored().contains_key((#[trigger] r@[k]).id@)
                && self.stored()[r@[k].id@] == r@[k]@ && r@[k].task_id@ == task_id@,
            forall|id: Seq<char>| #[trigger]
                self.stored().contains_key(id) && self.stored()[id].task_id == task_id@
                    ==> exists|k: int| 0 <= k < r@.len() && r@[k].id@ == id,
            forall|a: int, b: int| 0 <= a < b < r@.len() ==> (#[trigger] r@[a]).created_at
                >= (#[trigger] r@[b]).created_at,
            forall|a: int, b: int|
                0 <= a < r@.len() && 0 <= b < r@.len() && a != b ==> (#[trigger] r@[a]).id@
                    != (#[trigger] r@[b]).id@,
    {
        self.store.list_sessions_by_task(task_id)
    }

    /// Records a log entry for a session under a fresh id; a taken id fails to persist.
    pub fn save_log_entry(&mut self, session_id: &str, log_type: LogType, content: &str, now: Timestamp) -> (r:
        Result<(), SessionError>)
        requires
            old(self).wf(),
        ensures
            final(self).wf(),
            final(self).stored() == old(self).stored(),
            final(self).live() == old(self).live(),
            r matches Err(e) ==> (e matches SessionError::PersistFailed(m) && has_log_id(old(self).logged(), m@)),
            r.is_err() ==> final(self).logged() == old(self).logged(),
            r.is_ok() ==> exists|pos: int, rec: LogRecord|
                0 <= pos <= old(self).logged().len() && rec.session_id == session_id@
                    && rec.timestamp == now && rec.log_type == log_type && rec.content == content@
                    && !has_log_id(old(self).logged(), rec.id)
                    && final(self).logged() == old(self).logged().insert(pos, rec),
    {
        let entry = LogEntry {
            id: fresh_id(),
            session_id: session_id.to_owned(),
            timestamp: now,
            log_type,
            content: content.to_owned(),
        };
        let ghost rec = entry@;
        let ghost old_logs = self.store.log_list();
        let entry_id = entry.id.clone();
        let inserted = self.store.insert_log_entry(entry);
        proof {
            assert forall|j: int| 0 <= j < self.sessions@.len() implies self.entry_ok(
                #[trigger] self.sessions@[j],
            ) by {
                assert(old(self).entry_ok(self.sessions@[j]));
            }
        }
        if inserted.is_err() {
            return Err(SessionError::PersistFailed(entry_id));
        }
        proof {
            let pos = choose|pos: int|
                0 <= pos <= old_logs.len() && (forall|k: int|
                    0 <= k < pos ==> (#[trigger] old_logs[k]).timestamp <= rec.timestamp) && (forall|
                    k: int,
                |
                    pos <= k < old_logs.len() ==> (#[trigger] old_logs[k]).timestamp > rec.timestamp)
                    && self.store.log_list() == old_logs.insert(pos, rec);
            assert(self.logged() == old(self).logged().insert(pos, rec));
        }
        Ok(())
    }
}

/// No entry of the live map shares its id with another.
pub proof fn lemma_one_entry_per_id(m: &SessionManager)
    requires
        m.wf(),
    ensures
        forall|i: int, j: int|
            0 <= i < m.entry_count() && 0 <= j < m.entry_count() && i != j ==> m.entry_id(i)
                != m.entry_id(j),
        m.live().len() == m.entry_count(),
{
    m.lemma_live_len();
    assert forall|i: int, j: int|
        0 <= i < m.entry_count() && 0 <= j < m.entry_count() && i != j implies m.entry_id(i)
        != m.entry_id(j) by {
        assert(m.live_seq()[i].0 == m.entry_id(i));
        assert(m.live_seq()[j].0 == m.entry_id(j));
    }
}

/// The log entries `get_logs` gives for a session, taken stream by stream, come in
/// non-decreasing timestamp order.
pub proof fn lemma_logs_in_order(m: &SessionManager, id: Seq<char>, kind: LogType)
    requires
        m.wf(),
    ensures
        logs_sorted(stream_of(logs_of(m.logged(), id), kind)),
{
    lemma_stream_order(&m.store, id, kind);
}

/// A live session whose feed has finished is stored with a terminal status.
pub proof fn lemma_persisted_before_finished(m: &SessionManager, id: Seq<char>)
    requires
        m.wf(),
        m.live().contains_key(id),
        m.live()[id].finished,
    ensures
        m.stored().contains_key(id),
        terminal(m.stored()[id].status),
{
    m.lemma_coherent();
}

/// A live session that reached an end has broadcast `Finished` exactly once, last.
pub proof fn lemma_terminal_marker(m: &SessionManager, id: Seq<char>)
    requires
        m.wf(),
        m.live().contains_key(id),
        terminal(m.stored()[id].status),
    ensures
        m.live()[id].finished,
        m.live()[id].history.last() is Finished,
        finished_count(m.live()[id].history) == 1,
{
    m.lemma_coherent();
}

/// Stored statuses only move forward, over any number of operations.
pub proof fn lemma_advances_compose(
    a: Map<Seq<char>, SessionRecord>,
    b: Map<Seq<char>, SessionRecord>,
    c: Map<Seq<char>, SessionRecord>,
)
    requires
        advances(a, b),
        advances(b, c),
    ensures
        advances(a, c),
{
    assert forall|id: Seq<char>| #[trigger] a.contains_key(id) implies c.contains_key(id)
        && reachable(a[id].status, c[id].status) by {
        assert(b.contains_key(id));
    }
}

/// Stopping a session twice: the first stop ends it `Killed` (unless it was over
/// already), the second changes nothing.
pub proof fn lemma_stop_twice(
    m0: &SessionManager,
    m1: &SessionManager,
    m2: &SessionManager,
    id: Seq<char>,
    t1: Timestamp,
    t2: Timestamp,
)
    requires
        m0.stored().contains_key(id),
        SessionManager::stop_effect(m0, m1, id, t1),
        SessionManager::stop_effect(m1, m2, id, t2),
    ensures
        !terminal(m0.stored()[id].status) ==> m1.stored()[id].status == SessionStatus::Killed,
        terminal(m0.stored()[id].status) ==> m1.stored() == m0.stored() && m1.live() == m0.live(),
        terminal(m1.stored()[id].status),
        m2.stored() == m1.stored(),
        m2.live() == m1.live(),
        m2.logged() == m1.logged(),
{
}

/// Create, stop, clean up: the session is recorded with its worktree, stays recorded
/// with an end status, and leaves the live map, which is then as before the creation.
pub proof fn lemma_create_stop_cleanup(
    m0: &SessionManager,
    m1: &SessionManager,
    m2: &SessionManager,
    m3: &SessionManager,
    m4: &SessionManager,
    id: Seq<char>,
    rec: SessionRecord,
    has_child: bool,
    has_interrupt: bool,
    t: Timestamp,
)
    requires
        rec.id == id,
        rec.status == SessionStatus::Running,
        rec.worktree_path is Some,
        SessionManager::begin_effect(m0, m1, id, rec, true),
        m2.stored() == m1.stored(),
        m2.live() == m1.live().insert(id, SessionManager::fresh_live(m1.stored()[id], has_child, has_interrupt)),
        SessionManager::stop_effect(m2, m3, id, t),
        SessionManager::cleanup_effect(m3, m4, id),
    ensures
        m1.stored()[id].worktree_path == rec.worktree_path,
        m3.live().contains_key(id) && m3.live()[id].finished,
        m4.stored().contains_key(id),
        m4.stored()[id].status == SessionStatus::Killed,
        m4.stored()[id].worktree_path == rec.worktree_path,
        !m4.live().contains_key(id),
        !m0.live().contains_key(id) ==> m4.live() == m0.live(),
{
    if !m0.live().contains_key(id) {
        assert(m4.live() =~= m0.live());
    }
}

} // verus!
