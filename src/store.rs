//! The session store: session records by id and log entries in timestamp order.
use vstd::prelude::*;

use crate::model::{reachable, LogEntry, LogRecord, LogType, Session, SessionRecord, SessionStatus, Timestamp};
use crate::text::same_text;

verus! {

/// Why a store operation failed.
#[derive(Debug, Clone)]
pub enum StoreError {
    /// A session with this id is already stored.
    Duplicate(String),
    /// No session with this id is stored.
    NotFound(String),
}

pub open spec fn has_id(s: Seq<SessionRecord>, id: Seq<char>) -> bool {
    exists|i: int| 0 <= i < s.len() && (#[trigger] s[i]).id == id
}

pub open spec fn unique_ids(s: Seq<SessionRecord>) -> bool {
    forall|i: int, j: int|
        0 <= i < s.len() && 0 <= j < s.len() && i != j ==> (#[trigger] s[i]).id != (#[trigger] s[j]).id
}

pub open spec fn record_of(s: Seq<SessionRecord>, id: Seq<char>) -> SessionRecord {
    s[choose|i: int| 0 <= i < s.len() && (#[trigger] s[i]).id == id]
}

/// The sessions of `s` by id.
pub open spec fn table(s: Seq<SessionRecord>) -> Map<Seq<char>, SessionRecord> {
    Map::new(|id: Seq<char>| has_id(s, id), |id: Seq<char>| record_of(s, id))
}

pub open spec fn sessions_sorted(s: Seq<SessionRecord>) -> bool {
    forall|i: int, j: int| 0 <= i <= j < s.len() ==> (#[trigger] s[i]).created_at <= (#[trigger] s[j]).created_at
}

pub open spec fn logs_sorted(s: Seq<LogRecord>) -> bool {
    forall|i: int, j: int| 0 <= i <= j < s.len() ==> (#[trigger] s[i]).timestamp <= (#[trigger] s[j]).timestamp
}

/// Some entry of `s` has id `id`.
pub open spec fn has_log_id(s: Seq<LogRecord>, id: Seq<char>) -> bool {
    exists|i: int| 0 <= i < s.len() && (#[trigger] s[i]).id == id
}

pub open spec fn log_ids_unique(s: Seq<LogRecord>) -> bool {
    forall|i: int, j: int|
        0 <= i < s.len() && 0 <= j < s.len() && i != j ==> (#[trigger] s[i]).id != (#[trigger] s[j]).id
}

/// The sessions of `task` in `s`, last first.
pub open spec fn newest_first(s: Seq<SessionRecord>, task: Seq<char>) -> Seq<SessionRecord>
    decreases s.len(),
{
    if s.len() == 0 {
        Seq::empty()
    } else {
        let rest = newest_first(s.drop_last(), task);
        if s.last().task_id == task {
            seq![s.last()] + rest
        } else {
            rest
        }
    }
}

/// The entries of `session` in `s`, in order.
pub open spec fn logs_of(s: Seq<LogRecord>, session: Seq<char>) -> Seq<LogRecord>
    decreases s.len(),
{
    if s.len() == 0 {
        Seq::empty()
    } else {
        let front = logs_of(s.drop_last(), session);
        if s.last().session_id == session {
            front.push(s.last())
        } else {
            front
        }
    }
}

/// The entries of `s` of one stream, in order.
pub open spec fn stream_of(s: Seq<LogRecord>, kind: LogType) -> Seq<LogRecord>
    decreases s.len(),
{
    if s.len() == 0 {
        Seq::empty()
    } else {
        let front = stream_of(s.drop_last(), kind);
        if s.last().log_type == kind {
            front.push(s.last())
        } else {
            front
        }
    }
}

/// `rec` with the new status, and the exit code and end time where given.
pub open spec fn with_status(
    rec: SessionRecord,
    status: SessionStatus,
    exit_code: Option<i32>,
    finished_at: Option<Timestamp>,
) -> SessionRecord {
    SessionRecord {
        status,
        exit_code: if exit_code is Some {
            exit_code
        } else {
            rec.exit_code
        },
        finished_at: if finished_at is Some {
            finished_at
        } else {
            rec.finished_at
        },
        ..rec
    }
}

proof fn lemma_nf_members(s: Seq<SessionRecord>, task: Seq<char>)
    ensures
        forall|k: int| 0 <= k < newest_first(s, task).len() ==> exists|m: int|
            0 <= m < s.len() && (#[trigger] newest_first(s, task)[k]) == s[m],
        forall|k: int| 0 <= k < newest_first(s, task).len() ==> (#[trigger] newest_first(s, task)[k]).task_id == task,
    decreases s.len(),
{
    if s.len() > 0 {
        let d = s.drop_last();
        lemma_nf_members(d, task);
        let f = newest_first(d, task);
        let n = newest_first(s, task);
        assert forall|k: int| 0 <= k < n.len() implies exists|m: int|
            0 <= m < s.len() && (#[trigger] n[k]) == s[m] by {
            if s.last().task_id == task && k == 0 {
                assert(n[0] == s[s.len() - 1]);
            } else {
                let kk = if s.last().task_id == task { k - 1 } else { k };
                assert(n[k] == f[kk]);
                let m = choose|m: int| 0 <= m < d.len() && (#[trigger] f[kk]) == d[m];
                assert(d[m] == s[m]);
            }
        }
        assert forall|k: int| 0 <= k < n.len() implies (#[trigger] n[k]).task_id == task by {
            if !(s.last().task_id == task && k == 0) {
                let kk = if s.last().task_id == task { k - 1 } else { k };
                assert(n[k] == f[kk]);
            }
        }
    }
}

proof fn lemma_nf_complete(s: Seq<SessionRecord>, task: Seq<char>)
    ensures
        forall|m: int| 0 <= m < s.len() && (#[trigger] s[m]).task_id == task ==> exists|k: int|
            0 <= k < newest_first(s, task).len() && newest_first(s, task)[k] == s[m],
    decreases s.len(),
{
    if s.len() > 0 {
        let d = s.drop_last();
        lemma_nf_complete(d, task);
        let f = newest_first(d, task);
        let n = newest_first(s, task);
        assert forall|m: int| 0 <= m < s.len() && (#[trigger] s[m]).task_id == task implies exists|
            k: int,
        | 0 <= k < n.len() && n[k] == s[m] by {
            if m == s.len() - 1 {
                assert(n[0] == s[m]);
            } else {
                assert(d[m] == s[m]);
                let k = choose|k: int| 0 <= k < f.len() && f[k] == d[m];
                if s.last().task_id == task {
                    assert(n[k + 1] == f[k]);
                } else {
                    assert(n[k] == f[k]);
                }
            }
        }
    }
}

proof fn lemma_nf_order(s: Seq<SessionRecord>, task: Seq<char>)
    requires
        sessions_sorted(s),
    ensures
        forall|a: int, b: int|
            0 <= a < b < newest_first(s, task).len() ==> (#[trigger] newest_first(s, task)[a]).created_at
                >= (#[trigger] newest_first(s, task)[b]).created_at,
    decreases s.len(),
{
    if s.len() > 0 {
        let d = s.drop_last();
        assert forall|i: int, j: int| 0 <= i <= j < d.len() implies (#[trigger] d[i]).created_at
            <= (#[trigger] d[j]).created_at by {
            assert(d[i] == s[i] && d[j] == s[j]);
        }
        lemma_nf_order(d, task);
        lemma_nf_members(d, task);
        let f = newest_first(d, task);
        let n = newest_first(s, task);
        if s.last().task_id == task {
            assert forall|a: int, b: int| 0 <= a < b < n.len() implies (#[trigger] n[a]).created_at
                >= (#[trigger] n[b]).created_at by {
                assert(n[b] == f[b - 1]);
                if a == 0 {
                    let m = choose|m: int| 0 <= m < d.len() && (#[trigger] f[b - 1]) == d[m];
                    assert(d[m] == s[m]);
                    assert(s[m].created_at <= s[s.len() - 1].created_at);
                } else {
                    assert(n[a] == f[a - 1]);
                }
            }
        }
    }
}

proof fn lemma_nf_distinct(s: Seq<SessionRecord>, task: Seq<char>)
    requires
        unique_ids(s),
    ensures
        forall|a: int, b: int|
            0 <= a < newest_first(s, task).len() && 0 <= b < newest_first(s, task).len() && a != b
                ==> (#[trigger] newest_first(s, task)[a]).id != (#[trigger] newest_first(s, task)[b]).id,
    decreases s.len(),
{
    if s.len() > 0 {
        let d = s.drop_last();
        assert forall|i: int, j: int|
            0 <= i < d.len() && 0 <= j < d.len() && i != j implies (#[trigger] d[i]).id != (
            #[trigger] d[j]).id by {
            assert(d[i] == s[i] && d[j] == s[j]);
        }
        lemma_nf_distinct(d, task);
        lemma_nf_members(d, task);
        let f = newest_first(d, task);
        let n = newest_first(s, task);
        if s.last().task_id == task {
            assert forall|a: int, b: int|
                0 <= a < n.len() && 0 <= b < n.len() && a != b implies (#[trigger] n[a]).id != (
                #[trigger] n[b]).id by {
                if a == 0 {
                    assert(n[b] == f[b - 1]);
                    let m = choose|m: int| 0 <= m < d.len() && (#[trigger] f[b - 1]) == d[m];
                    assert(d[m] == s[m]);
                    assert(n[0] == s[s.len() - 1]);
                } else if b == 0 {
                    assert(n[a] == f[a - 1]);
                    let m = choose|m: int| 0 <= m < d.len() && (#[trigger] f[a - 1]) == d[m];
                    assert(d[m] == s[m]);
                    assert(n[0] == s[s.len() - 1]);
                } else {
                    assert(n[a] == f[a - 1] && n[b] == f[b - 1]);
                }
            }
        }
    }
}

proof fn lemma_record_at(s: Seq<SessionRecord>, i: int)
    requires
        unique_ids(s),
        0 <= i < s.len(),
    ensures
        table(s).contains_key(s[i].id),
        table(s)[s[i].id] == s[i],
{
    assert(has_id(s, s[i].id));
    let j = choose|j: int| 0 <= j < s.len() && (#[trigger] s[j]).id == s[i].id;
    assert(s[j].id == s[i].id);
}

proof fn lemma_table_insert(s: Seq<SessionRecord>, pos: int, rec: SessionRecord)
    requires
        unique_ids(s),
        !has_id(s, rec.id),
        0 <= pos <= s.len(),
    ensures
        unique_ids(s.insert(pos, rec)),
        table(s.insert(pos, rec)) == table(s).insert(rec.id, rec),
{
    let t = s.insert(pos, rec);
    s.insert_ensures(pos, rec);
    assert forall|k: int| 0 <= k < t.len() && k != pos implies (#[trigger] t[k]) == s[
        if k < pos {
            k
        } else {
            k - 1
        }
    ] by {
        if k > pos {
            assert(t[(k - 1) + 1] == s[k - 1]);
        }
    }
    assert forall|i: int, j: int|
        0 <= i < t.len() && 0 <= j < t.len() && i != j implies (#[trigger] t[i]).id != (
        #[trigger] t[j]).id by {
        if i == pos {
            let jj = if j < pos {
                j
            } else {
                j - 1
            };
            assert(t[j] == s[jj]);
        } else if j == pos {
            let ii = if i < pos {
                i
            } else {
                i - 1
            };
            assert(t[i] == s[ii]);
        } else {
            let ii = if i < pos {
                i
            } else {
                i - 1
            };
            let jj = if j < pos {
                j
            } else {
                j - 1
            };
            assert(t[i] == s[ii] && t[j] == s[jj]);
        }
    }
    assert forall|id: Seq<char>| #[trigger] has_id(t, id) == (has_id(s, id) || id == rec.id) by {
        if has_id(t, id) {
            let k = choose|k: int| 0 <= k < t.len() && (#[trigger] t[k]).id == id;
            if k != pos {
                let kk = if k < pos {
                    k
                } else {
                    k - 1
                };
                assert(s[kk].id == id);
            }
        }
        if has_id(s, id) {
            let k = choose|k: int| 0 <= k < s.len() && (#[trigger] s[k]).id == id;
            let kk = if k < pos {
                k
            } else {
                k + 1
            };
            assert(t[kk] == s[k]);
        }
        if id == rec.id {
            assert(t[pos].id == id);
        }
    }
    assert forall|id: Seq<char>| #[trigger]
        table(t).contains_key(id) implies table(t)[id] == table(s).insert(rec.id, rec)[id] by {
        let k = choose|k: int| 0 <= k < t.len() && (#[trigger] t[k]).id == id;
        lemma_record_at(t, k);
        if k != pos {
            let kk = if k < pos {
                k
            } else {
                k - 1
            };
            assert(t[k] == s[kk]);
            lemma_record_at(s, kk);
        }
    }
    assert(table(t) =~= table(s).insert(rec.id, rec));
}

proof fn lemma_table_update(s: Seq<SessionRecord>, i: int, rec: SessionRecord)
    requires
        unique_ids(s),
        0 <= i < s.len(),
        rec.id == s[i].id,
    ensures
        unique_ids(s.update(i, rec)),
        table(s.update(i, rec)) == table(s).insert(rec.id, rec),
{
    let t = s.update(i, rec);
    assert forall|a: int, b: int|
        0 <= a < t.len() && 0 <= b < t.len() && a != b implies (#[trigger] t[a]).id != (
        #[trigger] t[b]).id by {
        assert(t[a].id == s[a].id && t[b].id == s[b].id);
    }
    assert forall|id: Seq<char>| #[trigger] has_id(t, id) == has_id(s, id) by {
        if has_id(t, id) {
            let k = choose|k: int| 0 <= k < t.len() && (#[trigger] t[k]).id == id;
            assert(s[k].id == id);
        }
        if has_id(s, id) {
            let k = choose|k: int| 0 <= k < s.len() && (#[trigger] s[k]).id == id;
            assert(t[k].id == id);
        }
    }
    lemma_record_at(s, i);
    assert forall|id: Seq<char>| #[trigger]
        table(t).contains_key(id) implies table(t)[id] == table(s).insert(rec.id, rec)[id] by {
        let k = choose|k: int| 0 <= k < t.len() && (#[trigger] t[k]).id == id;
        lemma_record_at(t, k);
        if k != i {
            lemma_record_at(s, k);
        }
    }
    assert(table(t) =~= table(s).insert(rec.id, rec));
}

/// Durable records of sessions and their log entries.
pub struct SessionStore {
    sessions: Vec<Session>,
    logs: Vec<LogEntry>,
}

impl SessionStore {
    /// The stored sessions, oldest first.
    pub closed spec fn session_list(&self) -> Seq<SessionRecord> {
        self.sessions@.map_values(|s: Session| s@)
    }

    /// The stored sessions by id.
    pub open spec fn records(&self) -> Map<Seq<char>, SessionRecord> {
        table(self.session_list())
    }

    /// Every stored log entry, in timestamp order.
    pub closed spec fn log_list(&self) -> Seq<LogRecord> {
        self.logs@.map_values(|e: LogEntry| e@)
    }

    pub open spec fn wf(&self) -> bool {
        &&& unique_ids(self.session_list())
        &&& sessions_sorted(self.session_list())
        &&& logs_sorted(self.log_list())
        &&& log_ids_unique(self.log_list())
    }

    pub fn new() -> (r: Self)
        ensures
            r.wf(),
            r.session_list() == Seq::<SessionRecord>::empty(),
            r.records() == Map::<Seq<char>, SessionRecord>::empty(),
            r.log_list() == Seq::<LogRecord>::empty(),
    {
        let r = SessionStore { sessions: Vec::new(), logs: Vec::new() };
        assert(r.session_list() =~= Seq::<SessionRecord>::empty());
        assert(r.log_list() =~= Seq::<LogRecord>::empty());
        assert(r.records() =~= Map::<Seq<char>, SessionRecord>::empty());
        r
    }

    fn find(&self, id: &str) -> (r: Option<usize>)
        requires
            self.wf(),
        ensures
            r is None <==> !self.records().contains_key(id@),
            r matches Some(i) ==> i < self.session_list().len() && self.session_list()[i as int].id
                == id@ && self.records()[id@] == self.session_list()[i as int],
    {
        let mut i: usize = 0;
        while i < self.sessions.len()
            invariant
                self.wf(),
                i <= self.sessions@.len(),
                forall|k: int| 0 <= k < i ==> (#[trigger] self.session_list()[k]).id != id@,
            decreases self.sessions@.len() - i,
        {
            assert(self.session_list()[i as int] == self.sessions@[i as int]@);
            if same_text(self.sessions[i].id.as_str(), id) {
                proof {
                    lemma_record_at(self.session_list(), i as int);
                }
                return Some(i);
            }
            i += 1;
        }
        None
    }

    /// Stores a new session; refused when its id is taken.
    pub fn insert_session(&mut self, session: Session) -> (r: Result<(), StoreError>)
        requires
            old(self).wf(),
        ensures
            final(self).wf(),
            old(self).records().contains_key(session.id@) <==> r.is_err(),
            r matches Err(e) ==> (e matches StoreError::Duplicate(d) && d@ == session.id@),
            r.is_ok() ==> final(self).records() == old(self).records().insert(session.id@, session@),
            r.is_err() ==> final(self).records() == old(self).records(),
            final(self).log_list() == old(self).log_list(),
    {
        if self.find(session.id.as_str()).is_some() {
            return Err(StoreError::Duplicate(session.id.clone()));
        }
        let ghost before = self.session_list();
        let mut pos: usize = self.sessions.len();
        while pos > 0 && self.sessions[pos - 1].created_at > session.created_at
            invariant
                pos <= self.sessions@.len(),
                before == self.session_list(),
                forall|k: int| pos <= k < before.len() ==> (#[trigger] before[k]).created_at
                    > session.created_at,
            decreases pos,
        {
            assert(before[pos - 1] == self.sessions@[pos - 1]@);
            pos -= 1;
        }
        if pos > 0 {
            assert(before[pos - 1] == self.sessions@[pos - 1]@);
        }
        let ghost rec = session@;
        self.sessions.insert(pos, session);
        assert(self.session_list() =~= before.insert(pos as int, rec));
        proof {
            lemma_table_insert(before, pos as int, rec);
            let t = before.insert(pos as int, rec);
            before.insert_ensures(pos as int, rec);
            assert forall|i: int, j: int| 0 <= i <= j < t.len() implies (#[trigger] t[i]).created_at
                <= (#[trigger] t[j]).created_at by {
                if i < pos && j < pos {
                } else if i < pos && j == pos {
                    assert(before[i].created_at <= before[pos - 1].created_at);
                } else if i < pos {
                    assert(t[(j - 1) + 1] == before[j - 1]);
                } else if i == pos && j > pos {
                    assert(t[(j - 1) + 1] == before[j - 1]);
                } else if i > pos {
                    assert(t[(j - 1) + 1] == before[j - 1]);
                    assert(t[(i - 1) + 1] == before[i - 1]);
                }
            }
        }
        Ok(())
    }

    /// Moves a session to `status`, setting the exit code and end time where given. A move
    /// backwards is refused and leaves the record as it was.
    pub fn update_session_status(
        &mut self,
        id: &str,
        status: SessionStatus,
        exit_code: Option<i32>,
        finished_at: Option<Timestamp>,
    ) -> (r: Result<bool, StoreError>)
        requires
            old(self).wf(),
        ensures
            final(self).wf(),
            final(self).log_list() == old(self).log_list(),
            !old(self).records().contains_key(id@) <==> r.is_err(),
            r matches Err(e) ==> (e matches StoreError::NotFound(m) && m@ == id@),
            r.is_err() ==> final(self).records() == old(self).records(),
            r matches Ok(moved) ==> moved == reachable(old(self).records()[id@].status, status),
            r == Ok::<bool, StoreError>(true) ==> final(self).records() == old(self).records().insert(
                id@,
                with_status(old(self).records()[id@], status, exit_code, finished_at),
            ),
            r == Ok::<bool, StoreError>(false) ==> final(self).records() == old(self).records(),
    {
        match self.find(id) {
            None => Err(StoreError::NotFound(id.to_owned())),
            Some(i) => {
                if !self.sessions[i].status.can_become(status) {
                    return Ok(false);
                }
                let ghost before = self.session_list();
                let mut s = self.sessions[i].duplicate();
                s.status = status;
                if exit_code.is_some() {
                    s.exit_code = exit_code;
                }
                if finished_at.is_some() {
                    s.finished_at = finished_at;
                }
                let ghost rec = s@;
                assert(rec == with_status(before[i as int], status, exit_code, finished_at));
                self.sessions.set(i, s);
                assert(self.session_list() =~= before.update(i as int, rec));
                proof {
                    lemma_table_update(before, i as int, rec);
                    let t = before.update(i as int, rec);
                    assert forall|a: int, b: int| 0 <= a <= b < t.len() implies (
                    #[trigger] t[a]).created_at <= (#[trigger] t[b]).created_at by {
                        assert(t[a].created_at == before[a].created_at);
                        assert(t[b].created_at == before[b].created_at);
                    }
                }
                Ok(true)
            },
        }
    }

    /// The session stored under `id`.
    pub fn get_session(&self, id: &str) -> (r: Result<Session, StoreError>)
        requires
            self.wf(),
        ensures
            !self.records().contains_key(id@) <==> r.is_err(),
            r matches Err(e) ==> (e matches StoreError::NotFound(m) && m@ == id@),
            r matches Ok(s) ==> s@ == self.records()[id@],
    {
        match self.find(id) {
            None => Err(StoreError::NotFound(id.to_owned())),
            Some(i) => Ok(self.sessions[i].duplicate()),
        }
    }

    /// The sessions of a task, newest first.
    pub fn list_sessions_by_task(&self, task_id: &str) -> (r: Vec<Session>)
        requires
            self.wf(),
        ensures
            r@.map_values(|s: Session| s@) == newest_first(self.session_list(), task_id@),
            forall|k: int| 0 <= k < r@.len() ==> self.records().contains_key((#[trigger] r@[k]).id@)
                && self.records()[r@[k].id@] == r@[k]@ && r@[k].task_id@ == task_id@,
            forall|id: Seq<char>| #[trigger]
                self.records().contains_key(id) && self.records()[id].task_id == task_id@
                    ==> exists|k: int| 0 <= k < r@.len() && r@[k].id@ == id,
            forall|a: int, b: int| 0 <= a < b < r@.len() ==> (#[trigger] r@[a]).created_at
                >= (#[trigger] r@[b]).created_at,
            forall|a: int, b: int|
                0 <= a < r@.len() && 0 <= b < r@.len() && a != b ==> (#[trigger] r@[a]).id@
                    != (#[trigger] r@[b]).id@,
    {
        proof {
            lemma_nf_members(self.session_list(), task_id@);
            lemma_nf_complete(self.session_list(), task_id@);
            lemma_nf_order(self.session_list(), task_id@);
            lemma_nf_distinct(self.session_list(), task_id@);
        }
        let ghost all = self.session_list();
        let mut out: Vec<Session> = Vec::new();
        let mut i: usize = self.sessions.len();
        assert(all.subrange(0, i as int) =~= all);
        assert(out@.map_values(|s: Session| s@) + newest_first(all, task_id@) =~= newest_first(
            all,
            task_id@,
        ));
        while i > 0
            invariant
                i <= self.sessions@.len(),
                all == self.session_list(),
                out@.map_values(|s: Session| s@) + newest_first(all.subrange(0, i as int), task_id@)
                    == newest_first(all, task_id@),
            decreases i,
        {
            let ghost front = out@.map_values(|s: Session| s@);
            let ghost part = all.subrange(0, i as int);
            assert(part.drop_last() =~= all.subrange(0, i - 1));
            assert(part.last() == self.sessions@[i - 1]@);
            if same_text(self.sessions[i - 1].task_id.as_str(), task_id) {
                let s = self.sessions[i - 1].duplicate();
                out.push(s);
                assert(out@.map_values(|s: Session| s@) =~= front.push(part.last()));
                assert(front + (seq![part.last()] + newest_first(part.drop_last(), task_id@))
                    =~= front.push(part.last()) + newest_first(part.drop_last(), task_id@));
            }
            i -= 1;
        }
        assert(all.subrange(0, 0) =~= Seq::<SessionRecord>::empty());
        assert(out@.map_values(|s: Session| s@) + Seq::<SessionRecord>::empty()
            =~= out@.map_values(|s: Session| s@));
        proof {
            let v = out@.map_values(|s: Session| s@);
            let all = self.session_list();
            assert forall|k: int| 0 <= k < out@.len() implies self.records().contains_key(
                (#[trigger] out@[k]).id@,
            ) && self.records()[out@[k].id@] == out@[k]@ && out@[k].task_id@ == task_id@ by {
                assert(v[k] == out@[k]@);
                let m = choose|m: int| 0 <= m < all.len() && (#[trigger] newest_first(all, task_id@)[k]) == all[m];
                lemma_record_at(all, m);
            }
            assert forall|id: Seq<char>| #[trigger]
                self.records().contains_key(id) && self.records()[id].task_id == task_id@ implies exists|
                k: int,
            | 0 <= k < out@.len() && out@[k].id@ == id by {
                let m = choose|m: int| 0 <= m < all.len() && (#[trigger] all[m]).id == id;
                lemma_record_at(all, m);
                let k = choose|k: int| 0 <= k < v.len() && v[k] == all[m];
                assert(v[k] == out@[k]@);
            }
            assert forall|a: int, b: int| 0 <= a < b < out@.len() implies (#[trigger] out@[a]).created_at
                >= (#[trigger] out@[b]).created_at by {
                assert(v[a] == out@[a]@ && v[b] == out@[b]@);
            }
            assert forall|a: int, b: int|
                0 <= a < out@.len() && 0 <= b < out@.len() && a != b implies (#[trigger] out@[a]).id@
                != (#[trigger] out@[b]).id@ by {
                assert(v[a] == out@[a]@ && v[b] == out@[b]@);
            }
        }
        out
    }

    /// Records a log entry, after every entry not later than it; refused when its id is taken.
    pub fn insert_log_entry(&mut self, entry: LogEntry) -> (r: Result<(), StoreError>)
        requires
            old(self).wf(),
        ensures
            final(self).wf(),
            final(self).records() == old(self).records(),
            r.is_err() <==> has_log_id(old(self).log_list(), entry.id@),
            r matches Err(e) ==> (e matches StoreError::Duplicate(d) && d@ == entry.id@),
            r.is_err() ==> final(self).log_list() == old(self).log_list(),
            r.is_ok() ==> exists|pos: int|
                0 <= pos <= old(self).log_list().len() && (forall|k: int|
                    0 <= k < pos ==> (#[trigger] old(self).log_list()[k]).timestamp
                        <= entry.timestamp) && (forall|k: int|
                    pos <= k < old(self).log_list().len() ==> (
                    #[trigger] old(self).log_list()[k]).timestamp > entry.timestamp)
                    && final(self).log_list() == old(self).log_list().insert(pos, entry@),
    {
        let mut k: usize = 0;
        while k < self.logs.len()
            invariant
                self.wf(),
                k <= self.logs@.len(),
                forall|j: int| 0 <= j < k ==> (#[trigger] self.log_list()[j]).id != entry.id@,
            decreases self.logs@.len() - k,
        {
            assert(self.log_list()[k as int] == self.logs@[k as int]@);
            if same_text(self.logs[k].id.as_str(), entry.id.as_str()) {
                return Err(StoreError::Duplicate(entry.id.clone()));
            }
            k += 1;
        }
        let ghost before = self.log_list();
        let mut pos: usize = self.logs.len();
        while pos > 0 && self.logs[pos - 1].timestamp > entry.timestamp
            invariant
                pos <= self.logs@.len(),
                before == self.log_list(),
                forall|k: int| pos <= k < before.len() ==> (#[trigger] before[k]).timestamp
                    > entry.timestamp,
            decreases pos,
        {
            assert(before[pos - 1] == self.logs@[pos - 1]@);
            pos -= 1;
        }
        if pos > 0 {
            assert(before[pos - 1] == self.logs@[pos - 1]@);
        }
        let ghost rec = entry@;
        self.logs.insert(pos, entry);
        assert(self.log_list() =~= before.insert(pos as int, rec));
        proof {
            let t = before.insert(pos as int, rec);
            before.insert_ensures(pos as int, rec);
            assert forall|k: int| 0 <= k < pos implies (#[trigger] before[k]).timestamp
                <= rec.timestamp by {
                assert(before[k].timestamp <= before[pos - 1].timestamp);
            }
            assert forall|i: int, j: int| 0 <= i <= j < t.len() implies (#[trigger] t[i]).timestamp
                <= (#[trigger] t[j]).timestamp by {
                if i < pos && j < pos {
                } else if i < pos && j == pos {
                } else if i < pos {
                    assert(t[(j - 1) + 1] == before[j - 1]);
                } else if i == pos && j > pos {
                    assert(t[(j - 1) + 1] == before[j - 1]);
                } else if i > pos {
                    assert(t[(j - 1) + 1] == before[j - 1]);
                    assert(t[(i - 1) + 1] == before[i - 1]);
                }
            }
            assert forall|i: int, j: int|
                0 <= i < t.len() && 0 <= j < t.len() && i != j implies (#[trigger] t[i]).id != (
                #[trigger] t[j]).id by {
                let ii = if i < pos {
                    i
                } else {
                    i - 1
                };
                let jj = if j < pos {
                    j
                } else {
                    j - 1
                };
                if i > pos {
                    assert(t[(i - 1) + 1] == before[i - 1]);
                }
                if j > pos {
                    assert(t[(j - 1) + 1] == before[j - 1]);
                }
                if i != pos && j != pos {
                    assert(t[i] == before[ii] && t[j] == before[jj]);
                } else if i == pos {
                    assert(t[j] == before[jj]);
                } else {
                    assert(t[i] == before[ii]);
                }
            }
        }
        Ok(())
    }

    /// The log entries of a session, in timestamp order.
    pub fn list_logs(&self, session_id: &str) -> (r: Vec<LogEntry>)
        requires
            self.wf(),
        ensures
            r@.map_values(|e: LogEntry| e@) == logs_of(self.log_list(), session_id@),
            logs_sorted(r@.map_values(|e: LogEntry| e@)),
            forall|k: int| 0 <= k < r@.len() ==> (#[trigger] r@[k]).session_id@ == session_id@,
    {
        proof {
            lemma_logs_of_sorted(self.log_list(), session_id@);
        }
        let ghost all = self.log_list();
        let mut out: Vec<LogEntry> = Vec::new();
        let mut i: usize = 0;
        while i < self.logs.len()
            invariant
                i <= self.logs@.len(),
                all == self.log_list(),
                out@.map_values(|e: LogEntry| e@) == logs_of(all.subrange(0, i as int), session_id@),
            decreases self.logs@.len() - i,
        {
            let ghost front = out@.map_values(|e: LogEntry| e@);
            assert(all.subrange(0, i + 1).drop_last() =~= all.subrange(0, i as int));
            assert(all.subrange(0, i + 1).last() == self.logs@[i as int]@);
            if same_text(self.logs[i].session_id.as_str(), session_id) {
                let e = self.logs[i].duplicate();
                out.push(e);
                assert(out@.map_values(|e: LogEntry| e@) =~= front.push(self.logs@[i as int]@));
            }
            i += 1;
        }
        assert(all.subrange(0, all.len() as int) =~= all);
        proof {
            assert forall|k: int| 0 <= k < out@.len() implies (#[trigger] out@[k]).session_id@
                == session_id@ by {
                assert(out@.map_values(|e: LogEntry| e@)[k] == out@[k]@);
            }
        }
        out
    }
}

proof fn lemma_logs_of_sorted(s: Seq<LogRecord>, session: Seq<char>)
    requires
        logs_sorted(s),
    ensures
        logs_sorted(logs_of(s, session)),
        forall|k: int| 0 <= k < logs_of(s, session).len() ==> (#[trigger] logs_of(s, session)[k]).session_id == session,
        forall|k: int| 0 <= k < logs_of(s, session).len() ==> exists|m: int| 0 <= m < s.len()
            && (#[trigger] logs_of(s, session)[k]) == s[m],
    decreases s.len(),
{
    if s.len() > 0 {
        let d = s.drop_last();
        assert(logs_sorted(d)) by {
            assert forall|i: int, j: int| 0 <= i <= j < d.len() implies (#[trigger] d[i]).timestamp
                <= (#[trigger] d[j]).timestamp by {
                assert(d[i] == s[i] && d[j] == s[j]);
            }
        }
        lemma_logs_of_sorted(d, session);
        let f = logs_of(d, session);
        assert forall|k: int| 0 <= k < f.len() implies (#[trigger] f[k]).timestamp <= s.last().timestamp by {
            let m = choose|m: int| 0 <= m < d.len() && f[k] == d[m];
            assert(d[m] == s[m]);
        }
        assert forall|k: int| 0 <= k < logs_of(s, session).len() implies exists|m: int|
            0 <= m < s.len() && (#[trigger] logs_of(s, session)[k]) == s[m] by {
            if k < f.len() {
                let m = choose|m: int| 0 <= m < d.len() && f[k] == d[m];
                assert(d[m] == s[m]);
                assert(logs_of(s, session)[k] == f[k]);
            } else {
                assert(logs_of(s, session)[k] == s[s.len() - 1]);
            }
        }
    }
}

proof fn lemma_stream_of_sorted(s: Seq<LogRecord>, kind: LogType)
    requires
        logs_sorted(s),
    ensures
        logs_sorted(stream_of(s, kind)),
        forall|k: int| 0 <= k < stream_of(s, kind).len() ==> exists|m: int| 0 <= m < s.len()
            && (#[trigger] stream_of(s, kind)[k]) == s[m],
    decreases s.len(),
{
    if s.len() > 0 {
        let d = s.drop_last();
        assert(logs_sorted(d)) by {
            assert forall|i: int, j: int| 0 <= i <= j < d.len() implies (#[trigger] d[i]).timestamp
                <= (#[trigger] d[j]).timestamp by {
                assert(d[i] == s[i] && d[j] == s[j]);
            }
        }
        lemma_stream_of_sorted(d, kind);
        let f = stream_of(d, kind);
        assert forall|k: int| 0 <= k < f.len() implies (#[trigger] f[k]).timestamp <= s.last().timestamp by {
            let m = choose|m: int| 0 <= m < d.len() && f[k] == d[m];
            assert(d[m] == s[m]);
        }
        assert forall|k: int| 0 <= k < stream_of(s, kind).len() implies exists|m: int|
            0 <= m < s.len() && (#[trigger] stream_of(s, kind)[k]) == s[m] by {
            if k < f.len() {
                let m = choose|m: int| 0 <= m < d.len() && f[k] == d[m];
                assert(d[m] == s[m]);
                assert(stream_of(s, kind)[k] == f[k]);
            } else {
                assert(stream_of(s, kind)[k] == s[s.len() - 1]);
            }
        }
    }
}

/// The entries that `list_logs` gives for a session, taken stream by stream, come in
/// non-decreasing timestamp order.
pub proof fn lemma_stream_order(store: &SessionStore, session: Seq<char>, kind: LogType)
    requires
        store.wf(),
    ensures
        logs_sorted(stream_of(logs_of(store.log_list(), session), kind)),
{
    lemma_logs_of_sorted(store.log_list(), session);
    lemma_stream_of_sorted(logs_of(store.log_list(), session), kind);
}

} // verus!
