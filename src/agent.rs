//! Agents launched directly as child processes: their state, turns and clock text.
use vstd::prelude::*;
use vstd::string::*;

use tokio::sync::mpsc;

use crate::keyed::{
    by_key, has_key, keys_unique, lemma_by_key_absent, lemma_by_key_at, lemma_by_key_push,
    lemma_by_key_update, Keyed,
};
use crate::log_store::{bounded, tail, OutputBuffer};
use crate::text::{has_prefix, starts_with};
use crate::worktree::views;

verus! {

/// What the direct adapter reports about a running agent.
#[derive(Debug, Clone)]
pub enum AgentEvent {
    OutputLine(String),
    StderrLine(String),
    TurnStarted { turn_number: i64 },
    TurnCompleted { turn_number: i64, output: String },
    ProcessStarted { pid: u32 },
    ProcessExited { exit_code: Option<i32> },
    Error(String),
}

#[derive(Debug, Clone, Copy, PartialEq, Eq, Structural)]
pub enum AgentProcessStatus {
    Starting,
    Running,
    Completed,
    Failed,
    Cancelled,
}

pub open spec fn agent_running(s: AgentProcessStatus) -> bool {
    s == AgentProcessStatus::Starting || s == AgentProcessStatus::Running
}

/// Why the direct adapter could not do what was asked.
#[derive(Debug, Clone)]
pub enum AgentError {
    SpawnFailed(String),
    NotFound(String),
    KillFailed(String),
    Io(String),
}

/// Lines of stdout kept per agent.
pub const STDOUT_LINES: usize = 10000;

/// Lines of stderr kept per agent.
pub const STDERR_LINES: usize = 1000;

/// `s` holds three dashes in a row.
pub open spec fn has_rule(s: Seq<char>) -> bool {
    exists|i: int| 0 <= i && i + 2 < s.len() && #[trigger] s[i] == '-' && s[i + 1] == '-' && s[i + 2] == '-'
}

/// A stdout line that opens a new turn of the agent: a rule or a level-two heading.
pub open spec fn opens_turn(line: Seq<char>) -> bool {
    has_rule(line) || has_prefix(line, "## "@)
}

pub fn is_turn_marker(line: &str) -> (r: bool)
    ensures
        r == opens_turn(line@),
{
    let n = line.unicode_len();
    let mut i: usize = 0;
    while n > 2 && i < n - 2
        invariant
            n == line@.len(),
            forall|k: int|
                0 <= k < i && k + 2 < n ==> !(#[trigger] line@[k] == '-' && line@[k + 1] == '-'
                    && line@[k + 2] == '-'),
        decreases n - i,
    {
        if line.get_char(i) == '-' && line.get_char(i + 1) == '-' && line.get_char(i + 2) == '-' {
            return true;
        }
        i += 1;
    }
    starts_with(line, "## ")
}

/// The character of a decimal digit.
pub open spec fn digit_char(d: nat) -> char {
    if d == 0 {
        '0'
    } else if d == 1 {
        '1'
    } else if d == 2 {
        '2'
    } else if d == 3 {
        '3'
    } else if d == 4 {
        '4'
    } else if d == 5 {
        '5'
    } else if d == 6 {
        '6'
    } else if d == 7 {
        '7'
    } else if d == 8 {
        '8'
    } else {
        '9'
    }
}

/// `n` written in decimal.
pub open spec fn decimal(n: nat) -> Seq<char>
    decreases n,
{
    if n < 10 {
        seq![digit_char(n)]
    } else {
        decimal(n / 10) + seq![digit_char(n % 10)]
    }
}

/// `n` in decimal, with zeros in front up to `width` characters.
pub open spec fn padded(n: nat, width: nat) -> Seq<char> {
    let d = decimal(n);
    if d.len() >= width {
        d
    } else {
        Seq::new((width - d.len()) as nat, |i: int| '0') + d
    }
}

fn digit(d: u64) -> (r: &'static str)
    requires
        d < 10,
    ensures
        r@ == seq![digit_char(d as nat)],
{
    proof {
        reveal_strlit("0");
        reveal_strlit("1");
        reveal_strlit("2");
        reveal_strlit("3");
        reveal_strlit("4");
        reveal_strlit("5");
        reveal_strlit("6");
        reveal_strlit("7");
        reveal_strlit("8");
        reveal_strlit("9");
    }
    match d {
        0 => "0",
        1 => "1",
        2 => "2",
        3 => "3",
        4 => "4",
        5 => "5",
        6 => "6",
        7 => "7",
        8 => "8",
        _ => "9",
    }
}

/// `n` in decimal.
pub fn decimal_string(n: u64) -> (r: String)
    ensures
        r@ == decimal(n as nat),
    decreases n,
{
    if n < 10 {
        String::from_str(digit(n))
    } else {
        let mut s = decimal_string(n / 10);
        s.append(digit(n % 10));
        s
    }
}

/// `n` in decimal, zero-padded to `width` characters.
pub fn padded_string(n: u64, width: usize) -> (r: String)
    ensures
        r@ == padded(n as nat, width as nat),
{
    let d = decimal_string(n);
    let len = d.as_str().unicode_len();
    if len >= width {
        return d;
    }
    proof {
        reveal_strlit("0");
    }
    let mut out = String::new();
    let mut i: usize = 0;
    while i < width - len
        invariant
            len <= width,
            i <= width - len,
            out@ == Seq::new(i as nat, |k: int| '0'),
        decreases width - len - i,
    {
        proof {
            reveal_strlit("0");
        }
        out.append("0");
        assert(out@ =~= Seq::new((i + 1) as nat, |k: int| '0'));
        i += 1;
    }
    out.append(d.as_str());
    out
}

/// Leap years of the Gregorian calendar.
pub open spec fn is_leap(y: nat) -> bool {
    (y % 4 == 0 && y % 100 != 0) || y % 400 == 0
}

pub open spec fn year_length(y: nat) -> nat {
    if is_leap(y) {
        366
    } else {
        365
    }
}

/// Days in month `m` (1 to 12) of year `y`.
pub open spec fn month_length(y: nat, m: nat) -> nat {
    if m == 2 {
        if is_leap(y) {
            29
        } else {
            28
        }
    } else if m == 4 || m == 6 || m == 9 || m == 11 {
        30
    } else {
        31
    }
}

/// The year of the day `days` days after 1 January of `y`, and its index within that year.
pub open spec fn year_and_day(days: nat, y: nat) -> (nat, nat)
    decreases days,
{
    if days < year_length(y) {
        (y, days)
    } else {
        year_and_day((days - year_length(y)) as nat, y + 1)
    }
}

/// The month (from `m` on) of the day with index `doy` from the first of month `m` of
/// year `y`, and its index within that month.
pub open spec fn month_and_day(doy: nat, y: nat, m: nat) -> (nat, nat)
    decreases 12 - m,
{
    if m >= 12 || doy < month_length(y, m) {
        (m, doy)
    } else {
        month_and_day((doy - month_length(y, m)) as nat, y, m + 1)
    }
}

/// The UTC date and time `secs` seconds after the epoch: `YYYY-MM-DD hh:mm:ss`.
pub open spec fn clock_text(secs: nat) -> Seq<char> {
    let (y, doy) = year_and_day(secs / 86400, 1970);
    let (m, d) = month_and_day(doy, y, 1);
    padded(y, 4) + "-"@ + padded(m, 2) + "-"@ + padded(d + 1, 2) + " "@ + padded(
        (secs % 86400) / 3600,
        2,
    ) + ":"@ + padded((secs % 3600) / 60, 2) + ":"@ + padded(secs % 60, 2)
}

fn leap(y: u64) -> (r: bool)
    ensures
        r == is_leap(y as nat),
{
    (y % 4 == 0 && y % 100 != 0) || y % 400 == 0
}

fn year_len(y: u64) -> (r: u64)
    ensures
        r == year_length(y as nat),
{
    if leap(y) {
        366
    } else {
        365
    }
}

fn month_len(y: u64, m: u64) -> (r: u64)
    ensures
        r == month_length(y as nat, m as nat),
{
    if m == 2 {
        if leap(y) {
            29
        } else {
            28
        }
    } else if m == 4 || m == 6 || m == 9 || m == 11 {
        30
    } else {
        31
    }
}

pub fn clock_string(secs: u64) -> (r: String)
    ensures
        r@ == clock_text(secs as nat),
{
    let total = secs / 86400;
    let mut days = total;
    let mut y: u64 = 1970;
    while days >= year_len(y)
        invariant
            days <= total,
            total == secs / 86400,
            1970 <= y <= 1970 + (total - days),
            year_and_day(days as nat, y as nat) == year_and_day(total as nat, 1970),
        decreases days,
    {
        days = days - year_len(y);
        y = y + 1;
    }
    let doy = days;
    let mut m: u64 = 1;
    let mut d = doy;
    while m < 12 && d >= month_len(y, m)
        invariant
            1 <= m <= 12,
            d <= doy,
            month_and_day(d as nat, y as nat, m as nat) == month_and_day(doy as nat, y as nat, 1),
        decreases 12 - m,
    {
        d = d - month_len(y, m);
        m = m + 1;
    }
    let mut r = padded_string(y, 4);
    r.append("-");
    r.append(padded_string(m, 2).as_str());
    r.append("-");
    r.append(padded_string(d + 1, 2).as_str());
    r.append(" ");
    r.append(padded_string((secs % 86400) / 3600, 2).as_str());
    r.append(":");
    r.append(padded_string((secs % 3600) / 60, 2).as_str());
    r.append(":");
    r.append(padded_string(secs % 60, 2).as_str());
    r
}

/// Relies on chrono's `Utc::now` and `DateTime::timestamp`: whole seconds since the epoch.
/// `now` reads the system clock as a duration since the epoch and panics before it, so
/// what comes back is not negative.
#[verifier::external_body]
fn unix_seconds_now() -> (r: i64)
    ensures
        r >= 0,
{
    chrono::Utc::now().timestamp()
}

/// The current UTC date and time as clock text.
pub fn chrono_now() -> (r: String)
    ensures
        exists|secs: nat| r@ == clock_text(secs),
{
    let t = unix_seconds_now();
    clock_string(t as u64)
}

/// The id of the row that records a finished turn: `<execution>-turn-<n>`.
pub fn turn_id(execution_id: &str, turn_number: u64) -> (r: String)
    ensures
        r@ == execution_id@ + "-turn-"@ + decimal(turn_number as nat),
{
    let mut r = execution_id.to_owned();
    r.append("-turn-");
    r.append(decimal_string(turn_number).as_str());
    r
}

/// What the stdout reader of an agent accumulates: the turns it saw and the whole output.
pub struct StdoutPump {
    turn_number: i64,
    output: String,
}

impl StdoutPump {
    pub closed spec fn turns(&self) -> int {
        self.turn_number as int
    }

    pub closed spec fn text(&self) -> Seq<char> {
        self.output@
    }

    pub fn new() -> (r: Self)
        ensures
            r.turns() == 0,
            r.text() == Seq::<char>::empty(),
    {
        StdoutPump { turn_number: 0, output: String::new() }
    }

    /// Takes one stdout line; gives the number of the turn it opens, if it opens one.
    pub fn on_line(&mut self, line: &str) -> (r: Option<i64>)
        requires
            0 <= old(self).turns(),
        ensures
            final(self).text() == old(self).text() + line@ + "\n"@,
            opens_turn(line@) ==> final(self).turns() == if old(self).turns() < i64::MAX {
                old(self).turns() + 1
            } else {
                old(self).turns()
            } && r == Some(final(self).turns() as i64),
            !opens_turn(line@) ==> final(self).turns() == old(self).turns() && r is None,
            0 <= final(self).turns(),
    {
        self.output.append(line);
        self.output.append("\n");
        if is_turn_marker(line) {
            if self.turn_number < i64::MAX {
                self.turn_number = self.turn_number + 1;
            }
            Some(self.turn_number)
        } else {
            None
        }
    }

    /// The turn that the output closes when stdout ends: numbered at least one.
    pub fn final_turn(&self) -> (r: i64)
        ensures
            r == if self.turns() < 1 {
                1
            } else {
                self.turns()
            },
    {
        if self.turn_number < 1 {
            1
        } else {
            self.turn_number
        }
    }

    /// All that stdout printed, one line per line.
    pub fn output(&self) -> (r: String)
        ensures
            r@ == self.text(),
    {
        self.output.clone()
    }
}

/// Whether an event ends a wait for completion: an exit means "read the status", an
/// error means failure.
#[derive(Debug, Clone, Copy, PartialEq, Eq, Structural)]
pub enum WaitStep {
    KeepWaiting,
    ReadStatus,
    Failed,
}

pub fn wait_step(event: &AgentEvent) -> (r: WaitStep)
    ensures
        r == match event {
            AgentEvent::ProcessExited { .. } => WaitStep::ReadStatus,
            AgentEvent::Error(_) => WaitStep::Failed,
            _ => WaitStep::KeepWaiting,
        },
{
    match event {
        AgentEvent::ProcessExited { .. } => WaitStep::ReadStatus,
        AgentEvent::Error(_) => WaitStep::Failed,
        _ => WaitStep::KeepWaiting,
    }
}

/// The status an agent ends in when its process exits with `exit_code`.
pub open spec fn exit_status(exit_code: Option<i32>) -> AgentProcessStatus {
    if exit_code == Some(0i32) {
        AgentProcessStatus::Completed
    } else {
        AgentProcessStatus::Failed
    }
}

struct RunningAgent {
    execution_id: String,
    status: AgentProcessStatus,
    current_turn: i64,
    stdout_buffer: OutputBuffer,
    stderr_buffer: OutputBuffer,
    cancel_tx: Option<mpsc::Sender<()>>,
}

/// A running agent as plain values.
pub struct AgentView {
    pub execution_id: Seq<char>,
    pub status: AgentProcessStatus,
    pub current_turn: i64,
    pub stdout: Seq<Seq<char>>,
    pub stderr: Seq<Seq<char>>,
    pub has_cancel: bool,
}

impl RunningAgent {
    spec fn view_of(&self) -> AgentView {
        AgentView {
            execution_id: self.execution_id@,
            status: self.status,
            current_turn: self.current_turn,
            stdout: self.stdout_buffer.contents(),
            stderr: self.stderr_buffer.contents(),
            has_cancel: self.cancel_tx is Some,
        }
    }

    spec fn ok(&self) -> bool {
        &&& self.stdout_buffer.wf()
        &&& self.stderr_buffer.wf()
        &&& self.stdout_buffer.max() == STDOUT_LINES
        &&& self.stderr_buffer.max() == STDERR_LINES
    }
}

/// Only the running entries of `s`, in order.
pub open spec fn running_only(s: Keyed<AgentView>) -> Keyed<AgentView>
    decreases s.len(),
{
    if s.len() == 0 {
        s
    } else {
        let front = running_only(s.drop_last());
        if agent_running(s.last().1.status) {
            front.push(s.last())
        } else {
            front
        }
    }
}

proof fn lemma_running_only(s: Keyed<AgentView>)
    requires
        keys_unique(s),
    ensures
        keys_unique(running_only(s)),
        forall|k: Seq<char>| #[trigger]
            by_key(running_only(s)).contains_key(k) <==> by_key(s).contains_key(k) && agent_running(
                by_key(s)[k].status,
            ),
        forall|k: Seq<char>| #[trigger]
            by_key(running_only(s)).contains_key(k) ==> by_key(running_only(s))[k] == by_key(s)[k],
    decreases s.len(),
{
    if s.len() == 0 {
        assert(by_key(s) =~= Map::<Seq<char>, AgentView>::empty());
    } else {
        let d = s.drop_last();
        let x = s.last();
        assert(s =~= d.push(x));
        assert(keys_unique(d)) by {
            assert forall|i: int, j: int|
                0 <= i < d.len() && 0 <= j < d.len() && i != j implies (#[trigger] d[i]).0 != (
                #[trigger] d[j]).0 by {
                assert(d[i] == s[i] && d[j] == s[j]);
            }
        }
        assert(!by_key(d).contains_key(x.0)) by {
            if has_key(d, x.0) {
                let i = choose|i: int| 0 <= i < d.len() && (#[trigger] d[i]).0 == x.0;
                assert(s[i] == d[i]);
                assert(s[s.len() - 1] == x);
            }
        }
        lemma_running_only(d);
        lemma_by_key_push(d, x.0, x.1);
        if agent_running(x.1.status) {
            lemma_by_key_push(running_only(d), x.0, x.1);
        }
    }
}

/// The agents the direct adapter runs, by session id.
pub struct AgentProcessManager {
    agents: Vec<(String, RunningAgent)>,
}

impl AgentProcessManager {
    pub closed spec fn agent_seq(&self) -> Keyed<AgentView> {
        self.agents@.map_values(|p: (String, RunningAgent)| (p.0@, p.1.view_of()))
    }

    /// The running agents by session id.
    pub open spec fn agents(&self) -> Map<Seq<char>, AgentView> {
        by_key(self.agent_seq())
    }

    pub closed spec fn wf(&self) -> bool {
        &&& keys_unique(self.agent_seq())
        &&& forall|i: int| 0 <= i < self.agents@.len() ==> (#[trigger] self.agents@[i]).1.ok()
    }

    proof fn lemma_at(&self, i: int)
        requires
            keys_unique(self.agent_seq()),
            0 <= i < self.agents@.len(),
        ensures
            self.agents().contains_key(self.agents@[i].0@),
            self.agents()[self.agents@[i].0@] == self.agents@[i].1.view_of(),
    {
        assert(self.agent_seq()[i] == (self.agents@[i].0@, self.agents@[i].1.view_of()));
        lemma_by_key_at(self.agent_seq(), i);
    }

    fn find(&self, session_id: &str) -> (r: Option<usize>)
        requires
            self.wf(),
        ensures
            r is None <==> !self.agents().contains_key(session_id@),
            r matches Some(i) ==> i < self.agents@.len() && self.agents@[i as int].0@ == session_id@
                && self.agents()[session_id@] == self.agents@[i as int].1.view_of(),
    {
        let mut i: usize = 0;
        while i < self.agents.len()
            invariant
                self.wf(),
                i <= self.agents@.len(),
                forall|k: int| 0 <= k < i ==> (#[trigger] self.agent_seq()[k]).0 != session_id@,
            decreases self.agents@.len() - i,
        {
            assert(self.agent_seq()[i as int].0 == self.agents@[i as int].0@);
            if crate::text::same_text(self.agents[i].0.as_str(), session_id) {
                proof {
                    self.lemma_at(i as int);
                }
                return Some(i);
            }
            i += 1;
        }
        proof {
            lemma_by_key_absent(self.agent_seq(), session_id@);
        }
        None
    }

    proof fn lemma_replace(before: &Self, after: &Self, i: int, a: RunningAgent)
        requires
            before.wf(),
            0 <= i < before.agents@.len(),
            after.agents@ == before.agents@.update(i, (before.agents@[i].0, a)),
            a.ok(),
        ensures
            after.wf(),
            after.agents() == before.agents().insert(before.agents@[i].0@, a.view_of()),
    {
        let k = before.agents@[i].0@;
        assert(after.agent_seq() =~= before.agent_seq().update(i, (k, a.view_of())));
        assert(before.agent_seq()[i].0 == k);
        lemma_by_key_update(before.agent_seq(), i, a.view_of());
        assert forall|j: int| 0 <= j < after.agents@.len() implies (#[trigger] after.agents@[j]).1.ok() by {
            if j != i {
                assert(after.agents@[j] == before.agents@[j]);
            }
        }
    }

    pub fn new() -> (r: Self)
        ensures
            r.wf(),
            r.agents() == Map::<Seq<char>, AgentView>::empty(),
    {
        let r = AgentProcessManager { agents: Vec::new() };
        assert(r.agent_seq() =~= Seq::<(Seq<char>, AgentView)>::empty());
        assert(r.agents() =~= Map::<Seq<char>, AgentView>::empty());
        r
    }

    /// An agent just launched for a session: starting, at turn zero, with empty buffers.
    pub open spec fn starting(execution_id: Seq<char>, has_cancel: bool) -> AgentView {
        AgentView {
            execution_id,
            status: AgentProcessStatus::Starting,
            current_turn: 0,
            stdout: Seq::empty(),
            stderr: Seq::empty(),
            has_cancel,
        }
    }

    /// Follows a just-launched agent under its session id, replacing any earlier one.
    pub fn register(
        &mut self,
        session_id: &str,
        execution_id: &str,
        cancel_tx: Option<mpsc::Sender<()>>,
    )
        requires
            old(self).wf(),
        ensures
            final(self).wf(),
            final(self).agents() == old(self).agents().insert(
                session_id@,
                Self::starting(execution_id@, cancel_tx is Some),
            ),
    {
        let ghost has_cancel = cancel_tx is Some;
        let a = RunningAgent {
            execution_id: execution_id.to_owned(),
            status: AgentProcessStatus::Starting,
            current_turn: 0,
            stdout_buffer: OutputBuffer::new(STDOUT_LINES),
            stderr_buffer: OutputBuffer::new(STDERR_LINES),
            cancel_tx,
        };
        assert(a.view_of() == Self::starting(execution_id@, has_cancel));
        match self.find(session_id) {
            Some(i) => {
                let (key, _earlier) = self.agents.remove(i);
                self.agents.insert(i, (key, a));
                proof {
                    assert(self.agents@ =~= old(self).agents@.update(i as int, (old(self).agents@[i as int].0, a)));
                    Self::lemma_replace(old(self), self, i as int, a);
                }
            },
            None => {
                let ghost before = self.agent_seq();
                self.agents.push((session_id.to_owned(), a));
                proof {
                    assert(self.agent_seq() =~= before.push((session_id@, a.view_of())));
                    lemma_by_key_push(before, session_id@, a.view_of());
                    assert forall|j: int| 0 <= j < self.agents@.len() implies (#[trigger] self.agents@[j]).1.ok() by {
                        if j < old(self).agents@.len() {
                            assert(self.agents@[j] == old(self).agents@[j]);
                        }
                    }
                }
            },
        }
    }

    /// A stdout line of an agent: kept (the oldest dropped past the bound), and a starting
    /// agent marked running; an agent that has ended keeps its status. False, with nothing changed, for an unknown session.
    pub fn record_stdout(&mut self, session_id: &str, line: String) -> (r: bool)
        requires
            old(self).wf(),
        ensures
            final(self).wf(),
            r == old(self).agents().contains_key(session_id@),
            r ==> final(self).agents() == old(self).agents().insert(
                session_id@,
                AgentView {
                    stdout: bounded(old(self).agents()[session_id@].stdout.push(line@), STDOUT_LINES as nat),
                    status: if old(self).agents()[session_id@].status == AgentProcessStatus::Starting {
                        AgentProcessStatus::Running
                    } else {
                        old(self).agents()[session_id@].status
                    },
                    ..old(self).agents()[session_id@]
                },
            ),
            !r ==> final(self).agents() == old(self).agents(),
    {
        match self.find(session_id) {
            None => false,
            Some(i) => {
                let (key, mut a) = self.agents.remove(i);
                proof {
                    assert(old(self).agents@[i as int].1.ok());
                }
                a.stdout_buffer.push(line);
                if a.status == AgentProcessStatus::Starting {
                    a.status = AgentProcessStatus::Running;
                }
                self.agents.insert(i, (key, a));
                proof {
                    assert(self.agents@ =~= old(self).agents@.update(i as int, (old(self).agents@[i as int].0, a)));
                    Self::lemma_replace(old(self), self, i as int, a);
                }
                true
            },
        }
    }

    /// A stderr line of an agent, kept like stdout lines.
    pub fn record_stderr(&mut self, session_id: &str, line: String) -> (r: bool)
        requires
            old(self).wf(),
        ensures
            final(self).wf(),
            r == old(self).agents().contains_key(session_id@),
            r ==> final(self).agents() == old(self).agents().insert(
                session_id@,
                AgentView {
                    stderr: bounded(old(self).agents()[session_id@].stderr.push(line@), STDERR_LINES as nat),
                    ..old(self).agents()[session_id@]
                },
            ),
            !r ==> final(self).agents() == old(self).agents(),
    {
        match self.find(session_id) {
            None => false,
            Some(i) => {
                let (key, mut a) = self.agents.remove(i);
                proof {
                    assert(old(self).agents@[i as int].1.ok());
                }
                a.stderr_buffer.push(line);
                self.agents.insert(i, (key, a));
                proof {
                    assert(self.agents@ =~= old(self).agents@.update(i as int, (old(self).agents@[i as int].0, a)));
                    Self::lemma_replace(old(self), self, i as int, a);
                }
                true
            },
        }
    }

    /// The turn an agent is in.
    pub fn set_turn(&mut self, session_id: &str, turn_number: i64) -> (r: bool)
        requires
            old(self).wf(),
        ensures
            final(self).wf(),
            r == old(self).agents().contains_key(session_id@),
            r ==> final(self).agents() == old(self).agents().insert(
                session_id@,
                AgentView { current_turn: turn_number, ..old(self).agents()[session_id@] },
            ),
            !r ==> final(self).agents() == old(self).agents(),
    {
        match self.find(session_id) {
            None => false,
            Some(i) => {
                let (key, mut a) = self.agents.remove(i);
                proof {
                    assert(old(self).agents@[i as int].1.ok());
                }
                a.current_turn = turn_number;
                self.agents.insert(i, (key, a));
                proof {
                    assert(self.agents@ =~= old(self).agents@.update(i as int, (old(self).agents@[i as int].0, a)));
                    Self::lemma_replace(old(self), self, i as int, a);
                }
                true
            },
        }
    }

    /// The agent's process ended: exit code zero completes it, anything else fails it;
    /// `cancelled` marks an agent stopped on request.
    pub fn record_exit(&mut self, session_id: &str, exit_code: Option<i32>, cancelled: bool) -> (r: bool)
        requires
            old(self).wf(),
        ensures
            final(self).wf(),
            r == old(self).agents().contains_key(session_id@),
            r ==> final(self).agents() == old(self).agents().insert(
                session_id@,
                AgentView {
                    status: if cancelled {
                        AgentProcessStatus::Cancelled
                    } else {
                        exit_status(exit_code)
                    },
                    ..old(self).agents()[session_id@]
                },
            ),
            !r ==> final(self).agents() == old(self).agents(),
    {
        match self.find(session_id) {
            None => false,
            Some(i) => {
                let (key, mut a) = self.agents.remove(i);
                proof {
                    assert(old(self).agents@[i as int].1.ok());
                }
                a.status = if cancelled {
                    AgentProcessStatus::Cancelled
                } else if exit_code == Some(0i32) {
                    AgentProcessStatus::Completed
                } else {
                    AgentProcessStatus::Failed
                };
                self.agents.insert(i, (key, a));
                proof {
                    assert(self.agents@ =~= old(self).agents@.update(i as int, (old(self).agents@[i as int].0, a)));
                    Self::lemma_replace(old(self), self, i as int, a);
                }
                true
            },
        }
    }

    /// Takes the cancel sender of an agent, to signal it; refused for an unknown session.
    pub fn kill_agent(&mut self, session_id: &str) -> (r: Result<Option<mpsc::Sender<()>>, AgentError>)
        requires
            old(self).wf(),
        ensures
            final(self).wf(),
            r.is_err() <==> !old(self).agents().contains_key(session_id@),
            r matches Err(e) ==> (e matches AgentError::NotFound(m) && m@ == session_id@),
            r matches Ok(c) ==> (c is Some) == old(self).agents()[session_id@].has_cancel
                && final(self).agents() == old(self).agents().insert(
                session_id@,
                AgentView { has_cancel: false, ..old(self).agents()[session_id@] },
            ),
            r.is_err() ==> final(self).agents() == old(self).agents(),
    {
        match self.find(session_id) {
            None => Err(AgentError::NotFound(session_id.to_owned())),
            Some(i) => {
                let (key, mut a) = self.agents.remove(i);
                proof {
                    assert(old(self).agents@[i as int].1.ok());
                }
                let cancel = a.cancel_tx.take();
                self.agents.insert(i, (key, a));
                proof {
                    assert(self.agents@ =~= old(self).agents@.update(i as int, (old(self).agents@[i as int].0, a)));
                    Self::lemma_replace(old(self), self, i as int, a);
                }
                Ok(cancel)
            },
        }
    }

    pub fn get_status(&self, session_id: &str) -> (r: Option<AgentProcessStatus>)
        requires
            self.wf(),
        ensures
            r is Some <==> self.agents().contains_key(session_id@),
            r matches Some(s) ==> s == self.agents()[session_id@].status,
    {
        match self.find(session_id) {
            None => None,
            Some(i) => Some(self.agents[i].1.status),
        }
    }

    pub fn get_current_turn(&self, session_id: &str) -> (r: Option<i64>)
        requires
            self.wf(),
        ensures
            r is Some <==> self.agents().contains_key(session_id@),
            r matches Some(t) ==> t == self.agents()[session_id@].current_turn,
    {
        match self.find(session_id) {
            None => None,
            Some(i) => Some(self.agents[i].1.current_turn),
        }
    }

    pub fn get_stdout_buffer(&self, session_id: &str) -> (r: Option<Vec<String>>)
        requires
            self.wf(),
        ensures
            r is Some <==> self.agents().contains_key(session_id@),
            r matches Some(v) ==> v@.map_values(|l: String| l@) == self.agents()[session_id@].stdout,
    {
        match self.find(session_id) {
            None => None,
            Some(i) => Some(self.agents[i].1.stdout_buffer.get_all()),
        }
    }

    pub fn get_stderr_buffer(&self, session_id: &str) -> (r: Option<Vec<String>>)
        requires
            self.wf(),
        ensures
            r is Some <==> self.agents().contains_key(session_id@),
            r matches Some(v) ==> v@.map_values(|l: String| l@) == self.agents()[session_id@].stderr,
    {
        match self.find(session_id) {
            None => None,
            Some(i) => Some(self.agents[i].1.stderr_buffer.get_all()),
        }
    }

    /// The last `lines` stdout lines of an agent.
    pub fn get_recent_output(&self, session_id: &str, lines: usize) -> (r: Option<Vec<String>>)
        requires
            self.wf(),
        ensures
            r is Some <==> self.agents().contains_key(session_id@),
            r matches Some(v) ==> v@.map_values(|l: String| l@) == tail(
                self.agents()[session_id@].stdout,
                lines as nat,
            ),
    {
        match self.find(session_id) {
            None => None,
            Some(i) => Some(self.agents[i].1.stdout_buffer.get_recent(lines)),
        }
    }

    /// Whether the session's agent is starting or running.
    pub fn is_running(&self, session_id: &str) -> (r: bool)
        requires
            self.wf(),
        ensures
            r == (self.agents().contains_key(session_id@) && agent_running(
                self.agents()[session_id@].status,
            )),
    {
        match self.find(session_id) {
            None => false,
            Some(i) => {
                let s = self.agents[i].1.status;
                s == AgentProcessStatus::Starting || s == AgentProcessStatus::Running
            },
        }
    }

    /// Forgets every agent that is no longer starting or running.
    pub fn cleanup_finished(&mut self)
        requires
            old(self).wf(),
        ensures
            final(self).wf(),
            forall|k: Seq<char>| #[trigger]
                final(self).agents().contains_key(k) <==> old(self).agents().contains_key(k)
                    && agent_running(old(self).agents()[k].status),
            forall|k: Seq<char>| #[trigger]
                final(self).agents().contains_key(k) ==> final(self).agents()[k] == old(
                    self,
                ).agents()[k],
    {
        let ghost all = self.agent_seq();
        let mut rest: Vec<(String, RunningAgent)> = Vec::new();
        std::mem::swap(&mut self.agents, &mut rest);
        let total = rest.len();
        let ghost n = rest@.len();
        let mut done: usize = 0;
        while rest.len() > 0
            invariant
                all == old(self).agent_seq(),
                total == n,
                n == all.len(),
                done + rest@.len() == n,
                rest@.map_values(|p: (String, RunningAgent)| (p.0@, p.1.view_of())) == all.subrange(
                    done as int,
                    n as int,
                ),
                forall|j: int| 0 <= j < rest@.len() ==> (#[trigger] rest@[j]).1.ok(),
                forall|j: int| 0 <= j < self.agents@.len() ==> (#[trigger] self.agents@[j]).1.ok(),
                self.agent_seq() == running_only(all.subrange(0, done as int)),
            decreases rest@.len(),
        {
            let ghost front = self.agent_seq();
            let ghost rest_before = rest@;
            let p = rest.remove(0);
            let ghost x = (p.0@, p.1.view_of());
            proof {
                assert(rest_before[0] == p);
                assert(all.subrange(done as int, n as int)[0] == x);
                assert(all[done as int] == x);
                assert(all.subrange(0, done + 1).drop_last() =~= all.subrange(0, done as int));
                assert(all.subrange(0, done + 1).last() == x);
                assert(rest@ =~= rest_before.subrange(1, rest_before.len() as int));
                let mb = rest_before.map_values(|p: (String, RunningAgent)| (p.0@, p.1.view_of()));
                let ma = rest@.map_values(|p: (String, RunningAgent)| (p.0@, p.1.view_of()));
                assert forall|j: int| 0 <= j < ma.len() implies #[trigger] ma[j] == all.subrange(
                    done + 1,
                    n as int,
                )[j] by {
                    assert(rest@[j] == rest_before[j + 1]);
                    assert(ma[j] == mb[j + 1]);
                    assert(mb[j + 1] == all.subrange(done as int, n as int)[j + 1]);
                }
                assert(rest@.map_values(|p: (String, RunningAgent)| (p.0@, p.1.view_of())) =~= all.subrange(
                    done + 1,
                    n as int,
                ));
            }
            if p.1.status == AgentProcessStatus::Starting || p.1.status == AgentProcessStatus::Running {
                self.agents.push(p);
                assert(self.agent_seq() =~= front.push(x));
            }
            done += 1;
        }
        proof {
            assert(all.subrange(0, n as int) =~= all);
            assert forall|i: int| 0 <= i < all.len() implies #[trigger] all[i] == old(self).agent_seq()[i] by {}
            lemma_running_only(all);
        }
    }

    /// The session ids of the agents starting or running, each once.
    pub fn list_running(&self) -> (r: Vec<String>)
        requires
            self.wf(),
        ensures
            forall|k: Seq<char>|
                #[trigger] views(r@).contains(k) <==> self.agents().contains_key(k)
                    && agent_running(self.agents()[k].status),
            views(r@).no_duplicates(),
    {
        let mut out: Vec<String> = Vec::new();
        let mut i: usize = 0;
        while i < self.agents.len()
            invariant
                self.wf(),
                i <= self.agents@.len(),
                forall|k: Seq<char>|
                    #[trigger] views(out@).contains(k) <==> exists|j: int|
                        0 <= j < i && (#[trigger] self.agents@[j]).0@ == k && agent_running(
                            self.agents@[j].1.status,
                        ),
                views(out@).no_duplicates(),
            decreases self.agents@.len() - i,
        {
            let ghost before = views(out@);
            let s = self.agents[i].1.status;
            if s == AgentProcessStatus::Starting || s == AgentProcessStatus::Running {
                let id = self.agents[i].0.clone();
                proof {
                    if before.contains(id@) {
                        let j = choose|j: int|
                            0 <= j < i && (#[trigger] self.agents@[j]).0@ == id@ && agent_running(
                                self.agents@[j].1.status,
                            );
                        assert(self.agent_seq()[j].0 == self.agents@[j].0@);
                        assert(self.agent_seq()[i as int].0 == self.agents@[i as int].0@);
                    }
                    assert forall|a: int| 0 <= a < before.len() implies before[a] != id@ by {
                        if before[a] == id@ {
                            assert(before.contains(id@));
                        }
                    }
                }
                out.push(id);
                proof {
                    assert(views(out@) =~= before.push(id@));
                }
            }
            proof {
                assert forall|k: Seq<char>|
                    #[trigger] views(out@).contains(k) <==> exists|j: int|
                        0 <= j < i + 1 && (#[trigger] self.agents@[j]).0@ == k && agent_running(
                            self.agents@[j].1.status,
                        ) by {
                    if views(out@).contains(k) && !before.contains(k) {
                        assert(self.agents@[i as int].0@ == k);
                    }
                    if exists|j: int|
                        0 <= j < i + 1 && (#[trigger] self.agents@[j]).0@ == k && agent_running(
                            self.agents@[j].1.status,
                        ) {
                        let j = choose|j: int|
                            0 <= j < i + 1 && (#[trigger] self.agents@[j]).0@ == k && agent_running(
                                self.agents@[j].1.status,
                            );
                        if j == i {
                            assert(views(out@)[out@.len() - 1] == k);
                        } else {
                            assert(before.contains(k));
                            let a = choose|a: int| 0 <= a < before.len() && before[a] == k;
                            assert(views(out@)[a] == k);
                        }
                    }
                }
            }
            i += 1;
        }
        proof {
            assert forall|k: Seq<char>|
                #[trigger] views(out@).contains(k) <==> self.agents().contains_key(k)
                    && agent_running(self.agents()[k].status) by {
                if self.agents().contains_key(k) {
                    let j = choose|j: int| 0 <= j < self.agent_seq().len() && (#[trigger] self.agent_seq()[j]).0 == k;
                    self.lemma_at(j);
                }
                if views(out@).contains(k) {
                    let j = choose|j: int|
                        0 <= j < i && (#[trigger] self.agents@[j]).0@ == k && agent_running(
                            self.agents@[j].1.status,
                        );
                    self.lemma_at(j);
                }
            }
        }
        out
    }
}

} // verus!
