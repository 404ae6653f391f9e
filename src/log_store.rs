//! Bounded output buffers and the per-session output feed with its broadcast.
use vstd::prelude::*;

use tokio::sync::broadcast;

verus! {

/// tokio's `broadcast::Sender`, carried opaquely: the sending half of a session's feed.
#[verifier::external_type_specification]
#[verifier::external_body]
#[verifier::reject_recursive_types(T)]
pub struct ExBroadcastSender<T>(broadcast::Sender<T>);

/// tokio's `broadcast::Receiver`, carried opaquely: what a subscriber reads the feed from.
#[verifier::external_type_specification]
#[verifier::external_body]
#[verifier::reject_recursive_types(T)]
pub struct ExBroadcastReceiver<T>(broadcast::Receiver<T>);

/// Relies on tokio's `broadcast::Sender::new`: a channel with no receiver yet that keeps at
/// least `capacity` unread messages per receiver; it panics on zero and above `usize::MAX / 2`.
#[verifier::external_body]
fn broadcast_sender(capacity: usize) -> (r: broadcast::Sender<LogMsg>)
    requires
        0 < capacity <= usize::MAX / 2,
{
    broadcast::Sender::new(capacity)
}

/// Relies on tokio's `broadcast::Sender::send`; with no receiver the message is dropped,
/// which is not an error here.
#[verifier::external_body]
fn broadcast_send(tx: &broadcast::Sender<LogMsg>, msg: LogMsg) {
    let _ = tx.send(msg);
}

/// Relies on tokio's `broadcast::Sender::subscribe`: a receiver of what is sent from now on.
#[verifier::external_body]
fn broadcast_subscribe(tx: &broadcast::Sender<LogMsg>) -> (r: broadcast::Receiver<LogMsg>) {
    tx.subscribe()
}

/// Unread messages a subscriber may fall behind by before it is told it lagged.
pub const BROADCAST_CAPACITY: usize = 1024;

/// Messages a session's store keeps by default.
pub const DEFAULT_STORE_CAPACITY: usize = 10000;

/// `s` with its oldest element dropped once it is longer than `max`.
pub open spec fn bounded<T>(s: Seq<T>, max: nat) -> Seq<T> {
    if s.len() > max {
        s.drop_first()
    } else {
        s
    }
}

/// The last `k` elements of `s` (all of them if it is shorter).
pub open spec fn tail<T>(s: Seq<T>, k: nat) -> Seq<T> {
    if k >= s.len() {
        s
    } else {
        s.subrange(s.len() - k, s.len() as int)
    }
}

/// The last lines that a stream printed, at most `max_lines` of them.
pub struct OutputBuffer {
    lines: Vec<String>,
    max_lines: usize,
}

impl OutputBuffer {
    pub closed spec fn contents(&self) -> Seq<Seq<char>> {
        self.lines@.map_values(|l: String| l@)
    }

    pub closed spec fn max(&self) -> nat {
        self.max_lines as nat
    }

    pub closed spec fn wf(&self) -> bool {
        self.lines@.len() <= self.max_lines
    }

    pub fn new(max_lines: usize) -> (r: Self)
        ensures
            r.wf(),
            r.max() == max_lines,
            r.contents() == Seq::<Seq<char>>::empty(),
    {
        let r = OutputBuffer { lines: Vec::new(), max_lines };
        assert(r.contents() =~= Seq::<Seq<char>>::empty());
        r
    }

    /// Appends `line`, dropping the oldest line when the buffer is over its bound.
    pub fn push(&mut self, line: String)
        requires
            old(self).wf(),
        ensures
            final(self).wf(),
            final(self).max() == old(self).max(),
            final(self).contents() == bounded(old(self).contents().push(line@), old(self).max()),
    {
        let ghost before = self.contents();
        self.lines.push(line);
        assert(self.contents() =~= before.push(line@));
        if self.lines.len() > self.max_lines {
            self.lines.remove(0);
            assert(self.contents() =~= before.push(line@).drop_first());
        }
    }

    fn copy_range(&self, start: usize) -> (r: Vec<String>)
        requires
            start <= self.lines@.len(),
        ensures
            r@.map_values(|l: String| l@) == self.contents().subrange(
                start as int,
                self.lines@.len() as int,
            ),
    {
        let mut out: Vec<String> = Vec::new();
        let mut i: usize = start;
        while i < self.lines.len()
            invariant
                start <= i <= self.lines@.len(),
                out@.map_values(|l: String| l@) == self.contents().subrange(start as int, i as int),
            decreases self.lines@.len() - i,
        {
            let ghost before = out@.map_values(|l: String| l@);
            let line = self.lines[i].clone();
            assert(line@ == self.contents()[i as int]);
            out.push(line);
            assert(out@.map_values(|l: String| l@) =~= before.push(line@));
            assert(out@.map_values(|l: String| l@) =~= self.contents().subrange(
                start as int,
                i + 1,
            ));
            i += 1;
        }
        out
    }

    /// Every line held, oldest first.
    pub fn get_all(&self) -> (r: Vec<String>)
        ensures
            r@.map_values(|l: String| l@) == self.contents(),
    {
        let r = self.copy_range(0);
        assert(self.contents().subrange(0, self.lines@.len() as int) =~= self.contents());
        r
    }

    /// The last `count` lines held, oldest first.
    pub fn get_recent(&self, count: usize) -> (r: Vec<String>)
        ensures
            r@.map_values(|l: String| l@) == tail(self.contents(), count as nat),
    {
        let start = self.lines.len().saturating_sub(count);
        let r = self.copy_range(start);
        assert(self.contents().subrange(0, self.lines@.len() as int) =~= self.contents());
        r
    }

    pub fn clear(&mut self)
        requires
            old(self).wf(),
        ensures
            final(self).wf(),
            final(self).max() == old(self).max(),
            final(self).contents() == Seq::<Seq<char>>::empty(),
    {
        self.lines.clear();
        assert(self.contents() =~= Seq::<Seq<char>>::empty());
    }
}

/// One message of a session's output feed.
#[derive(Debug, Clone)]
pub enum LogMsg {
    Stdout(String),
    Stderr(String),
    Event(String),
    SessionId(String),
    Finished,
}

impl LogMsg {
    /// An equal message.
    pub fn duplicate(&self) -> (r: LogMsg)
        ensures
            r == *self,
    {
        match self {
            LogMsg::Stdout(s) => LogMsg::Stdout(s.clone()),
            LogMsg::Stderr(s) => LogMsg::Stderr(s.clone()),
            LogMsg::Event(s) => LogMsg::Event(s.clone()),
            LogMsg::SessionId(s) => LogMsg::SessionId(s.clone()),
            LogMsg::Finished => LogMsg::Finished,
        }
    }

    /// The tag that names the variant on a subscription feed.
    pub fn kind_name(&self) -> (r: &'static str)
        ensures
            r@ == match self {
                LogMsg::Stdout(_) => "stdout"@,
                LogMsg::Stderr(_) => "stderr"@,
                LogMsg::Event(_) => "event"@,
                LogMsg::SessionId(_) => "session_id"@,
                LogMsg::Finished => "finished"@,
            },
    {
        match self {
            LogMsg::Stdout(_) => "stdout",
            LogMsg::Stderr(_) => "stderr",
            LogMsg::Event(_) => "event",
            LogMsg::SessionId(_) => "session_id",
            LogMsg::Finished => "finished",
        }
    }

    /// The text the message carries, if any.
    pub fn payload(&self) -> (r: Option<String>)
        ensures
            match self {
                LogMsg::Stdout(s) | LogMsg::Stderr(s) | LogMsg::Event(s) | LogMsg::SessionId(s) => r
                    matches Some(p) && p@ == s@,
                LogMsg::Finished => r is None,
            },
    {
        match self {
            LogMsg::Stdout(s) | LogMsg::Stderr(s) | LogMsg::Event(s) | LogMsg::SessionId(s) => Some(
                s.clone(),
            ),
            LogMsg::Finished => None,
        }
    }
}

/// How many `Finished` markers `h` holds.
pub open spec fn finished_count(h: Seq<LogMsg>) -> nat
    decreases h.len(),
{
    if h.len() == 0 {
        0
    } else {
        finished_count(h.drop_last()) + if h.last() is Finished {
            1nat
        } else {
            0nat
        }
    }
}

/// The output feed of one session: the last messages pushed, kept in order, and a
/// broadcast to every subscriber. Nothing is accepted after `Finished`.
pub struct MsgStore {
    messages: Vec<LogMsg>,
    capacity: usize,
    finished: bool,
    notify: broadcast::Sender<LogMsg>,
    sent: Ghost<Seq<LogMsg>>,
}

impl MsgStore {
    /// The messages held, oldest first.
    pub closed spec fn buffered(&self) -> Seq<LogMsg> {
        self.messages@
    }

    /// Every message handed to the broadcast, in order.
    pub closed spec fn history(&self) -> Seq<LogMsg> {
        self.sent@
    }

    pub closed spec fn is_finished(&self) -> bool {
        self.finished
    }

    pub closed spec fn bound(&self) -> nat {
        self.capacity as nat
    }

    pub closed spec fn wf(&self) -> bool {
        &&& 0 < self.capacity
        &&& self.messages@.len() <= self.capacity
        &&& self.finished ==> self.sent@.len() > 0 && self.sent@.last() is Finished
        &&& finished_count(self.sent@) == if self.finished {
            1nat
        } else {
            0nat
        }
    }

    /// A store that keeps the last `capacity` messages.
    pub fn with_capacity(capacity: usize) -> (r: Self)
        requires
            capacity > 0,
        ensures
            r.wf(),
            r.bound() == capacity,
            r.buffered() == Seq::<LogMsg>::empty(),
            r.history() == Seq::<LogMsg>::empty(),
            !r.is_finished(),
    {
        MsgStore {
            messages: Vec::new(),
            capacity,
            finished: false,
            notify: broadcast_sender(BROADCAST_CAPACITY),
            sent: Ghost(Seq::empty()),
        }
    }

    pub fn new() -> (r: Self)
        ensures
            r.wf(),
            r.bound() == DEFAULT_STORE_CAPACITY,
            r.buffered() == Seq::<LogMsg>::empty(),
            r.history() == Seq::<LogMsg>::empty(),
            !r.is_finished(),
    {
        Self::with_capacity(DEFAULT_STORE_CAPACITY)
    }

    /// Keeps `msg` (dropping the oldest message when full) and broadcasts it; refused,
    /// with nothing changed, once `Finished` went out.
    pub fn push(&mut self, msg: LogMsg) -> (accepted: bool)
        requires
            old(self).wf(),
        ensures
            final(self).wf(),
            final(self).bound() == old(self).bound(),
            accepted == !old(self).is_finished(),
            !accepted ==> *final(self) == *old(self),
            accepted ==> final(self).buffered() == bounded(
                old(self).buffered().push(msg),
                old(self).bound(),
            ),
            accepted ==> final(self).history() == old(self).history().push(msg),
            accepted ==> final(self).is_finished() == (msg is Finished),
    {
        if self.finished {
            return false;
        }
        let ghost before = self.messages@;
        let ghost h = self.sent@;
        let is_end = matches!(msg, LogMsg::Finished);
        self.messages.push(msg.duplicate());
        if self.messages.len() > self.capacity {
            self.messages.remove(0);
            assert(self.messages@ =~= before.push(msg).drop_first());
        }
        proof {
            self.sent@ = h.push(msg);
            assert(h.push(msg).drop_last() =~= h);
        }
        self.finished = is_end;
        broadcast_send(&self.notify, msg);
        true
    }

    /// Every message held, oldest first.
    pub fn get_all(&self) -> (r: Vec<LogMsg>)
        ensures
            r@ == self.buffered(),
    {
        self.recent(self.messages.len())
    }

    /// The last `k` messages held, oldest first.
    pub fn recent(&self, k: usize) -> (r: Vec<LogMsg>)
        ensures
            r@ == tail(self.buffered(), k as nat),
    {
        let start = self.messages.len().saturating_sub(k);
        let mut out: Vec<LogMsg> = Vec::new();
        let mut i: usize = start;
        while i < self.messages.len()
            invariant
                start <= i <= self.messages@.len(),
                out@ == self.messages@.subrange(start as int, i as int),
            decreases self.messages@.len() - i,
        {
            out.push(self.messages[i].duplicate());
            assert(out@ =~= self.messages@.subrange(start as int, i + 1));
            i += 1;
        }
        assert(self.messages@.subrange(0, self.messages@.len() as int) =~= self.messages@);
        out
    }

    /// A receiver of every message pushed from now on.
    pub fn subscribe(&self) -> (r: broadcast::Receiver<LogMsg>) {
        broadcast_subscribe(&self.notify)
    }

    /// Whether the terminal marker went out.
    pub fn finished(&self) -> (r: bool)
        ensures
            r == self.is_finished(),
    {
        self.finished
    }

    /// Drops the messages held; subscribers and what was broadcast are untouched.
    pub fn clear(&mut self)
        requires
            old(self).wf(),
        ensures
            final(self).wf(),
            final(self).bound() == old(self).bound(),
            final(self).buffered() == Seq::<LogMsg>::empty(),
            final(self).history() == old(self).history(),
            final(self).is_finished() == old(self).is_finished(),
    {
        self.messages.clear();
    }
}

/// Once a store has broadcast `Finished`, that marker went out exactly once and was the
/// last message; before that it never went out.
pub proof fn lemma_finished_is_last(store: &MsgStore)
    requires
        store.wf(),
    ensures
        store.is_finished() ==> store.history().last() is Finished && finished_count(
            store.history(),
        ) == 1,
        !store.is_finished() ==> finished_count(store.history()) == 0,
{
}

impl Default for MsgStore {
    fn default() -> (r: Self)
        ensures
            r.wf(),
            r.bound() == DEFAULT_STORE_CAPACITY,
            r.buffered() == Seq::<LogMsg>::empty(),
            r.history() == Seq::<LogMsg>::empty(),
            !r.is_finished(),
    {
        MsgStore::new()
    }
}

} // verus!
