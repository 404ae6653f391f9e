//! Agent launch configuration and the startup protocol of a daemon-style agent.
use vstd::prelude::*;
use vstd::string::*;

use crate::log_store::tail;
use crate::text::{
    after_prefix, has_prefix, join_lines, joined, opt_view, same_text, strip_prefix, trim, trimmed,
};
use crate::worktree::views;

verus! {

/// Variables and working directories handed to an agent.
#[derive(Debug, Clone)]
pub struct ExecutionEnv {
    pub repo_paths: Vec<String>,
    pub env_vars: Vec<(String, String)>,
}

pub open spec fn pair_views(v: Seq<(String, String)>) -> Seq<(Seq<char>, Seq<char>)> {
    v.map_values(|p: (String, String)| (p.0@, p.1@))
}

/// Index of the first pair at or after `i` under key `k` (or the length).
pub open spec fn key_index(s: Seq<(Seq<char>, Seq<char>)>, k: Seq<char>, i: int) -> int
    decreases s.len() - i,
{
    if i < 0 || i >= s.len() {
        s.len() as int
    } else if s[i].0 == k {
        i
    } else {
        key_index(s, k, i + 1)
    }
}

/// `s` with `k` set to `v`: the first pair under `k` takes the new value, else one is added.
pub open spec fn env_with(s: Seq<(Seq<char>, Seq<char>)>, k: Seq<char>, v: Seq<char>) -> Seq<
    (Seq<char>, Seq<char>),
> {
    let i = key_index(s, k, 0);
    if i < s.len() {
        s.update(i, (k, v))
    } else {
        s.push((k, v))
    }
}

impl ExecutionEnv {
    pub fn new() -> (r: Self)
        ensures
            r.repo_paths@.len() == 0,
            r.env_vars@.len() == 0,
    {
        ExecutionEnv { repo_paths: Vec::new(), env_vars: Vec::new() }
    }

    /// Adds a working directory to expose to the agent.
    pub fn with_repo_path(self, path: String) -> (r: Self)
        ensures
            views(r.repo_paths@) == views(self.repo_paths@).push(path@),
            pair_views(r.env_vars@) == pair_views(self.env_vars@),
    {
        let mut r = self;
        let ghost before = r.repo_paths@;
        r.repo_paths.push(path);
        assert(views(r.repo_paths@) =~= views(before).push(path@));
        r
    }

    /// Sets an environment variable of the child.
    pub fn with_env_var(self, key: String, value: String) -> (r: Self)
        ensures
            views(r.repo_paths@) == views(self.repo_paths@),
            pair_views(r.env_vars@) == env_with(pair_views(self.env_vars@), key@, value@),
    {
        let mut r = self;
        let ghost before = pair_views(r.env_vars@);
        let mut i: usize = 0;
        while i < r.env_vars.len() && !same_text(r.env_vars[i].0.as_str(), key.as_str())
            invariant
                before == pair_views(r.env_vars@),
                i <= r.env_vars@.len(),
                key_index(before, key@, i as int) == key_index(before, key@, 0),
            decreases r.env_vars@.len() - i,
        {
            assert(before[i as int].0 == r.env_vars@[i as int].0@);
            i += 1;
        }
        if i < r.env_vars.len() {
            assert(before[i as int].0 == r.env_vars@[i as int].0@);
            r.env_vars.set(i, (key, value));
            assert(pair_views(r.env_vars@) =~= before.update(i as int, (key@, value@)));
        } else {
            r.env_vars.push((key, value));
            assert(pair_views(r.env_vars@) =~= before.push((key@, value@)));
        }
        r
    }
}

/// How an agent is launched: the protocol client of an OpenCode daemon.
#[derive(Debug, Clone)]
pub struct OpenCodeExecutor {
    /// The model the agent should use, if not its default.
    pub model: Option<String>,
    /// Lets the agent act without asking.
    pub auto_approve: bool,
}

/// Lines of daemon output kept for an error message.
pub const CAPTURE_LIMIT: usize = 64;

/// Lines of daemon output an error message shows.
pub const TAIL_LINES: usize = 12;

/// Seconds a daemon may take to say where it listens.
pub const STARTUP_TIMEOUT_SECS: u64 = 180;

pub open spec fn listening_prefix() -> Seq<char> {
    "opencode server listening on "@
}

/// The address a daemon's output line announces, if it is the listening line.
pub open spec fn announced_url(line: Seq<char>) -> Option<Seq<char>> {
    let t = trimmed(line);
    if has_prefix(t, listening_prefix()) {
        Some(trimmed(after_prefix(t, listening_prefix())))
    } else {
        None
    }
}

impl OpenCodeExecutor {
    pub fn new() -> (r: Self)
        ensures
            r.model is None,
            r.auto_approve,
    {
        OpenCodeExecutor { model: None, auto_approve: true }
    }

    pub fn with_model(self, model: String) -> (r: Self)
        ensures
            r.model matches Some(m) && m@ == model@,
            r.auto_approve == self.auto_approve,
    {
        OpenCodeExecutor { model: Some(model), auto_approve: self.auto_approve }
    }

    pub fn with_auto_approve(self, auto_approve: bool) -> (r: Self)
        ensures
            r.auto_approve == auto_approve,
            opt_view(r.model) == opt_view(self.model),
    {
        OpenCodeExecutor { model: self.model, auto_approve }
    }

    /// The identifier stored with the sessions this adapter runs.
    pub fn executor_type(&self) -> (r: &'static str)
        ensures
            r@ == "opencode"@,
    {
        "opencode"
    }

    /// The arguments of `npx` that start the daemon on a free local port.
    pub fn server_args(&self) -> (r: Vec<String>)
        ensures
            views(r@) == seq![
                "-y"@,
                "opencode-ai"@,
                "serve"@,
                "--hostname"@,
                "127.0.0.1"@,
                "--port"@,
                "0"@,
            ],
    {
        let r = vec![
            String::from_str("-y"),
            String::from_str("opencode-ai"),
            String::from_str("serve"),
            String::from_str("--hostname"),
            String::from_str("127.0.0.1"),
            String::from_str("--port"),
            String::from_str("0"),
        ];
        assert(views(r@) =~= seq![
            "-y"@,
            "opencode-ai"@,
            "serve"@,
            "--hostname"@,
            "127.0.0.1"@,
            "--port"@,
            "0"@,
        ]);
        r
    }
}

/// The address announced by a daemon's output line, if it is the listening line.
pub fn listening_url(line: &str) -> (r: Option<String>)
    ensures
        opt_view(r) == announced_url(line@),
{
    let t = trim(line);
    match strip_prefix(t.as_str(), "opencode server listening on ") {
        Some(rest) => Some(trim(rest.as_str())),
        None => None,
    }
}

/// The last `TAIL_LINES` captured lines, one per line.
pub fn format_tail(captured: Vec<String>) -> (r: String)
    ensures
        r@ == joined(tail(views(captured@), TAIL_LINES as nat)),
{
    let n = captured.len();
    let start = n.saturating_sub(TAIL_LINES);
    let mut last: Vec<String> = Vec::new();
    let mut i: usize = start;
    while i < n
        invariant
            n == captured@.len(),
            start <= i <= n,
            views(last@) == views(captured@).subrange(start as int, i as int),
        decreases n - i,
    {
        let ghost before = views(last@);
        let line = captured[i].clone();
        assert(line@ == views(captured@)[i as int]);
        last.push(line);
        assert(views(last@) =~= before.push(line@));
        assert(views(last@) =~= views(captured@).subrange(start as int, i + 1));
        i += 1;
    }
    assert(views(captured@).subrange(0, n as int) =~= views(captured@));
    join_lines(&last)
}

/// What a daemon printed while the adapter waited for its listening line.
pub struct StartupWatch {
    captured: Vec<String>,
}

impl StartupWatch {
    pub closed spec fn lines(&self) -> Seq<Seq<char>> {
        views(self.captured@)
    }

    pub fn new() -> (r: Self)
        ensures
            r.lines() == Seq::<Seq<char>>::empty(),
    {
        let r = StartupWatch { captured: Vec::new() };
        assert(r.lines() =~= Seq::<Seq<char>>::empty());
        r
    }

    /// Reads one line of daemon output: keeps it while fewer than `CAPTURE_LIMIT` are
    /// kept, and gives the address if the line announces it.
    pub fn observe(&mut self, line: String) -> (r: Option<String>)
        ensures
            opt_view(r) == announced_url(line@),
            old(self).lines().len() < CAPTURE_LIMIT ==> final(self).lines() == old(
                self,
            ).lines().push(line@),
            old(self).lines().len() >= CAPTURE_LIMIT ==> final(self).lines() == old(self).lines(),
    {
        let url = listening_url(line.as_str());
        if self.captured.len() < CAPTURE_LIMIT {
            let ghost before = views(self.captured@);
            self.captured.push(line);
            assert(views(self.captured@) =~= before.push(line@));
        }
        url
    }

    /// The message of a daemon that never announced its address in time.
    pub fn timed_out(&self) -> (r: String)
        ensures
            r@ == "Timed out waiting for OpenCode server to print listening URL.\nServer output tail:\n"@
                + joined(tail(self.lines(), TAIL_LINES as nat)),
    {
        let mut r = String::from_str(
            "Timed out waiting for OpenCode server to print listening URL.\nServer output tail:\n",
        );
        let t = format_tail(self.copy_lines());
        r.append(t.as_str());
        r
    }

    /// The message of a daemon that exited before announcing its address.
    pub fn exited(&self) -> (r: String)
        ensures
            r@ == "OpenCode server exited before printing listening URL.\nServer output tail:\n"@
                + joined(tail(self.lines(), TAIL_LINES as nat)),
    {
        let mut r = String::from_str(
            "OpenCode server exited before printing listening URL.\nServer output tail:\n",
        );
        let t = format_tail(self.copy_lines());
        r.append(t.as_str());
        r
    }

    fn copy_lines(&self) -> (r: Vec<String>)
        ensures
            views(r@) == self.lines(),
    {
        let mut out: Vec<String> = Vec::new();
        let mut i: usize = 0;
        while i < self.captured.len()
            invariant
                i <= self.captured@.len(),
                views(out@) == views(self.captured@).subrange(0, i as int),
            decreases self.captured@.len() - i,
        {
            let ghost before = views(out@);
            let line = self.captured[i].clone();
            assert(line@ == views(self.captured@)[i as int]);
            out.push(line);
            assert(views(out@) =~= before.push(line@));
            assert(views(out@) =~= views(self.captured@).subrange(0, i + 1));
            i += 1;
        }
        assert(views(self.captured@).subrange(0, i as int) =~= views(self.captured@));
        out
    }
}

/// The arguments of the agent binary of the direct adapter.
pub fn direct_cli_args(prompt: &str, model: Option<&str>) -> (r: Vec<String>)
    ensures
        views(r@) == seq!["--print"@, "--dangerously-skip-permissions"@, prompt@] + match model {
            Some(m) => seq!["--model"@, m@],
            None => Seq::empty(),
        },
{
    let mut r = vec![
        String::from_str("--print"),
        String::from_str("--dangerously-skip-permissions"),
        prompt.to_owned(),
    ];
    let ghost base = views(r@);
    assert(base =~= seq!["--print"@, "--dangerously-skip-permissions"@, prompt@]);
    match model {
        Some(m) => {
            r.push(String::from_str("--model"));
            r.push(m.to_owned());
            assert(views(r@) =~= base + seq!["--model"@, m@]);
        },
        None => {
            assert(views(r@) =~= base + Seq::<Seq<char>>::empty());
        },
    }
    r
}

impl Default for ExecutionEnv {
    fn default() -> (r: Self)
        ensures
            r.repo_paths@.len() == 0,
            r.env_vars@.len() == 0,
    {
        ExecutionEnv::new()
    }
}

impl Default for OpenCodeExecutor {
    fn default() -> (r: Self)
        ensures
            r.model is None,
            r.auto_approve,
    {
        OpenCodeExecutor::new()
    }
}

} // verus!
