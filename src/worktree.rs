//! The worktree provider: VCS calls that create, remove and list worktrees, and the parser of their listing.
use vstd::prelude::*;
use vstd::string::*;

use crate::text::{after_prefix, has_prefix, lines_of, opt_view, split_lines, strip_prefix};

verus! {

/// One working copy that the VCS lists for a repository.
#[derive(Debug, Clone)]
pub struct Worktree {
    pub path: String,
    pub branch: String,
    pub commit: String,
}

/// A worktree as plain text: path, branch, commit.
pub type WorktreeView = (Seq<char>, Seq<char>, Seq<char>);

impl View for Worktree {
    type V = WorktreeView;

    open spec fn view(&self) -> WorktreeView {
        (self.path@, self.branch@, self.commit@)
    }
}

/// Why a worktree operation failed.
#[derive(Debug, Clone)]
pub enum WorktreeError {
    /// The target directory already exists.
    Busy(String),
    /// The VCS exited with failure; its stderr, verbatim.
    Vcs(String),
    /// A filesystem operation failed.
    Io(String),
    /// A worktree path with no project directory two levels above it.
    InvalidPath(String),
}

/// A VCS invocation: the directory to run in and the arguments.
#[derive(Debug, Clone)]
pub struct VcsCommand {
    pub dir: String,
    pub args: Vec<String>,
}

/// What a finished VCS invocation reported.
#[derive(Debug, Clone)]
pub struct CommandOutput {
    pub success: bool,
    pub stdout: String,
    pub stderr: String,
}

pub open spec fn views(v: Seq<String>) -> Seq<Seq<char>> {
    v.map_values(|x: String| x@)
}

/// Joins two path pieces with one `'/'` between them.
pub open spec fn join_path(a: Seq<char>, b: Seq<char>) -> Seq<char> {
    if a.len() == 0 {
        b
    } else if a.last() == '/' {
        a + b
    } else {
        a + seq!['/'] + b
    }
}

/// Where the worktree of a task lives: `<project>/.worktrees/<task>`.
pub open spec fn worktree_location(project: Seq<char>, task_id: Seq<char>) -> Seq<char> {
    join_path(join_path(project, ".worktrees"@), task_id)
}

/// Index of the last `'/'` in `s` before `j`, or -1.
pub open spec fn last_slash(s: Seq<char>, j: int) -> int
    decreases j,
{
    if j <= 0 || j > s.len() {
        -1
    } else if s[j - 1] == '/' {
        j - 1
    } else {
        last_slash(s, j - 1)
    }
}

/// The directory that holds `s`: what precedes its last `'/'` (the root for a
/// path directly under it, the empty path for a bare name), none for `""` and `"/"`.
pub open spec fn parent_path(s: Seq<char>) -> Option<Seq<char>> {
    let k = last_slash(s, s.len() as int);
    if s.len() == 0 {
        None
    } else if k < 0 {
        Some(Seq::empty())
    } else if k == 0 {
        if s.len() == 1 {
            None
        } else {
            Some(seq!['/'])
        }
    } else {
        Some(s.subrange(0, k))
    }
}

/// The project directory of a worktree: two levels above it.
pub open spec fn project_of(worktree: Seq<char>) -> Option<Seq<char>> {
    match parent_path(worktree) {
        Some(p) => parent_path(p),
        None => None,
    }
}

proof fn lemma_last_slash_at(s: Seq<char>, k: int, j: int)
    requires
        0 <= k < j <= s.len(),
        s[k] == '/',
        forall|i: int| k < i < j ==> s[i] != '/',
    ensures
        last_slash(s, j) == k,
    decreases j,
{
    if j - 1 > k {
        lemma_last_slash_at(s, k, j - 1);
    }
}

proof fn lemma_parent_of_join(a: Seq<char>, b: Seq<char>)
    requires
        a.len() > 0,
        a.last() != '/',
        forall|i: int| 0 <= i < b.len() ==> b[i] != '/',
    ensures
        join_path(a, b) == a + seq!['/'] + b,
        parent_path(a + seq!['/'] + b) == Some(a),
{
    let s = a + seq!['/'] + b;
    let k = a.len() as int;
    assert(s[k] == '/');
    assert forall|i: int| k < i < s.len() implies s[i] != '/' by {
        assert(s[i] == b[i - k - 1]);
    }
    lemma_last_slash_at(s, k, s.len() as int);
    assert(s.subrange(0, k) =~= a);
}

/// The worktree created for a task is the one whose removal runs in that task's project:
/// for a project path without a trailing `'/'` and a task id without `'/'`, the project
/// two levels above the worktree is the project itself.
pub proof fn lemma_removal_runs_in_project(project: Seq<char>, task_id: Seq<char>)
    requires
        project.len() > 0,
        project.last() != '/',
        forall|i: int| 0 <= i < task_id.len() ==> task_id[i] != '/',
    ensures
        project_of(worktree_location(project, task_id)) == Some(project),
{
    reveal_strlit(".worktrees");
    let dir = ".worktrees"@;
    assert(forall|i: int| 0 <= i < dir.len() ==> dir[i] != '/');
    lemma_parent_of_join(project, dir);
    let base = project + seq!['/'] + dir;
    assert(base.last() == dir.last());
    lemma_parent_of_join(base, task_id);
}

pub open spec fn create_args(branch: Seq<char>, path: Seq<char>) -> Seq<Seq<char>> {
    seq!["worktree"@, "add"@, "-b"@, branch, path, "HEAD"@]
}

pub open spec fn remove_args(path: Seq<char>) -> Seq<Seq<char>> {
    seq!["worktree"@, "remove"@, path]
}

pub open spec fn list_args() -> Seq<Seq<char>> {
    seq!["worktree"@, "list"@, "--porcelain"@]
}

/// The fields of the record being read, and the records finished so far.
pub struct PorcelainState {
    pub path: Option<Seq<char>>,
    pub branch: Option<Seq<char>>,
    pub commit: Option<Seq<char>>,
    pub done: Seq<WorktreeView>,
}

/// `refs/heads/` is dropped from a branch for display.
pub open spec fn branch_label(b: Seq<char>) -> Seq<char> {
    if has_prefix(b, "refs/heads/"@) {
        after_prefix(b, "refs/heads/"@)
    } else {
        b
    }
}

/// The record held in `st`, if all three of its fields were seen.
pub open spec fn complete(st: PorcelainState) -> Option<WorktreeView> {
    match (st.path, st.branch, st.commit) {
        (Some(p), Some(b), Some(c)) => Some((p, b, c)),
        _ => None,
    }
}

/// Reads one line of the porcelain listing.
pub open spec fn porcelain_step(st: PorcelainState, line: Seq<char>) -> PorcelainState {
    if has_prefix(line, "worktree "@) {
        PorcelainState { path: Some(after_prefix(line, "worktree "@)), ..st }
    } else if has_prefix(line, "branch "@) {
        PorcelainState { branch: Some(branch_label(after_prefix(line, "branch "@))), ..st }
    } else if has_prefix(line, "HEAD "@) {
        PorcelainState { commit: Some(after_prefix(line, "HEAD "@)), ..st }
    } else if line.len() == 0 {
        PorcelainState {
            path: None,
            branch: None,
            commit: None,
            done: match complete(st) {
                Some(w) => st.done.push(w),
                None => st.done,
            },
        }
    } else {
        st
    }
}

/// The state after the first `n` lines.
pub open spec fn porcelain_run(lines: Seq<Seq<char>>, n: nat) -> PorcelainState
    decreases n,
{
    if n == 0 || n > lines.len() {
        PorcelainState { path: None, branch: None, commit: None, done: Seq::empty() }
    } else {
        porcelain_step(porcelain_run(lines, (n - 1) as nat), lines[n - 1])
    }
}

/// The worktrees that a porcelain listing describes, in order, the last record
/// counted even without a blank line after it.
pub open spec fn parse_porcelain(text: Seq<char>) -> Seq<WorktreeView> {
    let lines = lines_of(text);
    let st = porcelain_run(lines, lines.len());
    match complete(st) {
        Some(w) => st.done.push(w),
        None => st.done,
    }
}

fn take_record(path: Option<String>, branch: Option<String>, commit: Option<String>) -> (r: Option<
    Worktree,
>)
    ensures
        match complete(
            PorcelainState {
                path: opt_view(path),
                branch: opt_view(branch),
                commit: opt_view(commit),
                done: Seq::empty(),
            },
        ) {
            Some(w) => r.is_some() && r.unwrap()@ == w,
            None => r.is_none(),
        },
{
    match (path, branch, commit) {
        (Some(p), Some(b), Some(c)) => Some(Worktree { path: p, branch: b, commit: c }),
        _ => None,
    }
}

/// Parses the VCS's porcelain worktree listing.
pub fn parse_worktree_list(output: &str) -> (r: Vec<Worktree>)
    ensures
        r@.map_values(|w: Worktree| w@) == parse_porcelain(output@),
{
    let lines = split_lines(output);
    let ghost ls = lines_of(output@);
    let mut out: Vec<Worktree> = Vec::new();
    let mut path: Option<String> = None;
    let mut branch: Option<String> = None;
    let mut commit: Option<String> = None;
    let mut i: usize = 0;
    assert(out@.map_values(|w: Worktree| w@) =~= Seq::<WorktreeView>::empty());
    while i < lines.len()
        invariant
            i <= lines@.len(),
            ls == lines_of(output@),
            lines@.len() == ls.len(),
            forall|k: int| 0 <= k < lines@.len() ==> #[trigger] lines@[k]@ == ls[k],
            porcelain_run(ls, i as nat) == (PorcelainState {
                path: opt_view(path),
                branch: opt_view(branch),
                commit: opt_view(commit),
                done: out@.map_values(|w: Worktree| w@),
            }),
        decreases lines@.len() - i,
    {
        let line = lines[i].as_str();
        assert(line@ == ls[i as int]);
        if let Some(rest) = strip_prefix(line, "worktree ") {
            path = Some(rest);
        } else if let Some(rest) = strip_prefix(line, "branch ") {
            match strip_prefix(rest.as_str(), "refs/heads/") {
                Some(short) => {
                    branch = Some(short);
                },
                None => {
                    branch = Some(rest);
                },
            }
        } else if let Some(rest) = strip_prefix(line, "HEAD ") {
            commit = Some(rest);
        } else if line.unicode_len() == 0 {
            let ghost before = out@.map_values(|w: Worktree| w@);
            let rec = take_record(path, branch, commit);
            path = None;
            branch = None;
            commit = None;
            if let Some(w) = rec {
                out.push(w);
                assert(out@.map_values(|w: Worktree| w@) =~= before.push(w@));
            }
        }
        i += 1;
    }
    let ghost before = out@.map_values(|w: Worktree| w@);
    if let Some(w) = take_record(path, branch, commit) {
        out.push(w);
        assert(out@.map_values(|w: Worktree| w@) =~= before.push(w@));
    }
    out
}

/// `a` and `b` joined as path pieces.
pub fn join(a: &str, b: &str) -> (r: String)
    ensures
        r@ == join_path(a@, b@),
{
    let n = a.unicode_len();
    if n == 0 {
        b.to_owned()
    } else if a.get_char(n - 1) == '/' {
        let mut r = a.to_owned();
        r.append(b);
        r
    } else {
        proof {
            reveal_strlit("/");
        }
        let mut r = a.to_owned();
        r.append("/");
        r.append(b);
        r
    }
}

/// The directory holding `s`, if it has one.
pub fn parent(s: &str) -> (r: Option<String>)
    ensures
        opt_view(r) == parent_path(s@),
{
    let n = s.unicode_len();
    if n == 0 {
        return None;
    }
    let mut j: usize = n;
    while j > 0 && s.get_char(j - 1) != '/'
        invariant
            n == s@.len(),
            j <= n,
            last_slash(s@, j as int) == last_slash(s@, n as int),
        decreases j,
    {
        j -= 1;
    }
    if j == 0 {
        Some(String::new())
    } else if j == 1 {
        if n == 1 {
            None
        } else {
            proof {
                reveal_strlit("/");
            }
            Some("/".to_owned())
        }
    } else {
        Some(s.substring_char(0, j - 1).to_owned())
    }
}

fn owned_args(parts: &[&str]) -> (r: Vec<String>)
    ensures
        r@.len() == parts@.len(),
        forall|k: int| 0 <= k < r@.len() ==> #[trigger] r@[k]@ == parts@[k]@,
{
    let mut out: Vec<String> = Vec::new();
    let mut i: usize = 0;
    while i < parts.len()
        invariant
            i <= parts@.len(),
            out@.len() == i,
            forall|k: int| 0 <= k < i ==> #[trigger] out@[k]@ == parts@[k]@,
        decreases parts@.len() - i,
    {
        out.push(parts[i].to_owned());
        i += 1;
    }
    out
}

/// Creates, removes and lists worktrees; it holds no state, the VCS is the source of truth.
pub struct WorktreeManager;

impl WorktreeManager {
    pub fn new() -> (r: Self) {
        WorktreeManager
    }

    /// The directory that the worktree of `task_id` gets.
    pub fn worktree_path(&self, project_path: &str, task_id: &str) -> (r: String)
        ensures
            r@ == worktree_location(project_path@, task_id@),
    {
        let base = join(project_path, ".worktrees");
        join(base.as_str(), task_id)
    }

    /// The VCS call that creates the worktree of `task_id` on a new branch, refused
    /// when the target directory already exists.
    pub fn create_worktree(
        &self,
        project_path: &str,
        task_id: &str,
        branch_name: &str,
        target_exists: bool,
    ) -> (r: Result<VcsCommand, WorktreeError>)
        ensures
            target_exists <==> r.is_err(),
            r matches Err(e) ==> (e matches WorktreeError::Busy(p) && p@ == worktree_location(
                project_path@,
                task_id@,
            )),
            r matches Ok(c) ==> c.dir@ == project_path@ && views(c.args@) == create_args(
                branch_name@,
                worktree_location(project_path@, task_id@),
            ),
    {
        let path = self.worktree_path(project_path, task_id);
        if target_exists {
            return Err(WorktreeError::Busy(path));
        }
        let args = owned_args(&["worktree", "add", "-b", branch_name, path.as_str(), "HEAD"]);
        assert(views(args@) =~= create_args(
            branch_name@,
            worktree_location(project_path@, task_id@),
        ));
        Ok(VcsCommand { dir: project_path.to_owned(), args })
    }

    /// The VCS call that detaches the worktree at `worktree_path`, run in its project;
    /// nothing to do when the directory is already gone.
    pub fn remove_worktree(&self, worktree_path: &str, exists: bool) -> (r: Result<
        Option<VcsCommand>,
        WorktreeError,
    >)
        ensures
            !exists ==> r matches Ok(None),
            exists && project_of(worktree_path@) is None ==> (r matches Err(
                WorktreeError::InvalidPath(p),
            ) && p@ == worktree_path@),
            exists && project_of(worktree_path@) is Some ==> (r matches Ok(Some(c)) && Some(c.dir@)
                == project_of(worktree_path@) && views(c.args@) == remove_args(worktree_path@)),
    {
        if !exists {
            return Ok(None);
        }
        let root = match parent(worktree_path) {
            Some(p) => parent(p.as_str()),
            None => None,
        };
        match root {
            None => Err(WorktreeError::InvalidPath(worktree_path.to_owned())),
            Some(dir) => {
                let args = owned_args(&["worktree", "remove", worktree_path]);
                assert(views(args@) =~= remove_args(worktree_path@));
                Ok(Some(VcsCommand { dir, args }))
            },
        }
    }

    /// The VCS call that lists the worktrees of a project.
    pub fn list_command(&self, project_path: &str) -> (r: VcsCommand)
        ensures
            r.dir@ == project_path@,
            views(r.args@) == list_args(),
    {
        let args = owned_args(&["worktree", "list", "--porcelain"]);
        assert(views(args@) =~= list_args());
        VcsCommand { dir: project_path.to_owned(), args }
    }

    /// Success of a VCS call, or its stderr as the error.
    pub fn check_output(&self, output: &CommandOutput) -> (r: Result<(), WorktreeError>)
        ensures
            output.success <==> r.is_ok(),
            r matches Err(e) ==> (e matches WorktreeError::Vcs(m) && m@ == output.stderr@),
    {
        if output.success {
            Ok(())
        } else {
            Err(WorktreeError::Vcs(output.stderr.clone()))
        }
    }

    /// The worktrees of a listing call's output.
    pub fn list_worktrees(&self, output: &CommandOutput) -> (r: Result<Vec<Worktree>, WorktreeError>)
        ensures
            output.success <==> r.is_ok(),
            r matches Err(e) ==> (e matches WorktreeError::Vcs(m) && m@ == output.stderr@),
            r matches Ok(ws) ==> ws@.map_values(|w: Worktree| w@) == parse_porcelain(
                output.stdout@,
            ),
    {
        self.check_output(output)?;
        Ok(parse_worktree_list(output.stdout.as_str()))
    }
}

impl Default for WorktreeManager {
    fn default() -> (r: Self) {
        WorktreeManager::new()
    }
}

} // verus!
