//! The control API for coding agents: the commands an agent sends, what the
//! app makes of each, and how a commit is picked by a prefix of its id.
use vstd::prelude::*;

use crate::git::ops::Command;
use crate::git::repo::{hex_text, CommitRow};
use crate::seqs::starts_with;
use crate::text::{chars_of, chars_start_with, lowercase, str_is, to_lowercase, trim, trim_string};

verus! {

/// What a running instance publishes about itself.
#[derive(Debug, Clone, PartialEq, Eq)]
pub struct InstanceMeta {
    pub pid: u32,
    pub repo: String,
    pub tty: Option<String>,
}

/// A request from an agent.
#[derive(Debug, Clone, PartialEq, Eq)]
pub enum AgentCmd {
    Status,
    Select { oid: String },
    Stage { paths: Vec<String> },
    Unstage { paths: Vec<String> },
    Commit { message: String },
    CommitAndPush { message: String, amend: bool },
    Fetch,
    Pull,
    Push,
    Screenshot { path: String },
    List,
}

#[verifier::external_type_specification]
#[verifier::external_body]
#[verifier::reject_recursive_types(T)]
pub struct ExSender<T>(std::sync::mpsc::Sender<T>);

/// A request handed to the UI thread, with the channel for its answer.
#[derive(Debug)]
pub struct AgentJob {
    pub request: AgentCmd,
    pub reply: std::sync::mpsc::Sender<String>,
}

/// What the UI shows: the working tree, or the commit at an index of the
/// log.
#[derive(Debug, Clone, Copy, PartialEq, Eq, Structural)]
pub enum Selection {
    WorkingTree,
    Commit(usize),
}

/// What the app does with a request.
#[derive(Debug, Clone, PartialEq, Eq)]
pub enum AgentPlan {
    /// Answer with the status.
    Status,
    /// Select the commit the prefix names.
    Select(String),
    /// Hand the command to the git worker and answer that it is queued.
    Run { command: Command, queued: &'static str },
    /// Take a screenshot into this path after the next frame.
    Screenshot(String),
    /// Answer with the running instances.
    List,
    /// Answer with this error.
    Reject(&'static str),
}

/// The app's answer to each request: empty path lists and blank commit
/// messages are refused, the other writes are queued for the worker.
pub open spec fn agent_plan_spec(c: AgentCmd) -> AgentPlan {
    match c {
        AgentCmd::Status => AgentPlan::Status,
        AgentCmd::Select { oid } => AgentPlan::Select(oid),
        AgentCmd::Stage { paths } => if paths.len() == 0 {
            AgentPlan::Reject("paths is empty")
        } else {
            AgentPlan::Run { command: Command::Stage(paths), queued: "stage" }
        },
        AgentCmd::Unstage { paths } => if paths.len() == 0 {
            AgentPlan::Reject("paths is empty")
        } else {
            AgentPlan::Run { command: Command::Unstage(paths), queued: "unstage" }
        },
        AgentCmd::Commit { message } => if trim(message@).len() == 0 {
            AgentPlan::Reject("message is empty")
        } else {
            AgentPlan::Run { command: Command::Commit { message, amend: false }, queued: "commit" }
        },
        AgentCmd::CommitAndPush { message, amend } => if trim(message@).len() == 0 {
            AgentPlan::Reject("message is empty")
        } else {
            AgentPlan::Run { command: Command::CommitAndPush { message, amend }, queued: "commit_and_push" }
        },
        AgentCmd::Fetch => AgentPlan::Run { command: Command::Fetch, queued: "fetch" },
        AgentCmd::Pull => AgentPlan::Run { command: Command::Pull, queued: "pull" },
        AgentCmd::Push => AgentPlan::Run { command: Command::Push, queued: "push" },
        AgentCmd::Screenshot { path } => AgentPlan::Screenshot(path),
        AgentCmd::List => AgentPlan::List,
    }
}

fn is_blank(s: &String) -> (r: bool)
    ensures
        r == (trim(s@).len() == 0),
{
    let t = trim_string(s.as_str());
    t.as_str().is_empty()
}

/// Decide what the app does with an agent's request.
pub fn plan_agent(cmd: AgentCmd) -> (r: AgentPlan)
    ensures
        r == agent_plan_spec(cmd),
{
    match cmd {
        AgentCmd::Status => AgentPlan::Status,
        AgentCmd::Select { oid } => AgentPlan::Select(oid),
        AgentCmd::Stage { paths } => if paths.len() == 0 {
            AgentPlan::Reject("paths is empty")
        } else {
            AgentPlan::Run { command: Command::Stage(paths), queued: "stage" }
        },
        AgentCmd::Unstage { paths } => if paths.len() == 0 {
            AgentPlan::Reject("paths is empty")
        } else {
            AgentPlan::Run { command: Command::Unstage(paths), queued: "unstage" }
        },
        AgentCmd::Commit { message } => if is_blank(&message) {
            AgentPlan::Reject("message is empty")
        } else {
            AgentPlan::Run { command: Command::Commit { message, amend: false }, queued: "commit" }
        },
        AgentCmd::CommitAndPush { message, amend } => if is_blank(&message) {
            AgentPlan::Reject("message is empty")
        } else {
            AgentPlan::Run { command: Command::CommitAndPush { message, amend }, queued: "commit_and_push" }
        },
        AgentCmd::Fetch => AgentPlan::Run { command: Command::Fetch, queued: "fetch" },
        AgentCmd::Pull => AgentPlan::Run { command: Command::Pull, queued: "pull" },
        AgentCmd::Push => AgentPlan::Run { command: Command::Push, queued: "push" },
        AgentCmd::Screenshot { path } => AgentPlan::Screenshot(path),
        AgentCmd::List => AgentPlan::List,
    }
}

pub open spec fn texts(v: Seq<String>) -> Seq<Seq<char>> {
    v.map_values(|s: String| s@)
}

/// Commit `k` matches the prefix `p`: its (lowered) short id or its full
/// id starts with it.
pub open spec fn commit_matches(p: Seq<char>, short: Seq<char>, c: CommitRow) -> bool {
    starts_with(short, p) || starts_with(hex_text(c.oid.bytes@), p)
}

/// The first commit at or after `k` that matches `p`.
pub open spec fn first_match(p: Seq<char>, shorts: Seq<Seq<char>>, cs: Seq<CommitRow>, k: int) -> Option<int>
    decreases cs.len() - k,
{
    if k < 0 || k >= cs.len() {
        None
    } else if commit_matches(p, shorts[k], cs[k]) {
        Some(k)
    } else {
        first_match(p, shorts, cs, k + 1)
    }
}

/// The selection a (trimmed, lowered) prefix asks for: the working tree by
/// name, else the first commit it matches; an empty prefix or one that
/// matches nothing is an error.
pub open spec fn select_spec(p: Seq<char>, shorts: Seq<Seq<char>>, cs: Seq<CommitRow>) -> Result<Selection, Seq<char>> {
    if p.len() == 0 {
        Err("oid is empty"@)
    } else if p == "working-tree"@ || p == "worktree"@ {
        Ok(Selection::WorkingTree)
    } else {
        match first_match(p, shorts, cs, 0) {
            Some(i) => Ok(Selection::Commit(i as usize)),
            None => Err("no commit matching "@ + p),
        }
    }
}

/// The selection for `prefix`, already trimmed and lowered, among the
/// commits whose lowered short ids are `shorts`.
pub fn select_lowered(prefix: &str, shorts: &[String], commits: &[CommitRow]) -> (r: Result<Selection, String>)
    requires
        shorts@.len() == commits@.len(),
    ensures
        match (r, select_spec(prefix@, texts(shorts@), commits@)) {
            (Ok(a), Ok(b)) => a == b,
            (Err(a), Err(b)) => a@ == b,
            _ => false,
        },
{
    if prefix.is_empty() {
        return Err("oid is empty".to_owned());
    }
    if str_is(prefix, "working-tree") || str_is(prefix, "worktree") {
        return Ok(Selection::WorkingTree);
    }
    let p = chars_of(prefix);
    let mut k: usize = 0;
    while k < commits.len()
        invariant
            k <= commits.len(),
            shorts@.len() == commits@.len(),
            p@ == prefix@,
            prefix@.len() > 0,
            prefix@ != "working-tree"@,
            prefix@ != "worktree"@,
            first_match(prefix@, texts(shorts@), commits@, 0) == first_match(
                prefix@,
                texts(shorts@),
                commits@,
                k as int,
            ),
        decreases commits.len() - k,
    {
        let s = chars_of(shorts[k].as_str());
        let full = commits[k].oid.to_hex();
        let f = chars_of(full.as_str());
        assert(texts(shorts@)[k as int] == shorts@[k as int]@);
        if chars_start_with(s.as_slice(), p.as_slice()) || chars_start_with(f.as_slice(), p.as_slice()) {
            return Ok(Selection::Commit(k));
        }
        k = k + 1;
    }
    let mut msg = "no commit matching ".to_owned();
    msg.append(prefix);
    Err(msg)
}

/// The lowered short ids of the commits.
pub open spec fn lowered_shorts(cs: Seq<CommitRow>) -> Seq<Seq<char>> {
    cs.map_values(|c: CommitRow| lowercase(c.short@))
}

/// Pick what `prefix` names: trim and lower it, lower each short id, and
/// select as [`select_lowered`] does.
pub fn select_target(prefix: &str, commits: &[CommitRow]) -> (r: Result<Selection, String>)
    ensures
        match (r, select_spec(lowercase(trim(prefix@)), lowered_shorts(commits@), commits@)) {
            (Ok(a), Ok(b)) => a == b,
            (Err(a), Err(b)) => a@ == b,
            _ => false,
        },
{
    let t = trim_string(prefix);
    let p = to_lowercase(t.as_str());
    let mut shorts: Vec<String> = Vec::new();
    let mut k: usize = 0;
    while k < commits.len()
        invariant
            k <= commits.len(),
            shorts@.len() == k,
            forall|i: int| 0 <= i < k ==> #[trigger] shorts@[i]@ == lowercase(commits@[i].short@),
        decreases commits.len() - k,
    {
        shorts.push(to_lowercase(commits[k].short.as_str()));
        k = k + 1;
    }
    assert(texts(shorts@) =~= lowered_shorts(commits@));
    select_lowered(p.as_str(), shorts.as_slice(), commits)
}

} // verus!
