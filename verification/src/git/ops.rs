//! The commands the git worker executes, and the git and gh command lines
//! they turn into.
use vstd::prelude::*;

use crate::git::actions::{dec, reset_label, ConflictSide, MergeOutcome, ResetKind};
use crate::git::rebase::{action_name, quote_body, shell_quote, TodoAction, ENV_ACTION, ENV_MESSAGE, ENV_OID};
use crate::git::repo::{hex_text, short_id, DiffOpts, DiffTarget, Oid};
use crate::text::{chars_of, push_decimal_str, push_str, trim, trim_range, string_from_chars};

verus! {

/// How many commits a snapshot loads at first.
pub const COMMIT_LIMIT: usize = 2000;

/// What to do with an in-progress merge, rebase, cherry-pick or revert.
#[derive(Debug, Clone, Copy, PartialEq, Eq, Structural)]
pub enum StateAction {
    Continue,
    Abort,
    Skip,
}

pub open spec fn state_flag(a: StateAction) -> Seq<char> {
    match a {
        StateAction::Continue => "--continue"@,
        StateAction::Abort => "--abort"@,
        StateAction::Skip => "--skip"@,
    }
}

impl StateAction {
    pub fn flag(self) -> (r: &'static str)
        ensures
            r@ == state_flag(self),
    {
        match self {
            StateAction::Continue => "--continue",
            StateAction::Abort => "--abort",
            StateAction::Skip => "--skip",
        }
    }
}

#[derive(Debug, Clone, PartialEq, Eq)]
pub enum Command {
    Refresh,
    /// Raise the commit cap (load more).
    LoadMore(usize),
    LoadDiff(DiffTarget),
    LoadCommitFiles(Oid),
    /// Context lines and whitespace handling for every diff from now on.
    SetDiffOpts(DiffOpts),
    /// Whether the UI is focused (reserved; auto-refresh polls regardless).
    Focus(bool),
    Stage(Vec<String>),
    Unstage(Vec<String>),
    StageAll,
    UnstageAll,
    Discard(Vec<String>),
    /// Reset the index and working tree to HEAD, delete untracked files.
    DiscardAll,
    StageHunk {
        path: String,
        hunk_index: usize,
    },
    UnstageHunk {
        path: String,
        hunk_index: usize,
    },
    DiscardHunk {
        path: String,
        hunk_index: usize,
    },
    /// Line indices are into the hunk's `lines` of the unstaged diff.
    StageLines {
        path: String,
        hunk_index: usize,
        lines: Vec<usize>,
    },
    UnstageLines {
        path: String,
        hunk_index: usize,
        lines: Vec<usize>,
    },
    DiscardLines {
        path: String,
        hunk_index: usize,
        lines: Vec<usize>,
    },
    /// Append a pattern to .gitignore.
    Ignore(String),
    Commit {
        message: String,
        amend: bool,
    },
    /// Commit, then run `git push` on success.
    CommitAndPush {
        message: String,
        amend: bool,
    },
    Checkout(String),
    /// Discard local changes and check out the branch.
    ForceCheckout(String),
    /// Stash, then check out the branch.
    StashAndCheckout {
        branch: String,
        message: String,
    },
    /// Check out a commit (or tag target) as a detached HEAD.
    CheckoutDetached(Oid),
    CreateBranch {
        name: String,
        from: Oid,
        checkout: bool,
    },
    DeleteBranch(String),
    RenameBranch {
        old: String,
        new: String,
    },
    /// `None` clears the upstream.
    SetUpstream {
        branch: String,
        upstream: Option<String>,
    },
    /// Move a local branch to its upstream when it is only behind.
    FastForward(String),
    /// Merge a branch into the checked out one.
    Merge(String),
    /// `git rebase <onto>` of the checked out branch.
    Rebase(String),
    CherryPick(Oid),
    Revert(Oid),
    Reset {
        oid: Oid,
        kind: ResetKind,
    },
    /// Rewrite history below HEAD with a non-interactive `git rebase -i`.
    RewriteCommit {
        oid: Oid,
        action: TodoAction,
        /// New message for `Reword`.
        message: Option<String>,
        /// Whether `oid` is the root commit (rebase `--root`).
        is_root: bool,
    },
    /// `git rebase -i --autosquash` from the parent of `oid`.
    Autosquash {
        oid: Oid,
        is_root: bool,
    },
    /// Continue, abort or skip the in-progress operation.
    State {
        action: StateAction,
        subcommand: &'static str,
    },
    /// Resolve a conflicted file by taking one side.
    Resolve {
        path: String,
        side: ConflictSide,
    },
    CreateTag {
        name: String,
        oid: Oid,
        message: String,
    },
    DeleteTag(String),
    /// `git push <remote> <tag>`.
    PushTag {
        remote: String,
        tag: String,
    },
    StashPushOpts {
        message: String,
        keep_index: bool,
        include_untracked: bool,
    },
    StashPop(usize),
    StashApply(usize),
    StashDrop(usize),
    BranchFromStash {
        index: usize,
        name: String,
    },
    RemoteAdd {
        name: String,
        url: String,
    },
    RemoteRemove(String),
    RemoteRename {
        old: String,
        new: String,
    },
    RemoteSetUrl {
        name: String,
        url: String,
    },
    Fetch,
    /// `git fetch <remote> --prune`.
    FetchRemote(String),
    Pull,
    /// `git pull --rebase`.
    PullRebase,
    /// `git push`, adding `-u origin <branch>` when the branch has no upstream.
    Push,
    /// `git push --force-with-lease`.
    ForcePush,
    /// `git push <remote> --delete <branch>`.
    DeleteRemoteBranch {
        remote: String,
        branch: String,
    },
    PublishGithub {
        name: String,
        description: String,
        private: bool,
    },
    /// Run `git init` in the opened directory.
    InitRepo,
    Quit,
}

/// Short label for toasts and the status bar.
pub open spec fn command_label(c: Command) -> Seq<char> {
    match c {
        Command::Refresh
        | Command::LoadMore(_)
        | Command::LoadDiff(_)
        | Command::LoadCommitFiles(_)
        | Command::SetDiffOpts(_)
        | Command::Focus(_)
        | Command::Quit => ""@,
        Command::Stage(_)
        | Command::StageAll
        | Command::StageHunk { .. }
        | Command::StageLines { .. } => "stage"@,
        Command::Unstage(_)
        | Command::UnstageAll
        | Command::UnstageHunk { .. }
        | Command::UnstageLines { .. } => "unstage"@,
        Command::Discard(_)
        | Command::DiscardAll
        | Command::DiscardHunk { .. }
        | Command::DiscardLines { .. } => "discard"@,
        Command::Ignore(_) => "ignore"@,
        Command::Commit { .. } | Command::CommitAndPush { .. } => "commit"@,
        Command::Checkout(_)
        | Command::ForceCheckout(_)
        | Command::StashAndCheckout { .. }
        | Command::CheckoutDetached(_) => "checkout"@,
        Command::CreateBranch { .. } => "new branch"@,
        Command::DeleteBranch(_) => "delete branch"@,
        Command::RenameBranch { .. } => "rename branch"@,
        Command::SetUpstream { .. } => "upstream"@,
        Command::FastForward(_) => "fast-forward"@,
        Command::Merge(_) => "merge"@,
        Command::Rebase(_) => "rebase"@,
        Command::CherryPick(_) => "cherry-pick"@,
        Command::Revert(_) => "revert"@,
        Command::Reset { .. } => "reset"@,
        Command::RewriteCommit { action, .. } => match action {
            TodoAction::Drop => "drop commit"@,
            TodoAction::Squash => "squash"@,
            TodoAction::Fixup => "fixup"@,
            TodoAction::Reword => "reword"@,
            TodoAction::Edit => "edit commit"@,
            TodoAction::MoveUp | TodoAction::MoveDown => "move commit"@,
            TodoAction::Keep => "rebase"@,
        },
        Command::Autosquash { .. } => "autosquash"@,
        Command::State { action, .. } => match action {
            StateAction::Continue => "continue"@,
            StateAction::Abort => "abort"@,
            StateAction::Skip => "skip"@,
        },
        Command::Resolve { .. } => "resolve"@,
        Command::CreateTag { .. } => "new tag"@,
        Command::DeleteTag(_) => "delete tag"@,
        Command::PushTag { .. } => "push tag"@,
        Command::StashPushOpts { .. } => "stash"@,
        Command::StashPop(_) => "stash pop"@,
        Command::StashApply(_) => "stash apply"@,
        Command::StashDrop(_) => "stash drop"@,
        Command::BranchFromStash { .. } => "branch from stash"@,
        Command::RemoteAdd { .. } => "add remote"@,
        Command::RemoteRemove(_) => "remove remote"@,
        Command::RemoteRename { .. } => "rename remote"@,
        Command::RemoteSetUrl { .. } => "remote url"@,
        Command::Fetch | Command::FetchRemote(_) => "fetch"@,
        Command::Pull | Command::PullRebase => "pull"@,
        Command::Push | Command::ForcePush => "push"@,
        Command::DeleteRemoteBranch { .. } => "delete remote branch"@,
        Command::PublishGithub { .. } => "publish"@,
        Command::InitRepo => "init"@,
    }
}

/// The operations that run the git CLI and stream output.
pub open spec fn is_network_command(c: Command) -> bool {
    match c {
        Command::Fetch
        | Command::FetchRemote(_)
        | Command::Pull
        | Command::PullRebase
        | Command::Push
        | Command::ForcePush
        | Command::PushTag { .. }
        | Command::DeleteRemoteBranch { .. }
        | Command::PublishGithub { .. }
        | Command::Rebase(_)
        | Command::RewriteCommit { .. }
        | Command::Autosquash { .. }
        | Command::State { .. } => true,
        _ => false,
    }
}

impl Command {
    /// Short label for toasts and the status bar.
    pub fn label(&self) -> (r: &'static str)
        ensures
            r@ == command_label(*self),
    {
        match self {
            Command::Refresh
            | Command::LoadMore(_)
            | Command::LoadDiff(_)
            | Command::LoadCommitFiles(_)
            | Command::SetDiffOpts(_)
            | Command::Focus(_)
            | Command::Quit => "",
            Command::Stage(_)
            | Command::StageAll
            | Command::StageHunk { .. }
            | Command::StageLines { .. } => "stage",
            Command::Unstage(_)
            | Command::UnstageAll
            | Command::UnstageHunk { .. }
            | Command::UnstageLines { .. } => "unstage",
            Command::Discard(_)
            | Command::DiscardAll
            | Command::DiscardHunk { .. }
            | Command::DiscardLines { .. } => "discard",
            Command::Ignore(_) => "ignore",
            Command::Commit { .. } | Command::CommitAndPush { .. } => "commit",
            Command::Checkout(_)
            | Command::ForceCheckout(_)
            | Command::StashAndCheckout { .. }
            | Command::CheckoutDetached(_) => "checkout",
            Command::CreateBranch { .. } => "new branch",
            Command::DeleteBranch(_) => "delete branch",
            Command::RenameBranch { .. } => "rename branch",
            Command::SetUpstream { .. } => "upstream",
            Command::FastForward(_) => "fast-forward",
            Command::Merge(_) => "merge",
            Command::Rebase(_) => "rebase",
            Command::CherryPick(_) => "cherry-pick",
            Command::Revert(_) => "revert",
            Command::Reset { .. } => "reset",
            Command::RewriteCommit { action, .. } => match action {
                TodoAction::Drop => "drop commit",
                TodoAction::Squash => "squash",
                TodoAction::Fixup => "fixup",
                TodoAction::Reword => "reword",
                TodoAction::Edit => "edit commit",
                TodoAction::MoveUp | TodoAction::MoveDown => "move commit",
                TodoAction::Keep => "rebase",
            },
            Command::Autosquash { .. } => "autosquash",
            Command::State { action, .. } => match action {
                StateAction::Continue => "continue",
                StateAction::Abort => "abort",
                StateAction::Skip => "skip",
            },
            Command::Resolve { .. } => "resolve",
            Command::CreateTag { .. } => "new tag",
            Command::DeleteTag(_) => "delete tag",
            Command::PushTag { .. } => "push tag",
            Command::StashPushOpts { .. } => "stash",
            Command::StashPop(_) => "stash pop",
            Command::StashApply(_) => "stash apply",
            Command::StashDrop(_) => "stash drop",
            Command::BranchFromStash { .. } => "branch from stash",
            Command::RemoteAdd { .. } => "add remote",
            Command::RemoteRemove(_) => "remove remote",
            Command::RemoteRename { .. } => "rename remote",
            Command::RemoteSetUrl { .. } => "remote url",
            Command::Fetch | Command::FetchRemote(_) => "fetch",
            Command::Pull | Command::PullRebase => "pull",
            Command::Push | Command::ForcePush => "push",
            Command::DeleteRemoteBranch { .. } => "delete remote branch",
            Command::PublishGithub { .. } => "publish",
            Command::InitRepo => "init",
        }
    }

    /// True for operations that run the git CLI and stream output.
    pub fn is_network(&self) -> (r: bool)
        ensures
            r == is_network_command(*self),
    {
        match self {
            Command::Fetch
            | Command::FetchRemote(_)
            | Command::Pull
            | Command::PullRebase
            | Command::Push
            | Command::ForcePush
            | Command::PushTag { .. }
            | Command::DeleteRemoteBranch { .. }
            | Command::PublishGithub { .. }
            | Command::Rebase(_)
            | Command::RewriteCommit { .. }
            | Command::Autosquash { .. }
            | Command::State { .. } => true,
            _ => false,
        }
    }
}

/// How many commits below `oid` the rebase starts: one, or two when the
/// commit is combined with or moved below the one before it.
pub open spec fn rewrite_depth(action: TodoAction) -> nat {
    match action {
        TodoAction::Squash | TodoAction::Fixup | TodoAction::MoveDown => 2,
        _ => 1,
    }
}

/// The base of the `git rebase -i` that rewrites `oid`: `--root` for the
/// root commit, else `<oid>~<depth>`.
pub fn rewrite_base(oid: &Oid, action: TodoAction, is_root: bool) -> (r: Vec<String>)
    ensures
        r@.len() == 1,
        is_root ==> r@[0]@ == "--root"@,
        !is_root ==> r@[0]@ == hex_text(oid.bytes@) + seq!['~', if rewrite_depth(action) == 2 { '2' } else { '1' }],
{
    if is_root {
        return vec!["--root".to_owned()];
    }
    let mut s = oid.to_hex();
    let depth = match action {
        TodoAction::Squash | TodoAction::Fixup | TodoAction::MoveDown => '2',
        _ => '1',
    };
    crate::text::push_char(&mut s, '~');
    crate::text::push_char(&mut s, depth);
    vec![s]
}

fn trimmed(s: &str) -> (r: String)
    ensures
        r@ == trim(s@),
{
    let v = chars_of(s);
    let (a, b) = trim_range(v.as_slice());
    string_from_chars(vstd::slice::slice_subrange(v.as_slice(), a, b))
}

pub open spec fn string_views(v: Seq<String>) -> Seq<Seq<char>> {
    v.map_values(|s: String| s@)
}

/// `gh repo create NAME --public|--private --source=. --remote=origin
/// --push [--description DESC]`, name and description trimmed, the
/// description only when it is not blank.
pub open spec fn gh_args_spec(name: Seq<char>, description: Seq<char>, private: bool) -> Seq<Seq<char>> {
    let base = seq![
        "repo"@,
        "create"@,
        trim(name),
        if private { "--private"@ } else { "--public"@ },
        "--source=."@,
        "--remote=origin"@,
        "--push"@,
    ];
    if trim(description).len() > 0 {
        base + seq!["--description"@, trim(description)]
    } else {
        base
    }
}

/// Build `gh repo create` arguments for publishing a local repo.
pub fn gh_repo_create_args(name: &str, description: &str, private: bool) -> (r: Vec<String>)
    ensures
        string_views(r@) == gh_args_spec(name@, description@, private),
{
    let mut args: Vec<String> = Vec::new();
    args.push("repo".to_owned());
    args.push("create".to_owned());
    args.push(trimmed(name));
    args.push(if private { "--private".to_owned() } else { "--public".to_owned() });
    args.push("--source=.".to_owned());
    args.push("--remote=origin".to_owned());
    args.push("--push".to_owned());
    let desc = trimmed(description);
    if !desc.as_str().is_empty() {
        args.push("--description".to_owned());
        args.push(desc);
    }
    proof {
        assert(string_views(args@) =~= gh_args_spec(name@, description@, private));
    }
    args
}


// ---------------------------------------------------------------------------
// Reporting repository operations.

/// What a repository operation handed back, for the message reporting it.
#[derive(Debug, Clone, PartialEq, Eq)]
pub enum OpOutcome {
    /// The operation returns nothing.
    Done,
    /// The commit it made.
    Commit(Oid),
    /// The local branch now checked out.
    Branch(String),
    /// How many commits a fast-forward moved the branch.
    Moved(usize),
    /// What a merge, cherry-pick or revert produced.
    Merge(MergeOutcome),
}

/// The outcome fits the command: what the repository operation behind it
/// returns. Commands the worker handles elsewhere (loading, network
/// operations, init, quit) have no message here.
pub open spec fn outcome_fits(c: Command, o: OpOutcome) -> bool {
    match c {
        Command::Stage(_) | Command::Unstage(_) | Command::StageAll | Command::UnstageAll
        | Command::Discard(_) | Command::DiscardAll | Command::StageLines { .. }
        | Command::UnstageLines { .. } | Command::DiscardLines { .. } | Command::Ignore(_)
        | Command::CheckoutDetached(_) | Command::CreateBranch { .. } | Command::DeleteBranch(_)
        | Command::RenameBranch { .. } | Command::SetUpstream { .. } | Command::Reset { .. }
        | Command::Resolve { .. } | Command::CreateTag { .. } | Command::DeleteTag(_)
        | Command::StashPushOpts { .. } | Command::StashPop(_) | Command::StashApply(_)
        | Command::StashDrop(_) | Command::BranchFromStash { .. } | Command::RemoteAdd { .. }
        | Command::RemoteRemove(_) | Command::RemoteRename { .. } | Command::RemoteSetUrl {
            ..
        } => o is Done,
        Command::StageHunk { hunk_index, .. } | Command::UnstageHunk { hunk_index, .. }
        | Command::DiscardHunk { hunk_index, .. } => o is Done && hunk_index < usize::MAX,
        Command::Commit { .. } => o is Commit,
        Command::Checkout(_) | Command::ForceCheckout(_) | Command::StashAndCheckout { .. } => o is Branch,
        Command::FastForward(_) => o is Moved,
        Command::Merge(_) | Command::CherryPick(_) | Command::Revert(_) => o is Merge,
        _ => false,
    }
}

/// Nothing for one, `s` for any other count.
pub open spec fn plural(n: nat) -> Seq<char> {
    if n == 1 {
        Seq::empty()
    } else {
        "s"@
    }
}

/// `N noun` or `N nouns`.
pub open spec fn counted(n: nat, noun: Seq<char>) -> Seq<char> {
    dec(n) + " "@ + noun + plural(n)
}

/// The first seven hex digits of an id.
pub open spec fn short_text(o: Oid) -> Seq<char> {
    hex_text(o.bytes@).take(7)
}

/// Why an operation stopped on conflicts.
pub open spec fn stopped_text(what: Seq<char>, n: nat) -> Seq<char> {
    what + " stopped: "@ + counted(n, "conflicted file"@) + ", resolve then continue"@
}

/// The report of a repository operation that succeeded: the message shown
/// to the user, or the error a merge, cherry-pick or revert that stopped on
/// conflicts turns into.
pub open spec fn op_message_spec(c: Command, o: OpOutcome) -> Result<Seq<char>, Seq<char>> {
    match c {
        Command::Stage(paths) => Ok("staged "@ + counted(paths.len() as nat, "file"@)),
        Command::Unstage(paths) => Ok("unstaged "@ + counted(paths.len() as nat, "file"@)),
        Command::StageAll => Ok("staged everything"@),
        Command::UnstageAll => Ok("unstaged everything"@),
        Command::Discard(paths) => Ok("discarded "@ + counted(paths.len() as nat, "file"@)),
        Command::DiscardAll => Ok("discarded all changes"@),
        Command::StageHunk { path, hunk_index } => Ok(
            "staged hunk "@ + dec((hunk_index + 1) as nat) + " of "@ + path@,
        ),
        Command::UnstageHunk { path, hunk_index } => Ok(
            "unstaged hunk "@ + dec((hunk_index + 1) as nat) + " of "@ + path@,
        ),
        Command::DiscardHunk { path, hunk_index } => Ok(
            "discarded hunk "@ + dec((hunk_index + 1) as nat) + " of "@ + path@,
        ),
        Command::StageLines { path, lines, .. } => Ok(
            "staged "@ + counted(lines.len() as nat, "line"@) + " of "@ + path@,
        ),
        Command::UnstageLines { path, lines, .. } => Ok(
            "unstaged "@ + counted(lines.len() as nat, "line"@) + " of "@ + path@,
        ),
        Command::DiscardLines { path, lines, .. } => Ok(
            "discarded "@ + counted(lines.len() as nat, "line"@) + " of "@ + path@,
        ),
        Command::Ignore(pattern) => Ok("added "@ + pattern@ + " to .gitignore"@),
        Command::Commit { amend, .. } => Ok(
            (if amend {
                "amended"@
            } else {
                "committed"@
            }) + " "@ + short_text(o->Commit_0),
        ),
        Command::Checkout(_) => Ok("checked out "@ + o->Branch_0@),
        Command::ForceCheckout(_) => Ok(
            "checked out "@ + o->Branch_0@ + " (discarded local changes)"@,
        ),
        Command::StashAndCheckout { .. } => Ok("stashed and checked out "@ + o->Branch_0@),
        Command::CheckoutDetached(oid) => Ok(
            "checked out "@ + short_text(oid) + " (detached HEAD)"@,
        ),
        Command::CreateBranch { name, .. } => Ok("created branch "@ + name@),
        Command::DeleteBranch(name) => Ok("deleted branch "@ + name@),
        Command::RenameBranch { old, new } => Ok("renamed "@ + old@ + " to "@ + new@),
        Command::SetUpstream { branch, upstream } => Ok(
            match upstream {
                Some(u) => branch@ + " now tracks "@ + u@,
                None => branch@ + " no longer tracks an upstream"@,
            },
        ),
        Command::FastForward(name) => Ok(
            if o->Moved_0 == 0 {
                name@ + " is up to date"@
            } else {
                "fast-forwarded "@ + name@ + " by "@ + counted(o->Moved_0 as nat, "commit"@)
            },
        ),
        Command::Merge(name) => match o->Merge_0 {
            MergeOutcome::UpToDate => Ok("already up to date"@),
            MergeOutcome::FastForward => Ok("fast-forwarded to "@ + name@),
            MergeOutcome::Committed(new) => Ok("merged "@ + name@ + " as "@ + short_text(new)),
            MergeOutcome::Conflicts(n) => Err(stopped_text("merge"@, n as nat)),
        },
        Command::CherryPick(oid) => match o->Merge_0 {
            MergeOutcome::Committed(new) => Ok(
                "cherry-picked "@ + short_text(oid) + " as "@ + short_text(new),
            ),
            MergeOutcome::Conflicts(n) => Err(stopped_text("cherry-pick"@, n as nat)),
            _ => Ok("nothing to cherry-pick"@),
        },
        Command::Revert(oid) => match o->Merge_0 {
            MergeOutcome::Committed(new) => Ok(
                "reverted "@ + short_text(oid) + " as "@ + short_text(new),
            ),
            MergeOutcome::Conflicts(n) => Err(stopped_text("revert"@, n as nat)),
            _ => Ok("nothing to revert"@),
        },
        Command::Reset { oid, kind } => Ok(
            "reset ("@ + reset_label(kind) + ") to "@ + short_text(oid),
        ),
        Command::Resolve { path, side } => Ok(
            "resolved "@ + path@ + " with "@ + match side {
                ConflictSide::Ours => "ours"@,
                ConflictSide::Theirs => "theirs"@,
            },
        ),
        Command::CreateTag { name, oid, .. } => Ok("tagged "@ + short_text(oid) + " as "@ + name@),
        Command::DeleteTag(name) => Ok("deleted tag "@ + name@),
        Command::StashPushOpts { .. } => Ok("stashed changes"@),
        Command::StashPop(_) => Ok("stash applied and dropped"@),
        Command::StashApply(_) => Ok("stash applied"@),
        Command::StashDrop(_) => Ok("stash dropped"@),
        Command::BranchFromStash { name, .. } => Ok("created "@ + name@ + " from stash"@),
        Command::RemoteAdd { name, .. } => Ok("added remote "@ + name@),
        Command::RemoteRemove(name) => Ok("removed remote "@ + name@),
        Command::RemoteRename { old, new } => Ok("renamed remote "@ + old@ + " to "@ + new@),
        Command::RemoteSetUrl { name, .. } => Ok("updated url of "@ + name@),
        _ => Ok(Seq::empty()),
    }
}

fn cat2(a: &str, b: &str) -> (r: String)
    ensures
        r@ == a@ + b@,
{
    let mut s = a.to_owned();
    push_str(&mut s, b);
    s
}

fn cat3(a: &str, b: &str, c: &str) -> (r: String)
    ensures
        r@ == a@ + b@ + c@,
{
    let mut s = cat2(a, b);
    push_str(&mut s, c);
    s
}

fn cat4(a: &str, b: &str, c: &str, d: &str) -> (r: String)
    ensures
        r@ == a@ + b@ + c@ + d@,
{
    let mut s = cat3(a, b, c);
    push_str(&mut s, d);
    s
}

fn dec_string(n: usize) -> (r: String)
    ensures
        r@ == dec(n as nat),
{
    let mut s = String::new();
    push_decimal_str(&mut s, n as u64);
    assert(s@ =~= dec(n as nat));
    s
}

fn plural_str(n: usize) -> (r: &'static str)
    ensures
        r@ == plural(n as nat),
{
    if n == 1 {
        proof {
            reveal_strlit("");
        }
        ""
    } else {
        "s"
    }
}

fn counted_string(n: usize, noun: &str) -> (r: String)
    ensures
        r@ == counted(n as nat, noun@),
{
    let d = dec_string(n);
    cat4(d.as_str(), " ", noun, plural_str(n))
}

fn short_string(oid: &Oid) -> (r: String)
    ensures
        r@ == short_text(*oid),
{
    short_id(*oid)
}

fn stopped(what: &str, n: usize) -> (r: String)
    ensures
        r@ == stopped_text(what@, n as nat),
{
    let c = counted_string(n, "conflicted file");
    cat4(what, " stopped: ", c.as_str(), ", resolve then continue")
}

fn hunk_message(lead: &str, path: &str, hunk_index: usize) -> (r: String)
    requires
        hunk_index < usize::MAX,
    ensures
        r@ == lead@ + dec((hunk_index + 1) as nat) + " of "@ + path@,
{
    let d = dec_string(hunk_index + 1);
    let s = cat3(lead, d.as_str(), " of ");
    cat2(s.as_str(), path)
}

fn lines_message(lead: &str, path: &str, n: usize) -> (r: String)
    ensures
        r@ == lead@ + counted(n as nat, "line"@) + " of "@ + path@,
{
    let c = counted_string(n, "line");
    let s = cat3(lead, c.as_str(), " of ");
    cat2(s.as_str(), path)
}

/// The report of a repository operation that succeeded with `outcome`: the
/// message for the user, or the error of a merge, cherry-pick or revert
/// that stopped on conflicts.
pub fn op_message(cmd: &Command, outcome: &OpOutcome) -> (r: Result<String, String>)
    requires
        outcome_fits(*cmd, *outcome),
    ensures
        match (r, op_message_spec(*cmd, *outcome)) {
            (Ok(m), Ok(e)) => m@ == e,
            (Err(m), Err(e)) => m@ == e,
            _ => false,
        },
{
    match cmd {
        Command::Stage(paths) => Ok(cat2("staged ", counted_string(paths.len(), "file").as_str())),
        Command::Unstage(paths) => Ok(cat2("unstaged ", counted_string(paths.len(), "file").as_str())),
        Command::StageAll => Ok("staged everything".to_owned()),
        Command::UnstageAll => Ok("unstaged everything".to_owned()),
        Command::Discard(paths) => Ok(cat2("discarded ", counted_string(paths.len(), "file").as_str())),
        Command::DiscardAll => Ok("discarded all changes".to_owned()),
        Command::StageHunk { path, hunk_index } => Ok(hunk_message("staged hunk ", path.as_str(), *hunk_index)),
        Command::UnstageHunk { path, hunk_index } => Ok(hunk_message("unstaged hunk ", path.as_str(), *hunk_index)),
        Command::DiscardHunk { path, hunk_index } => Ok(
            hunk_message("discarded hunk ", path.as_str(), *hunk_index),
        ),
        Command::StageLines { path, lines, .. } => Ok(lines_message("staged ", path.as_str(), lines.len())),
        Command::UnstageLines { path, lines, .. } => Ok(
            lines_message("unstaged ", path.as_str(), lines.len()),
        ),
        Command::DiscardLines { path, lines, .. } => Ok(
            lines_message("discarded ", path.as_str(), lines.len()),
        ),
        Command::Ignore(pattern) => Ok(cat3("added ", pattern.as_str(), " to .gitignore")),
        Command::Commit { amend, .. } => {
            let oid = match outcome {
                OpOutcome::Commit(o) => *o,
                _ => Oid { bytes: [0u8; 20] },
            };
            let verb = if *amend {
                "amended"
            } else {
                "committed"
            };
            Ok(cat3(verb, " ", short_string(&oid).as_str()))
        },
        Command::Checkout(_) | Command::ForceCheckout(_) | Command::StashAndCheckout { .. } => {
            let local: &str = match outcome {
                OpOutcome::Branch(b) => b.as_str(),
                _ => "",
            };
            match cmd {
                Command::Checkout(_) => Ok(cat2("checked out ", local)),
                Command::ForceCheckout(_) => Ok(cat3("checked out ", local, " (discarded local changes)")),
                _ => Ok(cat2("stashed and checked out ", local)),
            }
        },
        Command::CheckoutDetached(oid) => Ok(
            cat3("checked out ", short_string(oid).as_str(), " (detached HEAD)"),
        ),
        Command::CreateBranch { name, .. } => Ok(cat2("created branch ", name.as_str())),
        Command::DeleteBranch(name) => Ok(cat2("deleted branch ", name.as_str())),
        Command::RenameBranch { old, new } => Ok(cat4("renamed ", old.as_str(), " to ", new.as_str())),
        Command::SetUpstream { branch, upstream } => match upstream {
            Some(u) => Ok(cat3(branch.as_str(), " now tracks ", u.as_str())),
            None => Ok(cat2(branch.as_str(), " no longer tracks an upstream")),
        },
        Command::FastForward(name) => {
            let n: usize = match outcome {
                OpOutcome::Moved(k) => *k,
                _ => 0,
            };
            if n == 0 {
                Ok(cat2(name.as_str(), " is up to date"))
            } else {
                let c = counted_string(n, "commit");
                Ok(cat4("fast-forwarded ", name.as_str(), " by ", c.as_str()))
            }
        },
        Command::Merge(name) => match outcome {
            OpOutcome::Merge(MergeOutcome::UpToDate) => Ok("already up to date".to_owned()),
            OpOutcome::Merge(MergeOutcome::FastForward) => Ok(cat2("fast-forwarded to ", name.as_str())),
            OpOutcome::Merge(MergeOutcome::Committed(new)) => Ok(
                cat4("merged ", name.as_str(), " as ", short_string(new).as_str()),
            ),
            OpOutcome::Merge(MergeOutcome::Conflicts(n)) => Err(stopped("merge", *n)),
            _ => Ok(String::new()),
        },
        Command::CherryPick(oid) => match outcome {
            OpOutcome::Merge(MergeOutcome::Committed(new)) => Ok(
                cat4("cherry-picked ", short_string(oid).as_str(), " as ", short_string(new).as_str()),
            ),
            OpOutcome::Merge(MergeOutcome::Conflicts(n)) => Err(stopped("cherry-pick", *n)),
            _ => Ok("nothing to cherry-pick".to_owned()),
        },
        Command::Revert(oid) => match outcome {
            OpOutcome::Merge(MergeOutcome::Committed(new)) => Ok(
                cat4("reverted ", short_string(oid).as_str(), " as ", short_string(new).as_str()),
            ),
            OpOutcome::Merge(MergeOutcome::Conflicts(n)) => Err(stopped("revert", *n)),
            _ => Ok("nothing to revert".to_owned()),
        },
        Command::Reset { oid, kind } => Ok(
            cat4("reset (", kind.label(), ") to ", short_string(oid).as_str()),
        ),
        Command::Resolve { path, side } => {
            let which = match side {
                ConflictSide::Ours => "ours",
                ConflictSide::Theirs => "theirs",
            };
            Ok(cat4("resolved ", path.as_str(), " with ", which))
        },
        Command::CreateTag { name, oid, .. } => Ok(
            cat4("tagged ", short_string(oid).as_str(), " as ", name.as_str()),
        ),
        Command::DeleteTag(name) => Ok(cat2("deleted tag ", name.as_str())),
        Command::StashPushOpts { .. } => Ok("stashed changes".to_owned()),
        Command::StashPop(_) => Ok("stash applied and dropped".to_owned()),
        Command::StashApply(_) => Ok("stash applied".to_owned()),
        Command::StashDrop(_) => Ok("stash dropped".to_owned()),
        Command::BranchFromStash { name, .. } => Ok(cat3("created ", name.as_str(), " from stash")),
        Command::RemoteAdd { name, .. } => Ok(cat2("added remote ", name.as_str())),
        Command::RemoteRemove(name) => Ok(cat2("removed remote ", name.as_str())),
        Command::RemoteRename { old, new } => Ok(cat4("renamed remote ", old.as_str(), " to ", new.as_str())),
        Command::RemoteSetUrl { name, .. } => Ok(cat2("updated url of ", name.as_str())),
        _ => Ok(String::new()),
    }
}


// ---------------------------------------------------------------------------
// The worker's dispatch.

/// What the worker does with a command, given whether a repository is open.
#[derive(Debug, Clone, PartialEq, Eq)]
pub enum WorkerStep {
    /// Leave the loop.
    Stop,
    /// Create a repository at the worker's path.
    InitRepo,
    /// `init` when a repository is already open: report that.
    AlreadyRepo,
    /// Send a fresh snapshot.
    Refresh,
    /// Raise the commit cap, then send a snapshot.
    LoadMore(usize),
    /// Use these diff options from now on.
    SetDiffOpts(DiffOpts),
    /// Send the diff of a target.
    LoadDiff(DiffTarget),
    /// Send the files a commit changed.
    LoadCommitFiles(Oid),
    /// Nothing to do.
    Ignore,
    /// Commit, then push when the commit succeeded.
    CommitAndPush { message: String, amend: bool },
    /// Create the GitHub repository with `gh`.
    Publish { name: String, description: String, private: bool },
    /// Run the command through the git CLI, streaming its output.
    Network(Command),
    /// Run the command on the repository and report it.
    Write(Command),
    /// Report that there is no repository.
    NoRepo,
}

/// The worker's choice for `c`, in the order its loop tests the cases.
pub open spec fn worker_step_spec(c: Command, has_repo: bool) -> WorkerStep {
    match c {
        Command::Quit => WorkerStep::Stop,
        Command::InitRepo => if has_repo {
            WorkerStep::AlreadyRepo
        } else {
            WorkerStep::InitRepo
        },
        Command::SetDiffOpts(o) => WorkerStep::SetDiffOpts(o),
        Command::Focus(_) => WorkerStep::Ignore,
        _ => if !has_repo {
            WorkerStep::NoRepo
        } else {
            match c {
                Command::Refresh => WorkerStep::Refresh,
                Command::LoadMore(n) => WorkerStep::LoadMore(n),
                Command::LoadDiff(t) => WorkerStep::LoadDiff(t),
                Command::LoadCommitFiles(o) => WorkerStep::LoadCommitFiles(o),
                Command::CommitAndPush { message, amend } => WorkerStep::CommitAndPush { message, amend },
                Command::PublishGithub { name, description, private } => WorkerStep::Publish {
                    name,
                    description,
                    private,
                },
                _ => if is_network_command(c) {
                    WorkerStep::Network(c)
                } else {
                    WorkerStep::Write(c)
                },
            }
        },
    }
}

/// Decide what the worker does with a command it received.
pub fn worker_step(cmd: Command, has_repo: bool) -> (r: WorkerStep)
    ensures
        r == worker_step_spec(cmd, has_repo),
{
    match cmd {
        Command::Quit => WorkerStep::Stop,
        Command::InitRepo => if has_repo {
            WorkerStep::AlreadyRepo
        } else {
            WorkerStep::InitRepo
        },
        Command::SetDiffOpts(o) => WorkerStep::SetDiffOpts(o),
        Command::Focus(_) => WorkerStep::Ignore,
        _ => if !has_repo {
            WorkerStep::NoRepo
        } else {
            let network = cmd.is_network();
            match cmd {
                Command::Refresh => WorkerStep::Refresh,
                Command::LoadMore(n) => WorkerStep::LoadMore(n),
                Command::LoadDiff(t) => WorkerStep::LoadDiff(t),
                Command::LoadCommitFiles(o) => WorkerStep::LoadCommitFiles(o),
                Command::CommitAndPush { message, amend } => WorkerStep::CommitAndPush { message, amend },
                Command::PublishGithub { name, description, private } => WorkerStep::Publish {
                    name,
                    description,
                    private,
                },
                other => if network {
                    WorkerStep::Network(other)
                } else {
                    WorkerStep::Write(other)
                },
            }
        },
    }
}


// ---------------------------------------------------------------------------
// Command lines of the operations that run the git CLI.

/// Pairs of strings as values.
pub open spec fn pair_views(v: Seq<(String, String)>) -> Seq<(Seq<char>, Seq<char>)> {
    v.map_values(|p: (String, String)| (p.0@, p.1@))
}

/// `git push` arguments: forced with lease when asked; when the checked
/// out branch has no upstream and an `origin` remote exists, it is pushed
/// there and set as upstream.
pub open spec fn push_args_spec(force: bool, current: Option<(Seq<char>, Option<Seq<char>>)>, has_origin: bool) -> Seq<Seq<char>> {
    let base = if force {
        seq!["push"@, "--force-with-lease"@]
    } else {
        seq!["push"@]
    };
    match current {
        Some((branch, None)) => if has_origin {
            base + seq!["-u"@, "origin"@, branch]
        } else {
            base
        },
        _ => base,
    }
}

pub open spec fn current_view(c: Option<(String, Option<String>)>) -> Option<(Seq<char>, Option<Seq<char>>)> {
    match c {
        Some((b, u)) => Some(
            (
                b@,
                match u {
                    Some(x) => Some(x@),
                    None => None,
                },
            ),
        ),
        None => None,
    }
}

/// The `git push` arguments for the checked out branch `current` (with its
/// upstream), given whether an `origin` remote exists.
pub fn push_args(force: bool, current: &Option<(String, Option<String>)>, has_origin: bool) -> (r: Vec<String>)
    ensures
        string_views(r@) == push_args_spec(force, current_view(*current), has_origin),
{
    let mut args: Vec<String> = Vec::new();
    args.push("push".to_owned());
    if force {
        args.push("--force-with-lease".to_owned());
    }
    match current {
        Some((branch, None)) => {
            if has_origin {
                args.push("-u".to_owned());
                args.push("origin".to_owned());
                args.push(branch.clone());
            }
        },
        _ => {},
    }
    proof {
        assert(string_views(args@) =~= push_args_spec(force, current_view(*current), has_origin));
    }
    args
}

/// The editor a rebase runs: this program with one of its editor flags.
pub open spec fn editor_env(exe: Seq<char>, flag: Seq<char>) -> Seq<char> {
    seq!['\''] + quote_body(exe) + seq!['\''] + flag
}

/// The environment of an interactive rebase: this program as sequence and
/// commit editor, then `extra`.
pub open spec fn editors_spec(exe: Seq<char>, extra: Seq<(Seq<char>, Seq<char>)>) -> Seq<(Seq<char>, Seq<char>)> {
    seq![
        ("GIT_SEQUENCE_EDITOR"@, editor_env(exe, " --sequence-editor"@)),
        ("GIT_EDITOR"@, editor_env(exe, " --commit-editor"@)),
    ] + extra
}

/// The rebase base as text: `--root`, or `<oid>~<depth>`.
pub open spec fn base_text(oid: Oid, action: TodoAction, is_root: bool) -> Seq<char> {
    if is_root {
        "--root"@
    } else {
        hex_text(oid.bytes@) + seq![
            '~',
            if rewrite_depth(action) == 2 {
                '2'
            } else {
                '1'
            },
        ]
    }
}

/// Arguments and environment of the commands that run the git CLI; other
/// commands have neither. `exe` is this program, for the editors of an
/// interactive rebase; `current` and `has_origin` decide the push target.
pub open spec fn cli_args_spec(
    c: Command,
    exe: Seq<char>,
    current: Option<(Seq<char>, Option<Seq<char>>)>,
    has_origin: bool,
) -> (Seq<Seq<char>>, Seq<(Seq<char>, Seq<char>)>) {
    let quiet = seq![("GIT_EDITOR"@, "true"@)];
    match c {
        Command::Fetch => (seq!["fetch"@, "--all"@, "--prune"@], seq![]),
        Command::FetchRemote(r) => (seq!["fetch"@, r@, "--prune"@], seq![]),
        Command::Pull => (seq!["pull"@], seq![]),
        Command::PullRebase => (seq!["pull"@, "--rebase"@], quiet),
        Command::Push => (push_args_spec(false, current, has_origin), seq![]),
        Command::ForcePush => (push_args_spec(true, current, has_origin), seq![]),
        Command::PushTag { remote, tag } => (seq!["push"@, remote@, tag@], seq![]),
        Command::DeleteRemoteBranch { remote, branch } => (seq!["push"@, remote@, "--delete"@, branch@], seq![]),
        Command::Rebase(onto) => (seq!["rebase"@, onto@], quiet),
        Command::RewriteCommit { oid, action, message, is_root } => (
            seq!["rebase"@, "-i"@, base_text(oid, action, is_root)],
            editors_spec(
                exe,
                seq![(ENV_ACTION@, action_name(action)), (ENV_OID@, hex_text(oid.bytes@))] + match message {
                    Some(m) => seq![(ENV_MESSAGE@, m@)],
                    None => Seq::empty(),
                },
            ),
        ),
        Command::Autosquash { oid, is_root } => (
            seq!["rebase"@, "-i"@, "--autosquash"@, base_text(oid, TodoAction::Keep, is_root)],
            editors_spec(exe, seq![(ENV_ACTION@, action_name(TodoAction::Keep))]),
        ),
        Command::State { action, subcommand } => (seq![subcommand@, state_flag(action)], quiet),
        _ => (seq![], seq![]),
    }
}

fn editor_value(exe: &str, flag: &str) -> (r: String)
    ensures
        r@ == editor_env(exe@, flag@),
{
    let mut s = shell_quote(exe);
    push_str(&mut s, flag);
    s
}

fn editors(exe: &str, extra: Vec<(String, String)>) -> (r: Vec<(String, String)>)
    ensures
        pair_views(r@) == editors_spec(exe@, pair_views(extra@)),
{
    let mut envs: Vec<(String, String)> = Vec::new();
    envs.push(("GIT_SEQUENCE_EDITOR".to_owned(), editor_value(exe, " --sequence-editor")));
    envs.push(("GIT_EDITOR".to_owned(), editor_value(exe, " --commit-editor")));
    let ghost head = pair_views(envs@);
    let mut extra = extra;
    let ghost ex = pair_views(extra@);
    envs.append(&mut extra);
    proof {
        assert(pair_views(envs@) =~= head + ex);
        assert(head =~= seq![
            ("GIT_SEQUENCE_EDITOR"@, editor_env(exe@, " --sequence-editor"@)),
            ("GIT_EDITOR"@, editor_env(exe@, " --commit-editor"@)),
        ]);
    }
    envs
}

pub open spec fn str_views(v: Seq<&str>) -> Seq<Seq<char>> {
    v.map_values(|p: &str| p@)
}

fn strings(parts: &[&str]) -> (r: Vec<String>)
    ensures
        string_views(r@) == str_views(parts@),
{
    let mut out: Vec<String> = Vec::new();
    let mut i: usize = 0;
    while i < parts.len()
        invariant
            i <= parts.len(),
            string_views(out@) == str_views(parts@.take(i as int)),
        decreases parts.len() - i,
    {
        let ghost before = string_views(out@);
        let s = parts[i].to_owned();
        out.push(s);
        proof {
            assert(string_views(out@) =~= before.push(s@));
            assert(str_views(parts@.take(i + 1)) =~= str_views(parts@.take(i as int)).push(parts@[i as int]@));
        }
        i = i + 1;
    }
    assert(parts@.take(parts@.len() as int) =~= parts@);
    out
}

fn quiet_editor() -> (r: Vec<(String, String)>)
    ensures
        pair_views(r@) == seq![("GIT_EDITOR"@, "true"@)],
{
    let r = vec![("GIT_EDITOR".to_owned(), "true".to_owned())];
    assert(pair_views(r@) =~= seq![("GIT_EDITOR"@, "true"@)]);
    r
}

/// The arguments and environment with which the worker runs a command
/// through the git CLI.
pub fn cli_args(cmd: &Command, exe: &str, current: &Option<(String, Option<String>)>, has_origin: bool) -> (r: (
    Vec<String>,
    Vec<(String, String)>,
))
    ensures
        (string_views(r.0@), pair_views(r.1@)) == cli_args_spec(*cmd, exe@, current_view(*current), has_origin),
{
    let none: Vec<(String, String)> = Vec::new();
    assert(pair_views(none@) =~= Seq::<(Seq<char>, Seq<char>)>::empty());
    let r = match cmd {
        Command::Fetch => (strings(&["fetch", "--all", "--prune"]), none),
        Command::FetchRemote(r) => (strings(&["fetch", r.as_str(), "--prune"]), none),
        Command::Pull => (strings(&["pull"]), none),
        Command::PullRebase => (strings(&["pull", "--rebase"]), quiet_editor()),
        Command::Push => (push_args(false, current, has_origin), none),
        Command::ForcePush => (push_args(true, current, has_origin), none),
        Command::PushTag { remote, tag } => (strings(&["push", remote.as_str(), tag.as_str()]), none),
        Command::DeleteRemoteBranch { remote, branch } => (
            strings(&["push", remote.as_str(), "--delete", branch.as_str()]),
            none,
        ),
        Command::Rebase(onto) => (strings(&["rebase", onto.as_str()]), quiet_editor()),
        Command::RewriteCommit { oid, action, message, is_root } => {
            let base = rewrite_base(oid, *action, *is_root);
            let args = strings(&["rebase", "-i", base[0].as_str()]);
            let mut extra: Vec<(String, String)> = Vec::new();
            extra.push((ENV_ACTION.to_owned(), action.as_str().to_owned()));
            extra.push((ENV_OID.to_owned(), oid.to_hex()));
            match message {
                Some(m) => extra.push((ENV_MESSAGE.to_owned(), m.clone())),
                None => {},
            }
            proof {
                assert(pair_views(extra@) =~= seq![(ENV_ACTION@, action_name(*action)), (ENV_OID@, hex_text(oid.bytes@))]
                    + match *message {
                    Some(m) => seq![(ENV_MESSAGE@, m@)],
                    None => Seq::empty(),
                });
            }
            (args, editors(exe, extra))
        },
        Command::Autosquash { oid, is_root } => {
            let base = rewrite_base(oid, TodoAction::Keep, *is_root);
            let args = strings(&["rebase", "-i", "--autosquash", base[0].as_str()]);
            let mut extra: Vec<(String, String)> = Vec::new();
            extra.push((ENV_ACTION.to_owned(), TodoAction::Keep.as_str().to_owned()));
            proof {
                assert(pair_views(extra@) =~= seq![(ENV_ACTION@, action_name(TodoAction::Keep))]);
            }
            (args, editors(exe, extra))
        },
        Command::State { action, subcommand } => (strings(&[*subcommand, action.flag()]), quiet_editor()),
        _ => (Vec::new(), none),
    };
    proof {
        assert((string_views(r.0@), pair_views(r.1@)) =~~= cli_args_spec(*cmd, exe@, current_view(*current), has_origin));
    }
    r
}


// ---------------------------------------------------------------------------
// Outcomes of the CLI runs.

/// The words joined with single spaces.
pub open spec fn joined(v: Seq<Seq<char>>) -> Seq<char>
    decreases v.len(),
{
    if v.len() == 0 {
        Seq::empty()
    } else if v.len() == 1 {
        v[0]
    } else {
        joined(v.drop_last()) + " "@ + v.last()
    }
}

fn join_words(v: &[String]) -> (r: String)
    ensures
        r@ == joined(string_views(v@)),
{
    let mut s = String::new();
    let mut i: usize = 0;
    while i < v.len()
        invariant
            i <= v.len(),
            s@ == joined(string_views(v@).take(i as int)),
        decreases v.len() - i,
    {
        let ghost before = s@;
        if i > 0 {
            push_str(&mut s, " ");
        }
        push_str(&mut s, v[i].as_str());
        proof {
            let t = string_views(v@).take(i + 1);
            assert(t.drop_last() =~= string_views(v@).take(i as int));
            if i == 0 {
                assert(s@ =~= t[0]);
            }
        }
        i = i + 1;
    }
    assert(string_views(v@).take(v@.len() as int) =~= string_views(v@));
    s
}

/// The result of a `git` run: `ARGS done` when it succeeded, else its last
/// line of output, or that it failed with its exit status.
pub open spec fn git_outcome_spec(args: Seq<Seq<char>>, success: bool, status: Seq<char>, last: Seq<char>) -> Result<
    Seq<char>,
    Seq<char>,
> {
    if success {
        Ok(joined(args) + " done"@)
    } else if last.len() == 0 {
        Err("git "@ + (if args.len() > 0 {
            args[0]
        } else {
            Seq::empty()
        }) + " failed ("@ + status + ")"@)
    } else {
        Err(last)
    }
}

/// Report a finished `git ARGS` run: how it exited (`success`, and the
/// exit status as text) and the last line it printed.
pub fn git_outcome(args: &[String], success: bool, status: &str, last: &str) -> (r: Result<String, String>)
    ensures
        match (r, git_outcome_spec(string_views(args@), success, status@, last@)) {
            (Ok(a), Ok(b)) => a@ == b,
            (Err(a), Err(b)) => a@ == b,
            _ => false,
        },
{
    if success {
        let mut m = join_words(args);
        push_str(&mut m, " done");
        Ok(m)
    } else if last.is_empty() {
        let mut m = "git ".to_owned();
        if args.len() > 0 {
            push_str(&mut m, args[0].as_str());
        } else {
            assert(m@ =~= "git "@ + Seq::<char>::empty());
        }
        push_str(&mut m, " failed (");
        push_str(&mut m, status);
        push_str(&mut m, ")");
        Err(m)
    } else {
        Err(last.to_owned())
    }
}

/// The result of a `gh` run: published when it succeeded, else its last
/// line of output, or that it failed with its exit status.
pub open spec fn gh_outcome_spec(args: Seq<Seq<char>>, success: bool, status: Seq<char>, last: Seq<char>) -> Result<
    Seq<char>,
    Seq<char>,
> {
    if success {
        Ok("published to GitHub"@)
    } else if last.len() == 0 {
        Err("gh "@ + joined(args) + " failed ("@ + status + ")"@)
    } else {
        Err(last)
    }
}

/// Report a finished `gh ARGS` run.
pub fn gh_outcome(args: &[String], success: bool, status: &str, last: &str) -> (r: Result<String, String>)
    ensures
        match (r, gh_outcome_spec(string_views(args@), success, status@, last@)) {
            (Ok(a), Ok(b)) => a@ == b,
            (Err(a), Err(b)) => a@ == b,
            _ => false,
        },
{
    if success {
        Ok("published to GitHub".to_owned())
    } else if last.is_empty() {
        let mut m = "gh ".to_owned();
        let j = join_words(args);
        push_str(&mut m, j.as_str());
        push_str(&mut m, " failed (");
        push_str(&mut m, status);
        push_str(&mut m, ")");
        Err(m)
    } else {
        Err(last.to_owned())
    }
}

} // verus!
