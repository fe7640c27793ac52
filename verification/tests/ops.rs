use gitgui::git::actions::{MergeOutcome, ResetKind};
use gitgui::git::ops::{
    cli_args, gh_outcome, git_outcome, gh_repo_create_args, op_message, push_args, rewrite_base, worker_step, Command, OpOutcome,
    StateAction, WorkerStep,
};
use gitgui::git::rebase;
use gitgui::git::rebase::TodoAction;
use gitgui::git::repo::Oid;

#[test]
fn gh_repo_create_args_include_visibility_and_push() {
    let public = gh_repo_create_args("my-app", "hello", false);
    assert!(public.contains(&"my-app".to_string()));
    assert!(public.contains(&"--public".to_string()));
    assert!(public.contains(&"--push".to_string()));
    assert!(public.contains(&"--description".to_string()));
    let private = gh_repo_create_args("user/my-app", "", true);
    assert!(private.contains(&"--private".to_string()));
    assert!(!private.contains(&"--description".to_string()));
}

#[test]
fn gh_args_exact() {
    assert_eq!(
        gh_repo_create_args(" app ", " d ", false),
        vec!["repo", "create", "app", "--public", "--source=.", "--remote=origin", "--push", "--description", "d"]
    );
}

#[test]
fn command_labels_and_network() {
    let oid = Oid { bytes: [7; 20] };
    assert_eq!(Command::Stage(vec![]).label(), "stage");
    assert_eq!(Command::Refresh.label(), "");
    assert_eq!(Command::Reset { oid, kind: ResetKind::Soft }.label(), "reset");
    let rw = Command::RewriteCommit { oid, action: TodoAction::MoveUp, message: None, is_root: false };
    assert_eq!(rw.label(), "move commit");
    assert!(rw.is_network());
    assert!(Command::Fetch.is_network());
    assert!(!Command::StageAll.is_network());
    assert_eq!(Command::State { action: StateAction::Skip, subcommand: "rebase" }.label(), "skip");
    assert_eq!(StateAction::Abort.flag(), "--abort");
}

#[test]
fn rewrite_bases() {
    let oid = Oid::from_hex("0123456789abcdef0123456789abcdef01234567").unwrap();
    assert_eq!(rewrite_base(&oid, TodoAction::Drop, true), vec!["--root"]);
    assert_eq!(
        rewrite_base(&oid, TodoAction::Squash, false),
        vec!["0123456789abcdef0123456789abcdef01234567~2"]
    );
    assert_eq!(
        rewrite_base(&oid, TodoAction::Reword, false),
        vec!["0123456789abcdef0123456789abcdef01234567~1"]
    );
}

fn oid_with(first: u8) -> Oid {
    let mut bytes = [0u8; 20];
    bytes[0] = first;
    Oid { bytes }
}

#[test]
fn op_messages_count_and_pluralize() {
    let one = Command::Stage(vec!["a".into()]);
    assert_eq!(op_message(&one, &OpOutcome::Done), Ok("staged 1 file".to_owned()));
    let two = Command::Discard(vec!["a".into(), "b".into()]);
    assert_eq!(op_message(&two, &OpOutcome::Done), Ok("discarded 2 files".to_owned()));
    let none = Command::Unstage(vec![]);
    assert_eq!(op_message(&none, &OpOutcome::Done), Ok("unstaged 0 files".to_owned()));
    let hunk = Command::StageHunk { path: "src/x.rs".into(), hunk_index: 0 };
    assert_eq!(op_message(&hunk, &OpOutcome::Done), Ok("staged hunk 1 of src/x.rs".to_owned()));
    let lines = Command::DiscardLines { path: "f".into(), hunk_index: 2, lines: vec![1, 2, 3] };
    assert_eq!(op_message(&lines, &OpOutcome::Done), Ok("discarded 3 lines of f".to_owned()));
    let ign = Command::Ignore("*.log".into());
    assert_eq!(op_message(&ign, &OpOutcome::Done), Ok("added *.log to .gitignore".to_owned()));
}

#[test]
fn op_messages_name_commits_and_branches() {
    let c = Command::Commit { message: "m".into(), amend: true };
    assert_eq!(op_message(&c, &OpOutcome::Commit(oid_with(0xab))), Ok("amended ab00000".to_owned()));
    let c = Command::Commit { message: "m".into(), amend: false };
    assert_eq!(op_message(&c, &OpOutcome::Commit(oid_with(0x12))), Ok("committed 1200000".to_owned()));
    let co = Command::ForceCheckout("origin/dev".into());
    assert_eq!(
        op_message(&co, &OpOutcome::Branch("dev".into())),
        Ok("checked out dev (discarded local changes)".to_owned())
    );
    let det = Command::CheckoutDetached(oid_with(0xff));
    assert_eq!(op_message(&det, &OpOutcome::Done), Ok("checked out ff00000 (detached HEAD)".to_owned()));
    let up = Command::SetUpstream { branch: "main".into(), upstream: None };
    assert_eq!(op_message(&up, &OpOutcome::Done), Ok("main no longer tracks an upstream".to_owned()));
    let ff = Command::FastForward("main".into());
    assert_eq!(op_message(&ff, &OpOutcome::Moved(0)), Ok("main is up to date".to_owned()));
    assert_eq!(op_message(&ff, &OpOutcome::Moved(1)), Ok("fast-forwarded main by 1 commit".to_owned()));
    let reset = Command::Reset { oid: oid_with(0x01), kind: ResetKind::Hard };
    assert_eq!(op_message(&reset, &OpOutcome::Done), Ok("reset (hard) to 0100000".to_owned()));
}

#[test]
fn op_messages_for_merges_and_conflicts() {
    let m = Command::Merge("topic".into());
    assert_eq!(
        op_message(&m, &OpOutcome::Merge(MergeOutcome::UpToDate)),
        Ok("already up to date".to_owned())
    );
    assert_eq!(
        op_message(&m, &OpOutcome::Merge(MergeOutcome::Committed(oid_with(0x42)))),
        Ok("merged topic as 4200000".to_owned())
    );
    assert_eq!(
        op_message(&m, &OpOutcome::Merge(MergeOutcome::Conflicts(2))),
        Err("merge stopped: 2 conflicted files, resolve then continue".to_owned())
    );
    let cp = Command::CherryPick(oid_with(0x10));
    assert_eq!(
        op_message(&cp, &OpOutcome::Merge(MergeOutcome::Conflicts(1))),
        Err("cherry-pick stopped: 1 conflicted file, resolve then continue".to_owned())
    );
    assert_eq!(
        op_message(&cp, &OpOutcome::Merge(MergeOutcome::UpToDate)),
        Ok("nothing to cherry-pick".to_owned())
    );
    let rv = Command::Revert(oid_with(0x10));
    assert_eq!(
        op_message(&rv, &OpOutcome::Merge(MergeOutcome::Committed(oid_with(0x20)))),
        Ok("reverted 1000000 as 2000000".to_owned())
    );
}

#[test]
fn worker_dispatch() {
    assert_eq!(worker_step(Command::Quit, true), WorkerStep::Stop);
    assert_eq!(worker_step(Command::InitRepo, true), WorkerStep::AlreadyRepo);
    assert_eq!(worker_step(Command::InitRepo, false), WorkerStep::InitRepo);
    assert_eq!(worker_step(Command::Refresh, false), WorkerStep::NoRepo);
    assert_eq!(worker_step(Command::Focus(true), false), WorkerStep::Ignore);
    assert_eq!(worker_step(Command::LoadMore(10), true), WorkerStep::LoadMore(10));
    assert_eq!(worker_step(Command::Fetch, true), WorkerStep::Network(Command::Fetch));
    assert_eq!(worker_step(Command::StageAll, true), WorkerStep::Write(Command::StageAll));
    assert_eq!(
        worker_step(Command::PublishGithub { name: "n".into(), description: String::new(), private: true }, true),
        WorkerStep::Publish { name: "n".into(), description: String::new(), private: true }
    );
}

#[test]
fn rewrite_commands_build_rebase_invocations() {
    let oid = oid_with(0x5e);
    let exe = "/usr/local/bin/gitgui";
    // A repository with one branch, `main`, no upstream and no remote yet.
    let current = Some(("main".to_owned(), None));
    let (args, envs) = cli_args(
        &Command::RewriteCommit { oid, action: TodoAction::Reword, message: Some("new".into()), is_root: false },
        exe,
        &current,
        false,
    );
    assert_eq!(args, vec!["rebase", "-i", &format!("{}~1", oid.to_hex())]);
    let env = |k: &str| envs.iter().find(|(n, _)| n == k).map(|(_, v)| v.clone());
    assert!(env("GIT_SEQUENCE_EDITOR").unwrap().ends_with("--sequence-editor"));
    assert!(env("GIT_EDITOR").unwrap().ends_with("--commit-editor"));
    assert_eq!(env(rebase::ENV_ACTION).as_deref(), Some("reword"));
    assert_eq!(env(rebase::ENV_OID).as_deref(), Some(oid.to_hex().as_str()));
    assert_eq!(env(rebase::ENV_MESSAGE).as_deref(), Some("new"));
    let (args, _) = cli_args(
        &Command::RewriteCommit { oid, action: TodoAction::Squash, message: None, is_root: false },
        exe,
        &current,
        false,
    );
    assert_eq!(args[2], format!("{}~2", oid.to_hex()), "squash rebases from below the target");
    let (args, _) = cli_args(
        &Command::RewriteCommit { oid, action: TodoAction::Drop, message: None, is_root: true },
        exe,
        &current,
        false,
    );
    assert_eq!(args, vec!["rebase", "-i", "--root"]);
    let (args, _) = cli_args(&Command::Autosquash { oid, is_root: false }, exe, &current, false);
    assert_eq!(args[..3], ["rebase", "-i", "--autosquash"]);
    let (args, envs) =
        cli_args(&Command::State { action: StateAction::Abort, subcommand: "rebase" }, exe, &current, false);
    assert_eq!(args, vec!["rebase", "--abort"]);
    assert!(envs.iter().any(|(k, v)| k == "GIT_EDITOR" && v == "true"));
    assert_eq!(
        cli_args(&Command::DeleteRemoteBranch { remote: "origin".into(), branch: "old".into() }, exe, &current, false)
            .0,
        vec!["push", "origin", "--delete", "old"]
    );
    // Push without an upstream and with an origin sets the upstream.
    assert_eq!(push_args(false, &current, false), vec!["push"]);
    assert_eq!(push_args(true, &current, true), vec!["push", "--force-with-lease", "-u", "origin", "main"]);
}

#[test]
fn editors_quote_the_program_path() {
    let (_, envs) = cli_args(
        &Command::Autosquash { oid: oid_with(1), is_root: true },
        "/opt/my app/it's",
        &None,
        false,
    );
    assert_eq!(envs[0], ("GIT_SEQUENCE_EDITOR".to_owned(), "'/opt/my app/it'\\''s' --sequence-editor".to_owned()));
    assert_eq!(envs[1], ("GIT_EDITOR".to_owned(), "'/opt/my app/it'\\''s' --commit-editor".to_owned()));
    assert_eq!(envs[2], (rebase::ENV_ACTION.to_owned(), "keep".to_owned()));
    assert_eq!(envs.len(), 3);
    let (args, envs) = cli_args(&Command::Fetch, "x", &None, false);
    assert_eq!(args, vec!["fetch", "--all", "--prune"]);
    assert!(envs.is_empty());
    let with_upstream = Some(("main".to_owned(), Some("origin/main".to_owned())));
    assert_eq!(cli_args(&Command::Push, "x", &with_upstream, true).0, vec!["push"]);
    assert!(cli_args(&Command::StageAll, "x", &None, true).0.is_empty());
}

#[test]
fn cli_runs_are_reported() {
    let args: Vec<String> = vec!["push".into(), "-u".into(), "origin".into(), "main".into()];
    assert_eq!(git_outcome(&args, true, "exit status: 0", ""), Ok("push -u origin main done".to_owned()));
    assert_eq!(
        git_outcome(&args, false, "exit status: 1", ""),
        Err("git push failed (exit status: 1)".to_owned())
    );
    assert_eq!(git_outcome(&args, false, "exit status: 1", "rejected"), Err("rejected".to_owned()));
    assert_eq!(git_outcome(&[], false, "signal: 9", ""), Err("git  failed (signal: 9)".to_owned()));
    let gh: Vec<String> = vec!["repo".into(), "create".into(), "x".into()];
    assert_eq!(gh_outcome(&gh, true, "", "whatever"), Ok("published to GitHub".to_owned()));
    assert_eq!(
        gh_outcome(&gh, false, "exit status: 4", ""),
        Err("gh repo create x failed (exit status: 4)".to_owned())
    );
}
