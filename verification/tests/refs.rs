use gitgui::git::refs::{commit_cli_args, commit_row, local_name, branch_list, commit_refs, head_label, tag_list, unborn_branch, RawBranch, RawCommit, RawTag};
use gitgui::git::repo::{HeadInfo, Oid, RefKind, RefLabel};

fn oid(n: u8) -> Oid {
    let mut bytes = [0u8; 20];
    bytes[0] = n;
    Oid { bytes }
}

fn raw(name: &str, n: u8, is_remote: bool) -> RawBranch {
    RawBranch { name: name.into(), oid: oid(n), is_remote, upstream: Some("origin/x".into()), ahead: 2, behind: 1 }
}

#[test]
fn branches_are_local_first_then_by_name() {
    let list = vec![
        raw("origin/main", 1, true),
        raw("origin/HEAD", 1, true),
        raw("topic", 2, false),
        raw("main", 1, false),
    ];
    let (branches, labels) = branch_list(&list, &Some("main".into()));
    let names: Vec<&str> = branches.iter().map(|b| b.name.as_str()).collect();
    assert_eq!(names, vec!["main", "topic", "origin/main"]);
    assert!(branches[0].is_head && !branches[1].is_head && !branches[2].is_head);
    assert_eq!(branches[2].upstream, None);
    assert_eq!((branches[2].ahead, branches[2].behind), (0, 0));
    assert_eq!(branches[0].upstream.as_deref(), Some("origin/x"));
    let label_names: Vec<(&str, RefKind)> = labels.iter().map(|(_, l)| (l.name.as_str(), l.kind)).collect();
    assert_eq!(
        label_names,
        vec![("origin/main", RefKind::RemoteBranch), ("topic", RefKind::LocalBranch), ("main", RefKind::LocalBranch)]
    );
}

#[test]
fn a_remote_branch_named_like_the_head_is_not_the_head() {
    let (branches, _) = branch_list(&[raw("main", 1, true)], &Some("main".into()));
    assert!(!branches[0].is_head);
}

#[test]
fn tags_lose_their_prefix_and_sort() {
    let raw = vec![
        RawTag { refname: b"refs/tags/v2".to_vec(), target: oid(2) },
        RawTag { refname: b"refs/tags/v1".to_vec(), target: oid(1) },
        RawTag { refname: b"odd".to_vec(), target: oid(3) },
    ];
    let (tags, labels) = tag_list(&raw);
    let names: Vec<&str> = tags.iter().map(|t| t.name.as_str()).collect();
    assert_eq!(names, vec!["odd", "v1", "v2"]);
    assert_eq!(tags[1].oid, oid(1));
    assert_eq!(labels[0].1, RefLabel { name: "v2".into(), kind: RefKind::Tag });
    assert_eq!(labels[0].0, oid(2));
}

#[test]
fn refs_of_a_commit_keep_their_order() {
    let labels = vec![
        (oid(1), RefLabel { name: "main".into(), kind: RefKind::LocalBranch }),
        (oid(2), RefLabel { name: "topic".into(), kind: RefKind::LocalBranch }),
        (oid(1), RefLabel { name: "v1".into(), kind: RefKind::Tag }),
    ];
    let refs = commit_refs(&labels, &oid(1));
    assert_eq!(refs.iter().map(|l| l.name.as_str()).collect::<Vec<_>>(), vec!["main", "v1"]);
    assert!(commit_refs(&labels, &oid(9)).is_empty());
}

#[test]
fn detached_head_gets_a_label() {
    let h = Some(HeadInfo { branch_name: None, oid: Some(oid(4)), detached: true });
    assert_eq!(head_label(&h), Some((oid(4), RefLabel { name: "HEAD".into(), kind: RefKind::Head })));
    let h = Some(HeadInfo { branch_name: Some("main".into()), oid: Some(oid(4)), detached: false });
    assert_eq!(head_label(&h), None);
    assert_eq!(head_label(&None), None);
}

#[test]
fn unborn_head_names_its_branch() {
    assert_eq!(unborn_branch("ref: refs/heads/main\n"), Some("main".into()));
    assert_eq!(unborn_branch("  ref: refs/heads/feature/x  "), Some("feature/x".into()));
    assert_eq!(unborn_branch("0123abcd\n"), None);
}

#[test]
fn remote_branches_check_out_under_their_short_name() {
    assert_eq!(local_name("origin/feature/x"), "feature/x");
    assert_eq!(local_name("main"), "main");
    assert_eq!(commit_cli_args("msg", false), vec!["commit", "-m", "msg"]);
    assert_eq!(commit_cli_args("msg", true), vec!["commit", "-m", "msg", "--amend"]);
}

#[test]
fn log_rows_trim_the_body_and_carry_their_labels() {
    let labels = vec![
        (oid(1), RefLabel { name: "main".into(), kind: RefKind::LocalBranch }),
        (oid(2), RefLabel { name: "v1".into(), kind: RefKind::Tag }),
        (oid(1), RefLabel { name: "HEAD".into(), kind: RefKind::Head }),
    ];
    let raw = RawCommit {
        oid: oid(1),
        parents: vec![oid(2)],
        summary: Some("fix".into()),
        body: Some("\n  details here\n\n".into()),
        author: None,
        email: Some("a@b".into()),
        time: 1_700_000_000,
    };
    let row = commit_row(raw, &labels);
    assert_eq!(row.short, oid(1).to_hex()[..7].to_owned());
    assert_eq!(row.parents, vec![oid(2)]);
    assert_eq!(row.summary, "fix");
    assert_eq!(row.body, "details here");
    assert_eq!(row.author, "");
    assert_eq!(row.email, "a@b");
    assert_eq!(row.time, 1_700_000_000);
    assert_eq!(
        row.refs,
        vec![RefLabel { name: "main".into(), kind: RefKind::LocalBranch }, RefLabel { name: "HEAD".into(), kind: RefKind::Head }]
    );
}
