use gitgui::git::actions::{
    commit_url, conflict_path_count, fast_forward_plan, hunk_starts, ignore_line, merge_message, merge_plan, partial_patch,
    pull_request_url, revert_message, web_url, MergePlan, ResetKind,
};
use gitgui::git::repo::{DiffLine, DiffTarget, DiffText, FileKind, Hunk, Oid};

#[test]
fn web_urls() {
    assert_eq!(
        web_url("git@github.com:owner/repo.git").as_deref(),
        Some("https://github.com/owner/repo")
    );
    assert_eq!(
        web_url("https://github.com/owner/repo").as_deref(),
        Some("https://github.com/owner/repo")
    );
    assert_eq!(
        web_url("ssh://git@gitlab.com/group/sub/repo.git").as_deref(),
        Some("https://gitlab.com/group/sub/repo")
    );
    assert_eq!(
        web_url("https://user@bitbucket.org/o/r.git/").as_deref(),
        Some("https://bitbucket.org/o/r")
    );
    assert!(web_url("/local/path").is_none());
    let oid = Oid::from_hex("0123456789abcdef0123456789abcdef01234567").unwrap();
    assert_eq!(
        commit_url("git@github.com:o/r.git", &oid).unwrap(),
        "https://github.com/o/r/commit/0123456789abcdef0123456789abcdef01234567"
    );
    assert!(commit_url("git@gitlab.com:o/r.git", &oid)
        .unwrap()
        .contains("/-/commit/"));
    assert_eq!(
        pull_request_url("https://github.com/o/r.git", "feat").unwrap(),
        "https://github.com/o/r/pull/new/feat"
    );
    assert!(pull_request_url("https://gitlab.com/o/r", "f")
        .unwrap()
        .ends_with("/-/merge_requests/new?merge_request%5Bsource_branch%5D=f"));
    assert!(web_url("git@host-without-path").is_none());
}

fn line(origin: char, old: Option<u32>, new: Option<u32>, text: &str) -> DiffLine {
    DiffLine { origin, old_no: old, new_no: new, text: text.into(), no_newline: false }
}

fn new_file_diff() -> DiffText {
    let mut three = line('+', None, Some(3), "three");
    three.no_newline = true;
    DiffText {
        target: DiffTarget::WorkdirUnstaged("new.txt".into()),
        binary: false,
        too_large: false,
        status: FileKind::Added,
        hunks: vec![Hunk {
            header: "@@ -0,0 +1,3 @@".into(),
            lines: vec![line('+', None, Some(1), "one"), line('+', None, Some(2), "two"), three],
        }],
    }
}

#[test]
fn partial_patch_new_file_and_no_newline() {
    let d = new_file_diff();
    assert!(d.hunks[0].lines[2].no_newline);
    let patch = partial_patch(&d, 0, &[0, 1, 2], false).unwrap();
    let text = String::from_utf8(patch).unwrap();
    assert!(text.contains("--- /dev/null\n+++ b/new.txt\n"));
    assert!(text.contains("@@ -0,0 +1,3 @@\n+one\n+two\n+three\n\\ No newline at end of file\n"));
    // Nothing selected that changes anything: None.
    assert!(partial_patch(&d, 0, &[], false).is_none());
    assert!(partial_patch(&d, 5, &[0], true).is_none());
    assert!(partial_patch(&d, 0, &[7, 9], false).is_none());
    let mut bad = d.clone();
    bad.hunks[0].header = "@@ nonsense @@".into();
    assert!(partial_patch(&bad, 0, &[0], false).is_none());
}

#[test]
fn partial_patch_modified_reverse() {
    let d = DiffText {
        target: DiffTarget::Staged("f".into()),
        binary: false,
        too_large: false,
        status: FileKind::Modified,
        hunks: vec![Hunk {
            header: "@@ -3,3 +3,3 @@ fn x".into(),
            lines: vec![
                line(' ', Some(3), Some(3), "a"),
                line('-', Some(4), None, "b"),
                line('+', None, Some(4), "B"),
                line(' ', Some(5), Some(5), "c"),
            ],
        }],
    };
    let forward = String::from_utf8(partial_patch(&d, 0, &[2], false).unwrap()).unwrap();
    assert_eq!(
        forward,
        "diff --git a/f b/f\n--- a/f\n+++ b/f\n@@ -3,3 +3,4 @@\n a\n b\n+B\n c\n"
    );
    let back = String::from_utf8(partial_patch(&d, 0, &[1], true).unwrap()).unwrap();
    assert_eq!(
        back,
        "diff --git a/f b/f\n--- a/f\n+++ b/f\n@@ -3,3 +3,4 @@\n a\n+b\n B\n c\n"
    );
}

#[test]
fn hunk_header_starts() {
    assert_eq!(hunk_starts("@@ -1,3 +4,5 @@ ctx"), Some((1, 4)));
    assert_eq!(hunk_starts("@@ -7 +9 @@"), Some((7, 9)));
    assert_eq!(hunk_starts("@@ 1,3 +4 @@"), None);
    assert_eq!(hunk_starts("@@"), None);
    assert_eq!(ResetKind::Hard.label(), "hard");
}

#[test]
fn merge_decisions() {
    assert_eq!(merge_plan(true, true, false, true), MergePlan::UpToDate);
    assert_eq!(merge_plan(false, true, false, true), MergePlan::FastForward);
    assert_eq!(merge_plan(false, true, true, true), MergePlan::Merge);
    assert_eq!(merge_plan(false, false, false, false), MergePlan::Impossible);
}

#[test]
fn merge_and_revert_messages() {
    assert_eq!(merge_message("topic", false), "Merge branch 'topic'");
    assert_eq!(merge_message("origin/main", true), "Merge remote-tracking branch 'origin/main'");
    let mut bytes = [0u8; 20];
    bytes[0] = 0xde;
    bytes[19] = 0x01;
    assert_eq!(
        revert_message("add x", &Oid { bytes }),
        "Revert \"add x\"\n\nThis reverts commit de00000000000000000000000000000000000001.\n"
    );
}

#[test]
fn fast_forward_decisions() {
    assert_eq!(fast_forward_plan("main", 0, 0), Ok(0));
    assert_eq!(fast_forward_plan("main", 0, 3), Ok(3));
    assert_eq!(
        fast_forward_plan("main", 2, 5),
        Err("main has diverged from its upstream (2 ahead, 5 behind)".to_owned())
    );
}

#[test]
fn gitignore_lines() {
    assert_eq!(ignore_line("", "*.log"), "*.log\n");
    assert_eq!(ignore_line("target\n", "*.log"), "*.log\n");
    assert_eq!(ignore_line("target", "*.log"), "\n*.log\n");
}

#[test]
fn conflicts_count_distinct_paths() {
    let p = |s: &str| s.as_bytes().to_vec();
    assert_eq!(conflict_path_count(&[p("a.txt"), p("b.txt"), p("a.txt")]), 2);
    assert_eq!(conflict_path_count(&[p("x")]), 1);
    assert_eq!(conflict_path_count(&[]), 1);
    assert_eq!(conflict_path_count(&[p("a"), p("b"), p("c"), p("b"), p("c")]), 3);
}
