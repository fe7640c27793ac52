use gitgui::git::graph::GraphLayout;
use gitgui::git::repo::{FileStatus, RepoSnapshot};
use gitgui::git::repo::{
    conflict_view, rebase_step, reverse_hunk_header, reverse_patch, short_id, DiffOpts, DiffTarget, FileKind,
    Oid, RepoState,
};

#[test]
fn reverse_patch_text() {
    let patch = b"diff --git a/f b/f\nindex 1..2 100644\n--- a/f\n+++ b/f\n@@ -1,3 +1,4 @@ ctx\n a\n-b\n+B\n+c\n d\n\\ No newline at end of file\n";
    let rev = reverse_patch(patch);
    let text = String::from_utf8(rev).unwrap();
    assert_eq!(
        text,
        "diff --git a/f b/f\nindex 1..2 100644\n--- a/f\n+++ b/f\n@@ -1,4 +1,3 @@ ctx\n a\n+b\n-B\n-c\n d\n\\ No newline at end of file\n"
    );
}

#[test]
fn reverse_patch_twice_is_identity() {
    let patch = b"diff --git a/f b/f\n--- a/f\n+++ b/f\n@@ -1,3 +1,4 @@ fn main() {\n a\n-b\n+B\n+c\n d";
    assert_eq!(reverse_patch(&reverse_patch(patch)), patch.to_vec());
}

#[test]
fn hunk_header_forms() {
    assert_eq!(reverse_hunk_header(b"@@ -1 +2 @@"), b"@@ -2 +1 @@".to_vec());
    assert_eq!(reverse_hunk_header(b"@@ -1,2 +3,4"), b"@@ -3,4 +1,2 @@".to_vec());
    assert_eq!(reverse_hunk_header(b"@@ x"), b"@@ x".to_vec());
}

#[test]
fn conflict_view_marks_sides() {
    let text = b"one\n<<<<<<< HEAD\nours\n=======\ntheirs\n>>>>>>> side\nthree\n";
    let d = conflict_view(&DiffTarget::WorkdirUnstaged("c.txt".into()), text);
    assert_eq!(d.status, FileKind::Conflicted);
    let origins: String = d.hunks[0].lines.iter().map(|l| l.origin).collect();
    assert_eq!(origins, "  - +  ");
    assert!(d.hunks[0].header.contains("1 conflict:"));
    assert_eq!(d.hunks[0].lines[2].text, "ours");
    assert_eq!(d.hunks[0].lines[4].text, "theirs");
    assert_eq!(d.hunks[0].lines[2].new_no, None);
    assert_eq!(d.hunks[0].lines[4].old_no, None);
    assert_eq!(d.hunks[0].lines[6].old_no, Some(7));
}

#[test]
fn conflict_view_binary_and_diff3() {
    let d = conflict_view(&DiffTarget::Staged("b".into()), b"a\0b");
    assert!(d.binary && d.hunks.is_empty());
    let text = b"<<<<<<< a\nx\n||||||| base\ny\n=======\nz\n>>>>>>> b\n<<<<<<< a\nq\n=======\nw\n>>>>>>> b\n";
    let d = conflict_view(&DiffTarget::Staged("b".into()), text);
    let origins: String = d.hunks[0].lines.iter().map(|l| l.origin).collect();
    assert_eq!(origins, " -   +  - + ");
    assert!(d.hunks[0].header.starts_with("@@ 2 conflicts:"));
}

#[test]
fn labels_and_ids() {
    assert_eq!(FileKind::Untracked.letter(), "?");
    assert_eq!(FileKind::Conflicted.letter(), "!");
    assert_eq!(RepoState::CherryPick.label(), "cherry-pick");
    assert_eq!(RepoState::Clean.label(), "");
    assert_eq!(RepoState::Rebase.git_subcommand(), Some("rebase"));
    assert_eq!(RepoState::Bisect.git_subcommand(), None);
    assert_eq!(RepoState::default(), RepoState::Clean);
    assert_eq!(DiffOpts::default(), DiffOpts { context: 3, ignore_whitespace: false });
    let mut bytes = [0u8; 20];
    bytes[0] = 0xab;
    bytes[19] = 0x01;
    let oid = Oid { bytes };
    assert_eq!(oid.to_hex(), "ab00000000000000000000000000000000000001");
    assert_eq!(short_id(oid), "ab00000");
    assert!(oid.same(&Oid { bytes }));
    assert_eq!(DiffTarget::Commit(oid, "p".into()).path(), "p");
}

#[test]
fn snapshot_is_dirty_with_any_change() {
    let mut s = RepoSnapshot {
        path: "/r".into(),
        head: None,
        branches: Vec::new(),
        tags: Vec::new(),
        stashes: Vec::new(),
        remotes: Vec::new(),
        remote_urls: Vec::new(),
        commits: Vec::new(),
        graph: GraphLayout::default(),
        truncated: false,
        unstaged: Vec::new(),
        staged: Vec::new(),
        conflicted: Vec::new(),
        user_name: String::new(),
        user_email: String::new(),
        head_message: None,
        state: RepoState::Clean,
        rebase_progress: None,
    };
    assert!(!s.is_dirty());
    s.conflicted.push(FileStatus { path: "a".into(), old_path: None, kind: FileKind::Conflicted });
    assert!(s.is_dirty());
}

#[test]
fn oid_hex_reads_back() {
    let mut bytes = [0u8; 20];
    for (i, b) in bytes.iter_mut().enumerate() {
        *b = (i as u8).wrapping_mul(37).wrapping_add(11);
    }
    let oid = Oid { bytes };
    let text = oid.to_hex();
    assert_eq!(Oid::from_hex(&text), Some(oid));
    assert_eq!(Oid::from_hex(&text.to_uppercase()), Some(oid));
    assert_eq!(Oid::from_hex(&text[..39]), None);
}

#[test]
fn rebase_progress_reads_both_counters() {
    assert_eq!(rebase_step("3\n", " 7 \n"), Some((3, 7)));
    assert_eq!(rebase_step("+2", "10"), Some((2, 10)));
    assert_eq!(rebase_step("", "4"), None);
    assert_eq!(rebase_step("x1", "4"), None);
    assert_eq!(rebase_step("1", "-4"), None);
    assert_eq!(rebase_step("1", "99999999999999999999999"), None);
    assert_eq!(rebase_step("0", "18446744073709551615"), Some((0, usize::MAX)));
}
