use gitgui::git::diff::{assemble_diff, DeltaKind, RawDelta, RawHunk, RawLine};
use gitgui::git::repo::{DiffTarget, FileKind};

fn line(origin: char, old_no: Option<u32>, new_no: Option<u32>, content: &[u8]) -> RawLine {
    RawLine { origin, old_no, new_no, content: content.to_vec() }
}

fn delta(kind: DeltaKind, hunks: Option<Vec<RawHunk>>) -> RawDelta {
    RawDelta { kind, old_size: 10, new_size: 12, old_binary: false, new_binary: false, hunks }
}

#[test]
fn lines_lose_breaks_and_markers_flag_the_line_before() {
    let hunk = RawHunk {
        header: b"@@ -1,2 +1,2 @@ fn main()  \n".to_vec(),
        lines: vec![
            line(' ', Some(1), Some(1), b"a\n"),
            line('-', Some(2), None, b"b\r\n"),
            line('<', None, None, b"\n\\ No newline at end of file\n"),
            line('+', None, Some(2), b"c"),
            line('F', None, None, b"file header"),
        ],
    };
    let d = assemble_diff(&DiffTarget::Staged("f".into()), &[delta(DeltaKind::Other, Some(vec![hunk]))]);
    assert_eq!(d.status, FileKind::Modified);
    assert!(!d.binary && !d.too_large);
    assert_eq!(d.hunks.len(), 1);
    assert_eq!(d.hunks[0].header, "@@ -1,2 +1,2 @@ fn main()");
    let texts: Vec<&str> = d.hunks[0].lines.iter().map(|l| l.text.as_str()).collect();
    assert_eq!(texts, vec!["a", "b", "c"]);
    let flags: Vec<bool> = d.hunks[0].lines.iter().map(|l| l.no_newline).collect();
    assert_eq!(flags, vec![false, true, false]);
    assert_eq!(d.hunks[0].lines[1].new_no, None);
    assert_eq!(d.hunks[0].lines[2].new_no, Some(2));
}

#[test]
fn large_and_binary_deltas_have_no_hunks() {
    let mut big = delta(DeltaKind::Added, None);
    big.new_size = 3 * 1024 * 1024;
    let d = assemble_diff(&DiffTarget::WorkdirUnstaged("x".into()), &[big]);
    assert!(d.too_large && !d.binary && d.hunks.is_empty());
    assert_eq!(d.status, FileKind::Added);
    let mut bin = delta(DeltaKind::Untracked, None);
    bin.old_binary = true;
    let d = assemble_diff(&DiffTarget::WorkdirUnstaged("x".into()), &[bin]);
    assert!(d.binary && !d.too_large && d.hunks.is_empty());
    assert_eq!(d.status, FileKind::Added);
}

#[test]
fn status_comes_from_the_last_delta() {
    let d = assemble_diff(
        &DiffTarget::Staged("f".into()),
        &[delta(DeltaKind::Deleted, None), delta(DeltaKind::Typechange, None)],
    );
    assert_eq!(d.status, FileKind::TypeChange);
    let d = assemble_diff(&DiffTarget::Staged("f".into()), &[]);
    assert_eq!(d.status, FileKind::Modified);
    assert!(d.hunks.is_empty());
}

#[test]
fn invalid_utf8_is_replaced() {
    let hunk = RawHunk { header: b"@@ -1 +1 @@".to_vec(), lines: vec![line('+', None, Some(1), b"a\xffb\n")] };
    let d = assemble_diff(&DiffTarget::Staged("f".into()), &[delta(DeltaKind::Renamed, Some(vec![hunk]))]);
    assert_eq!(d.hunks[0].lines[0].text, "a\u{fffd}b");
    assert_eq!(d.status, FileKind::Renamed);
}
