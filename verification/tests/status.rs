use gitgui::git::repo::{FileKind, FileStatus};
use gitgui::git::diff::DeltaKind;
use gitgui::git::status::{commit_file_list, status_lists, CommitDelta, DeltaPaths, StatusEntry, StatusFlags};

fn flags() -> StatusFlags {
    StatusFlags {
        conflicted: false,
        index_new: false,
        index_modified: false,
        index_deleted: false,
        index_renamed: false,
        index_typechange: false,
        wt_new: false,
        wt_modified: false,
        wt_deleted: false,
        wt_renamed: false,
        wt_typechange: false,
    }
}

fn entry(path: &str, f: StatusFlags) -> StatusEntry {
    StatusEntry { flags: f, path: path.into(), head_to_index: None, index_to_workdir: None }
}

fn fs(path: &str, old: Option<&str>, kind: FileKind) -> FileStatus {
    FileStatus { path: path.into(), old_path: old.map(|s| s.to_owned()), kind }
}

#[test]
fn status_lists_split_and_sort() {
    let entries = vec![
        entry("z.txt", StatusFlags { wt_new: true, ..flags() }),
        entry("b.txt", StatusFlags { index_modified: true, wt_modified: true, ..flags() }),
        entry("a.txt", StatusFlags { index_new: true, ..flags() }),
        entry("c.txt", StatusFlags { conflicted: true, index_modified: true, ..flags() }),
        entry("d.txt", StatusFlags { wt_deleted: true, ..flags() }),
    ];
    let (unstaged, staged, conflicted) = status_lists(&entries);
    assert_eq!(
        unstaged,
        vec![fs("b.txt", None, FileKind::Modified), fs("d.txt", None, FileKind::Deleted), fs("z.txt", None, FileKind::Untracked)]
    );
    assert_eq!(staged, vec![fs("a.txt", None, FileKind::Added), fs("b.txt", None, FileKind::Modified)]);
    assert_eq!(conflicted, vec![fs("c.txt", None, FileKind::Conflicted)]);
}

#[test]
fn renames_keep_the_old_path() {
    let mut e = entry("new.rs", StatusFlags { index_renamed: true, ..flags() });
    e.head_to_index = Some(DeltaPaths { new_path: Some("new.rs".into()), old_path: Some("old.rs".into()) });
    let mut m = entry("m.rs", StatusFlags { index_modified: true, ..flags() });
    m.head_to_index = Some(DeltaPaths { new_path: Some("m.rs".into()), old_path: Some("m.rs".into()) });
    let (_, staged, _) = status_lists(&[e, m]);
    assert_eq!(staged, vec![fs("m.rs", None, FileKind::Modified), fs("new.rs", Some("old.rs"), FileKind::Renamed)]);
}

#[test]
fn sort_is_by_text_and_stable() {
    let entries = vec![
        entry("ab", StatusFlags { wt_modified: true, ..flags() }),
        entry("a", StatusFlags { wt_modified: true, ..flags() }),
        entry("B", StatusFlags { wt_modified: true, ..flags() }),
        entry("a", StatusFlags { wt_new: true, ..flags() }),
    ];
    let (unstaged, staged, conflicted) = status_lists(&entries);
    let paths: Vec<(&str, FileKind)> = unstaged.iter().map(|f| (f.path.as_str(), f.kind)).collect();
    assert_eq!(
        paths,
        vec![("B", FileKind::Modified), ("a", FileKind::Modified), ("a", FileKind::Untracked), ("ab", FileKind::Modified)]
    );
    assert!(staged.is_empty() && conflicted.is_empty());
}

fn cd(kind: DeltaKind, new: Option<&str>, old: Option<&str>) -> CommitDelta {
    CommitDelta { kind, paths: DeltaPaths { new_path: new.map(|s| s.to_owned()), old_path: old.map(|s| s.to_owned()) } }
}

#[test]
fn commit_files_keep_delta_order_and_rename_sources() {
    let deltas = vec![
        cd(DeltaKind::Renamed, Some("b.rs"), Some("a.rs")),
        cd(DeltaKind::Added, Some("new.rs"), Some("new.rs")),
        cd(DeltaKind::Untracked, Some("u.rs"), None),
        cd(DeltaKind::Renamed, Some("same.rs"), Some("same.rs")),
        cd(DeltaKind::Typechange, Some("link"), Some("link")),
        cd(DeltaKind::Deleted, None, Some("gone.rs")),
    ];
    assert_eq!(
        commit_file_list(&deltas),
        vec![
            fs("b.rs", Some("a.rs"), FileKind::Renamed),
            fs("new.rs", None, FileKind::Added),
            fs("u.rs", None, FileKind::Modified),
            fs("same.rs", None, FileKind::Renamed),
            fs("link", None, FileKind::TypeChange),
            fs("", None, FileKind::Deleted),
        ]
    );
}
