//! The three file lists of a repository's status (unstaged, staged,
//! conflicted) built from the raw status entries, each ordered by path.
use vstd::prelude::*;

use crate::git::diff::DeltaKind;
use crate::git::repo::{FileKind, FileStatus};
use crate::text::chars_of;

verus! {

/// The status bits of one entry that the lists read.
#[derive(Debug, Clone, Copy, PartialEq, Eq, Structural)]
pub struct StatusFlags {
    pub conflicted: bool,
    pub index_new: bool,
    pub index_modified: bool,
    pub index_deleted: bool,
    pub index_renamed: bool,
    pub index_typechange: bool,
    pub wt_new: bool,
    pub wt_modified: bool,
    pub wt_deleted: bool,
    pub wt_renamed: bool,
    pub wt_typechange: bool,
}

/// The two paths of a status delta, where it has them.
#[derive(Debug, Clone, PartialEq, Eq)]
pub struct DeltaPaths {
    pub new_path: Option<String>,
    pub old_path: Option<String>,
}

/// One entry of a status walk: its bits, its path, and the deltas from HEAD
/// to the index and from the index to the working tree.
#[derive(Debug, Clone, PartialEq, Eq)]
pub struct StatusEntry {
    pub flags: StatusFlags,
    pub path: String,
    pub head_to_index: Option<DeltaPaths>,
    pub index_to_workdir: Option<DeltaPaths>,
}

/// A file status as values: path, old path, kind.
pub type FileView = (Seq<char>, Option<Seq<char>>, FileKind);

pub open spec fn opt_text(o: Option<String>) -> Option<Seq<char>> {
    match o {
        Some(s) => Some(s@),
        None => None,
    }
}

pub open spec fn file_view(f: FileStatus) -> FileView {
    (f.path@, opt_text(f.old_path), f.kind)
}

pub open spec fn file_views(v: Seq<FileStatus>) -> Seq<FileView> {
    v.map_values(|f: FileStatus| file_view(f))
}

/// The kind of the staged change, if the entry has one.
pub open spec fn staged_kind(f: StatusFlags) -> Option<FileKind> {
    if f.index_new {
        Some(FileKind::Added)
    } else if f.index_deleted {
        Some(FileKind::Deleted)
    } else if f.index_renamed {
        Some(FileKind::Renamed)
    } else if f.index_typechange {
        Some(FileKind::TypeChange)
    } else if f.index_modified {
        Some(FileKind::Modified)
    } else {
        None
    }
}

/// The kind of the unstaged change, if the entry has one.
pub open spec fn unstaged_kind(f: StatusFlags) -> Option<FileKind> {
    if f.wt_new {
        Some(FileKind::Untracked)
    } else if f.wt_deleted {
        Some(FileKind::Deleted)
    } else if f.wt_renamed {
        Some(FileKind::Renamed)
    } else if f.wt_typechange {
        Some(FileKind::TypeChange)
    } else if f.wt_modified {
        Some(FileKind::Modified)
    } else {
        None
    }
}

/// Path and old path of a change: the delta's new path (else the entry's),
/// and its old path only for a rename that changed it.
pub open spec fn change_paths(d: Option<DeltaPaths>, path: Seq<char>, kind: FileKind) -> (Seq<char>, Option<Seq<char>>) {
    match d {
        None => (path, None),
        Some(d) => {
            let new = match d.new_path {
                Some(p) => p@,
                None => path,
            };
            let old = match d.old_path {
                Some(o) => if kind == FileKind::Renamed && o@ != new {
                    Some(o@)
                } else {
                    None
                },
                None => None,
            };
            (new, old)
        },
    }
}

/// What an entry adds to list `which`: 0 unstaged, 1 staged, 2 conflicted.
/// A conflicted entry goes to the conflicted list alone.
pub open spec fn entry_item(e: StatusEntry, which: int) -> Option<FileView> {
    if e.flags.conflicted {
        if which == 2 {
            Some((e.path@, None, FileKind::Conflicted))
        } else {
            None
        }
    } else if which == 1 {
        match staged_kind(e.flags) {
            Some(k) => {
                let (p, o) = change_paths(e.head_to_index, e.path@, k);
                Some((p, o, k))
            },
            None => None,
        }
    } else if which == 0 {
        match unstaged_kind(e.flags) {
            Some(k) => {
                let (p, o) = change_paths(e.index_to_workdir, e.path@, k);
                Some((p, o, k))
            },
            None => None,
        }
    } else {
        None
    }
}

/// Text order of paths, as `str` compares: a prefix comes first, else the
/// first differing char decides.
pub open spec fn path_le(a: Seq<char>, b: Seq<char>) -> bool {
    ||| (a.len() <= b.len() && a == b.take(a.len() as int))
    ||| exists|i: int| #[trigger] differs_at(a, b, i) && (a[i] as u32) < (b[i] as u32)
}

/// `a` and `b` agree before `i` and differ at `i`.
pub open spec fn differs_at(a: Seq<char>, b: Seq<char>, i: int) -> bool {
    0 <= i < a.len() && i < b.len() && a.take(i) == b.take(i) && a[i] != b[i]
}

/// Where an item with path `p` goes in `s`, scanning from `k`: before the
/// first path that sorts after it.
pub open spec fn insert_pos(s: Seq<FileView>, p: Seq<char>, k: int) -> int
    decreases s.len() - k,
{
    if k < 0 || k >= s.len() {
        s.len() as int
    } else if !path_le(s[k].0, p) {
        k
    } else {
        insert_pos(s, p, k + 1)
    }
}

/// Stable ordering by path: each item goes after those that do not sort
/// after it.
pub open spec fn sort_by_path(s: Seq<FileView>) -> Seq<FileView>
    decreases s.len(),
{
    if s.len() == 0 {
        s
    } else {
        let rest = sort_by_path(s.drop_last());
        rest.insert(insert_pos(rest, s.last().0, 0), s.last())
    }
}

/// The items the first `n` entries add to list `which`, in order.
pub open spec fn picked(es: Seq<StatusEntry>, which: int, n: int) -> Seq<FileView>
    decreases n,
{
    if n <= 0 || n > es.len() {
        Seq::empty()
    } else {
        let before = picked(es, which, n - 1);
        match entry_item(es[n - 1], which) {
            Some(x) => before.push(x),
            None => before,
        }
    }
}

/// List `which` of the status: the items of all entries, ordered by path.
pub open spec fn status_list(es: Seq<StatusEntry>, which: int) -> Seq<FileView> {
    sort_by_path(picked(es, which, es.len() as int))
}

pub fn text_le(a: &str, b: &str) -> (r: bool)
    ensures
        r == path_le(a@, b@),
{
    let x = chars_of(a);
    let y = chars_of(b);
    let mut i: usize = 0;
    while i < x.len() && i < y.len()
        invariant
            i <= x.len(),
            i <= y.len(),
            x@ == a@,
            y@ == b@,
            x@.take(i as int) == y@.take(i as int),
        decreases x.len() - i,
    {
        if x[i] != y[i] {
            proof {
                assert(differs_at(a@, b@, i as int));
                if !((x@[i as int] as u32) < (y@[i as int] as u32)) {
                    assert forall|j: int| !(#[trigger] differs_at(a@, b@, j) && (a@[j] as u32) < (b@[j] as u32)) by {
                        if differs_at(a@, b@, j) {
                            if j < i {
                                assert(a@.take(i as int)[j] == b@.take(i as int)[j]);
                            } else if j > i {
                                assert(a@.take(j)[i as int] == b@.take(j)[i as int]);
                            }
                        }
                    }
                    if a@.len() <= b@.len() && a@ == b@.take(a@.len() as int) {
                        assert(a@[i as int] == b@.take(a@.len() as int)[i as int]);
                    }
                }
            }
            return (x[i] as u32) < (y[i] as u32);
        }
        proof {
            assert(x@.take(i + 1) =~= x@.take(i as int).push(x@[i as int]));
            assert(y@.take(i + 1) =~= y@.take(i as int).push(y@[i as int]));
        }
        i = i + 1;
    }
    proof {
        assert forall|j: int| !(#[trigger] differs_at(a@, b@, j) && (a@[j] as u32) < (b@[j] as u32)) by {
            if differs_at(a@, b@, j) {
                assert(a@.take(i as int)[j] == b@.take(i as int)[j]);
            }
        }
        if x.len() <= y.len() {
            assert(x@ =~= x@.take(i as int));
        } else {
            assert(y@ =~= y@.take(i as int));
            assert(!(a@.len() <= b@.len()));
        }
    }
    x.len() <= y.len()
}

fn opt_string(o: &Option<String>) -> (r: Option<String>)
    ensures
        opt_text(r) == opt_text(*o),
{
    match o {
        Some(s) => Some(s.clone()),
        None => None,
    }
}

fn to_file_status(x: (String, Option<String>, FileKind)) -> (r: FileStatus)
    ensures
        file_view(r) == (x.0@, opt_text(x.1), x.2),
{
    FileStatus { path: x.0, old_path: x.1, kind: x.2 }
}

fn change_paths_exec(d: &Option<DeltaPaths>, path: &String, kind: FileKind) -> (r: (String, Option<String>))
    ensures
        (r.0@, opt_text(r.1)) == change_paths(*d, path@, kind),
{
    match d {
        None => (path.clone(), None),
        Some(d) => delta_paths_exec(d, path, kind),
    }
}

fn delta_paths_exec(d: &DeltaPaths, path: &String, kind: FileKind) -> (r: (String, Option<String>))
    ensures
        (r.0@, opt_text(r.1)) == change_paths(Some(*d), path@, kind),
{
    let new = match &d.new_path {
        Some(p) => p.clone(),
        None => path.clone(),
    };
    let old = match &d.old_path {
        Some(o) => {
            let renamed = match kind {
                FileKind::Renamed => true,
                _ => false,
            };
            if renamed && !(*o == new) {
                Some(o.clone())
            } else {
                None
            }
        },
        None => None,
    };
    (new, old)
}

fn staged_kind_exec(f: &StatusFlags) -> (r: Option<FileKind>)
    ensures
        r == staged_kind(*f),
{
    if f.index_new {
        Some(FileKind::Added)
    } else if f.index_deleted {
        Some(FileKind::Deleted)
    } else if f.index_renamed {
        Some(FileKind::Renamed)
    } else if f.index_typechange {
        Some(FileKind::TypeChange)
    } else if f.index_modified {
        Some(FileKind::Modified)
    } else {
        None
    }
}

fn unstaged_kind_exec(f: &StatusFlags) -> (r: Option<FileKind>)
    ensures
        r == unstaged_kind(*f),
{
    if f.wt_new {
        Some(FileKind::Untracked)
    } else if f.wt_deleted {
        Some(FileKind::Deleted)
    } else if f.wt_renamed {
        Some(FileKind::Renamed)
    } else if f.wt_typechange {
        Some(FileKind::TypeChange)
    } else if f.wt_modified {
        Some(FileKind::Modified)
    } else {
        None
    }
}

/// Put `x` into `list` after every item whose path does not sort after its
/// own.
fn insert_by_path(list: &mut Vec<FileStatus>, x: FileStatus)
    ensures
        file_views(final(list)@) == file_views(old(list)@).insert(
            insert_pos(file_views(old(list)@), x.path@, 0),
            file_view(x),
        ),
{
    let ghost s = file_views(list@);
    let mut k: usize = 0;
    while k < list.len()
        invariant
            k <= list.len(),
            s == file_views(list@),
            list@ == old(list)@,
            insert_pos(s, x.path@, 0) == insert_pos(s, x.path@, k as int),
        ensures
            k <= list.len(),
            s == file_views(list@),
            list@ == old(list)@,
            insert_pos(s, x.path@, 0) == k as int,
        decreases list.len() - k,
    {
        if !text_le(list[k].path.as_str(), x.path.as_str()) {
            assert(s[k as int].0 == list@[k as int].path@);
            break;
        }
        k = k + 1;
    }
    list.insert(k, x);
    proof {
        assert(file_views(list@) =~= s.insert(k as int, file_view(x)));
    }
}

/// The unstaged, staged and conflicted lists of a status walk, each ordered
/// by path. A conflicted entry appears in the conflicted list alone; any
/// other entry in the staged list when the index changed it and in the
/// unstaged list when the working tree did.
pub fn status_lists(entries: &[StatusEntry]) -> (r: (Vec<FileStatus>, Vec<FileStatus>, Vec<FileStatus>))
    ensures
        file_views(r.0@) == status_list(entries@, 0),
        file_views(r.1@) == status_list(entries@, 1),
        file_views(r.2@) == status_list(entries@, 2),
{
    let mut unstaged: Vec<FileStatus> = Vec::new();
    let mut staged: Vec<FileStatus> = Vec::new();
    let mut conflicted: Vec<FileStatus> = Vec::new();
    let mut i: usize = 0;
    assert(file_views(unstaged@) =~= Seq::<FileView>::empty());
    while i < entries.len()
        invariant
            i <= entries.len(),
            file_views(unstaged@) == sort_by_path(picked(entries@, 0, i as int)),
            file_views(staged@) == sort_by_path(picked(entries@, 1, i as int)),
            file_views(conflicted@) == sort_by_path(picked(entries@, 2, i as int)),
        decreases entries.len() - i,
    {
        let e = &entries[i];
        proof {
            assert(entries@.take(i + 1).drop_last() =~= entries@.take(i as int));
        }
        if e.flags.conflicted {
            let x = FileStatus { path: e.path.clone(), old_path: None, kind: FileKind::Conflicted };
            insert_by_path(&mut conflicted, x);
            proof {
                assert(picked(entries@, 2, i + 1) == picked(entries@, 2, i as int).push(file_view(x)));
                assert(picked(entries@, 2, i + 1).drop_last() =~= picked(entries@, 2, i as int));
            }
        } else {
            match staged_kind_exec(&e.flags) {
                Some(k) => {
                    let (p, o) = change_paths_exec(&e.head_to_index, &e.path, k);
                    let x = to_file_status((p, o, k));
                    insert_by_path(&mut staged, x);
                    proof {
                        assert(picked(entries@, 1, i + 1).drop_last() =~= picked(entries@, 1, i as int));
                    }
                },
                None => {},
            }
            match unstaged_kind_exec(&e.flags) {
                Some(k) => {
                    let (p, o) = change_paths_exec(&e.index_to_workdir, &e.path, k);
                    let x = to_file_status((p, o, k));
                    insert_by_path(&mut unstaged, x);
                    proof {
                        assert(picked(entries@, 0, i + 1).drop_last() =~= picked(entries@, 0, i as int));
                    }
                },
                None => {},
            }
        }
        i = i + 1;
    }
    (unstaged, staged, conflicted)
}


// ---------------------------------------------------------------------------
// The order of the lists.

/// The first index where `a` and `b` differ, when neither is a prefix of the
/// other.
proof fn lemma_first_difference(a: Seq<char>, b: Seq<char>, k: int) -> (i: int)
    requires
        0 <= k <= a.len(),
        k <= b.len(),
        a.take(k) == b.take(k),
    ensures
        (a.len() <= b.len() && a == b.take(a.len() as int)) || (b.len() <= a.len() && b == a.take(
            b.len() as int,
        )) || differs_at(a, b, i),
    decreases a.len() - k,
{
    if k == a.len() {
        assert(a == a.take(k));
        k
    } else if k == b.len() {
        assert(b == b.take(k));
        k
    } else if a[k] != b[k] {
        k
    } else {
        assert(a.take(k + 1) =~= a.take(k).push(a[k]));
        assert(b.take(k + 1) =~= b.take(k).push(b[k]));
        lemma_first_difference(a, b, k + 1)
    }
}

/// Any two paths are ordered one way or the other.
pub proof fn lemma_path_le_total(a: Seq<char>, b: Seq<char>)
    ensures
        path_le(a, b) || path_le(b, a),
{
    assert(a.take(0) =~= b.take(0));
    let i = lemma_first_difference(a, b, 0);
    if !((a.len() <= b.len() && a == b.take(a.len() as int)) || (b.len() <= a.len() && b == a.take(
        b.len() as int,
    ))) {
        assert(differs_at(a, b, i));
        if (a[i] as u32) < (b[i] as u32) {
            assert(differs_at(a, b, i) && (a[i] as u32) < (b[i] as u32));
        } else {
            if (a[i] as u32) == (b[i] as u32) {
                vstd::utf8::char_u32_cast(a[i], a[i] as u32);
                vstd::utf8::char_u32_cast(b[i], b[i] as u32);
            }
            assert(b.take(i) =~= a.take(i));
            assert(differs_at(b, a, i) && (b[i] as u32) < (a[i] as u32));
        }
    }
}

/// The order of paths is transitive.
pub proof fn lemma_path_le_transitive(a: Seq<char>, b: Seq<char>, c: Seq<char>)
    requires
        path_le(a, b),
        path_le(b, c),
    ensures
        path_le(a, c),
{
    let pab = a.len() <= b.len() && a == b.take(a.len() as int);
    let pbc = b.len() <= c.len() && b == c.take(b.len() as int);
    if pab && pbc {
        assert(a =~= c.take(a.len() as int));
    } else if pab {
        let j = choose|j: int| #[trigger] differs_at(b, c, j) && (b[j] as u32) < (c[j] as u32);
        if j < a.len() {
            assert(a[j] == b[j]);
            assert(a.take(j) =~= b.take(j));
            assert(differs_at(a, c, j) && (a[j] as u32) < (c[j] as u32));
        } else {
            assert forall|t: int| 0 <= t < a.len() implies a[t] == c[t] by {
                assert(a[t] == b[t]);
                assert(b.take(j)[t] == c.take(j)[t]);
            }
            assert(a =~= c.take(a.len() as int));
        }
    } else if pbc {
        let i = choose|i: int| #[trigger] differs_at(a, b, i) && (a[i] as u32) < (b[i] as u32);
        assert(c[i] == b[i]);
        assert(a.take(i) =~= c.take(i)) by {
            assert forall|t: int| 0 <= t < i implies a.take(i)[t] == c.take(i)[t] by {
                assert(a.take(i)[t] == b.take(i)[t]);
                assert(c[t] == b[t]);
            }
        }
        assert(differs_at(a, c, i) && (a[i] as u32) < (c[i] as u32));
    } else {
        let i = choose|i: int| #[trigger] differs_at(a, b, i) && (a[i] as u32) < (b[i] as u32);
        let j = choose|j: int| #[trigger] differs_at(b, c, j) && (b[j] as u32) < (c[j] as u32);
        if i < j {
            assert(b.take(j)[i] == c.take(j)[i]);
            assert(a.take(i) =~= c.take(i)) by {
                assert forall|t: int| 0 <= t < i implies a.take(i)[t] == c.take(i)[t] by {
                    assert(a.take(i)[t] == b.take(i)[t]);
                    assert(b.take(j)[t] == c.take(j)[t]);
                }
            }
            assert(differs_at(a, c, i) && (a[i] as u32) < (c[i] as u32));
        } else if j < i {
            assert(a.take(i)[j] == b.take(i)[j]);
            assert(a.take(j) =~= c.take(j)) by {
                assert forall|t: int| 0 <= t < j implies a.take(j)[t] == c.take(j)[t] by {
                    assert(a.take(i)[t] == b.take(i)[t]);
                    assert(b.take(j)[t] == c.take(j)[t]);
                }
            }
            assert(differs_at(a, c, j) && (a[j] as u32) < (c[j] as u32));
        } else {
            assert(a.take(i) =~= c.take(i)) by {
                assert forall|t: int| 0 <= t < i implies a.take(i)[t] == c.take(i)[t] by {
                    assert(a.take(i)[t] == b.take(i)[t]);
                    assert(b.take(j)[t] == c.take(j)[t]);
                }
            }
            assert(differs_at(a, c, i) && (a[i] as u32) < (c[i] as u32));
        }
    }
}

/// The items are in path order.
pub open spec fn sorted_by_path(s: Seq<FileView>) -> bool {
    forall|i: int, j: int| 0 <= i < j < s.len() ==> path_le(#[trigger] s[i].0, #[trigger] s[j].0)
}

proof fn lemma_insert_pos_facts(s: Seq<FileView>, p: Seq<char>, k: int)
    requires
        0 <= k <= s.len(),
        forall|t: int| 0 <= t < k ==> path_le(#[trigger] s[t].0, p),
    ensures
        k <= insert_pos(s, p, k) <= s.len(),
        forall|t: int| 0 <= t < insert_pos(s, p, k) ==> path_le(#[trigger] s[t].0, p),
        insert_pos(s, p, k) < s.len() ==> !path_le(s[insert_pos(s, p, k)].0, p),
    decreases s.len() - k,
{
    if k < s.len() && path_le(s[k].0, p) {
        lemma_insert_pos_facts(s, p, k + 1);
    }
}

proof fn lemma_insert_sorted(s: Seq<FileView>, x: FileView)
    requires
        sorted_by_path(s),
    ensures
        sorted_by_path(s.insert(insert_pos(s, x.0, 0), x)),
{
    lemma_insert_pos_facts(s, x.0, 0);
    let pos = insert_pos(s, x.0, 0);
    let r = s.insert(pos, x);
    if pos < s.len() {
        lemma_path_le_total(s[pos].0, x.0);
    }
    assert forall|i: int, j: int| 0 <= i < j < r.len() implies path_le(#[trigger] r[i].0, #[trigger] r[j].0) by {
        if j < pos {
            assert(r[i] == s[i] && r[j] == s[j]);
        } else if j == pos {
            assert(r[i] == s[i] && r[j] == x);
        } else if i == pos {
            assert(r[j] == s[j - 1]);
            if j - 1 > pos {
                assert(path_le(s[pos].0, s[j - 1].0));
                lemma_path_le_transitive(x.0, s[pos].0, s[j - 1].0);
            }
        } else if i < pos {
            assert(r[i] == s[i] && r[j] == s[j - 1]);
        } else {
            assert(r[i] == s[i - 1] && r[j] == s[j - 1]);
        }
    }
}

proof fn lemma_sort_sorted(s: Seq<FileView>)
    ensures
        sorted_by_path(sort_by_path(s)),
    decreases s.len(),
{
    if s.len() > 0 {
        lemma_sort_sorted(s.drop_last());
        lemma_insert_sorted(sort_by_path(s.drop_last()), s.last());
    }
}

/// Each status list is ordered by path.
pub proof fn lemma_status_lists_sorted(es: Seq<StatusEntry>, which: int)
    ensures
        sorted_by_path(status_list(es, which)),
{
    lemma_sort_sorted(picked(es, which, es.len() as int));
}

/// One delta of a commit's tree diff against its first parent: its kind and
/// its two paths.
#[derive(Debug, Clone, PartialEq, Eq)]
pub struct CommitDelta {
    pub kind: DeltaKind,
    pub paths: DeltaPaths,
}

/// The kind a commit's file list shows for a delta kind: anything but an
/// addition, deletion, rename or type change shows as modified.
pub open spec fn commit_kind(k: DeltaKind) -> FileKind {
    match k {
        DeltaKind::Added => FileKind::Added,
        DeltaKind::Deleted => FileKind::Deleted,
        DeltaKind::Renamed => FileKind::Renamed,
        DeltaKind::Typechange => FileKind::TypeChange,
        _ => FileKind::Modified,
    }
}

/// A file of a commit: the new path (empty where the delta has none), the
/// old path only for a rename that changed it, and the kind.
pub open spec fn commit_file_view(d: CommitDelta) -> FileView {
    let kind = commit_kind(d.kind);
    let paths = change_paths(Some(d.paths), Seq::empty(), kind);
    (paths.0, paths.1, kind)
}

fn commit_kind_exec(k: DeltaKind) -> (r: FileKind)
    ensures
        r == commit_kind(k),
{
    match k {
        DeltaKind::Added => FileKind::Added,
        DeltaKind::Deleted => FileKind::Deleted,
        DeltaKind::Renamed => FileKind::Renamed,
        DeltaKind::Typechange => FileKind::TypeChange,
        _ => FileKind::Modified,
    }
}

/// The files a commit changed, one per delta, in the order of the deltas.
pub fn commit_file_list(deltas: &[CommitDelta]) -> (r: Vec<FileStatus>)
    ensures
        file_views(r@) == deltas@.map_values(|d: CommitDelta| commit_file_view(d)),
{
    let mut out: Vec<FileStatus> = Vec::new();
    let empty = String::new();
    let mut i: usize = 0;
    while i < deltas.len()
        invariant
            i <= deltas.len(),
            empty@ == Seq::<char>::empty(),
            out@.len() == i,
            forall|j: int| 0 <= j < i ==> file_view(#[trigger] out@[j]) == commit_file_view(deltas@[j]),
        decreases deltas.len() - i,
    {
        let d = &deltas[i];
        let kind = commit_kind_exec(d.kind);
        let (path, old_path) = delta_paths_exec(&d.paths, &empty, kind);
        out.push(FileStatus { path, old_path, kind });
        i = i + 1;
    }
    assert(file_views(out@) =~= deltas@.map_values(|d: CommitDelta| commit_file_view(d)));
    out
}

} // verus!
