//! The diff text of one target, assembled from what a diff walk yields:
//! each delta's kind, sizes and binary flags, and the lines of its hunks.
use vstd::prelude::*;
use vstd::slice::slice_subrange;

use crate::git::repo::{
    line_views, DiffLine, DiffTarget, DiffText, FileKind, Hunk, LineView, TargetView, MAX_DIFF_BYTES,
};
use crate::text::{chars_of, lossy_string, string_from_chars, trim_end, trim_end_index, utf8_lossy};

verus! {

/// The kind of change a delta records.
#[derive(Debug, Clone, Copy, PartialEq, Eq, Structural)]
pub enum DeltaKind {
    Added,
    Untracked,
    Deleted,
    Renamed,
    Typechange,
    /// Modified, or any other kind.
    Other,
}

/// One line of a hunk as the diff walk yields it.
#[derive(Debug, Clone, PartialEq, Eq)]
pub struct RawLine {
    pub origin: char,
    pub old_no: Option<u32>,
    pub new_no: Option<u32>,
    pub content: Vec<u8>,
}

/// One hunk: its header bytes and its lines.
#[derive(Debug, Clone, PartialEq, Eq)]
pub struct RawHunk {
    pub header: Vec<u8>,
    pub lines: Vec<RawLine>,
}

/// One delta: its kind, the sizes and binary flags of both sides, and its
/// hunks (`None` where no patch could be made).
#[derive(Debug, Clone, PartialEq, Eq)]
pub struct RawDelta {
    pub kind: DeltaKind,
    pub old_size: u64,
    pub new_size: u64,
    pub old_binary: bool,
    pub new_binary: bool,
    pub hunks: Option<Vec<RawHunk>>,
}

/// The file kind shown for a delta kind: untracked files show as added.
pub open spec fn delta_file_kind(k: DeltaKind) -> FileKind {
    match k {
        DeltaKind::Added | DeltaKind::Untracked => FileKind::Added,
        DeltaKind::Deleted => FileKind::Deleted,
        DeltaKind::Renamed => FileKind::Renamed,
        DeltaKind::Typechange => FileKind::TypeChange,
        DeltaKind::Other => FileKind::Modified,
    }
}

/// Without the line breaks (`\n`, `\r`) at the end.
pub open spec fn strip_breaks(s: Seq<char>) -> Seq<char>
    decreases s.len(),
{
    if s.len() > 0 && (s.last() == '\n' || s.last() == '\r') {
        strip_breaks(s.drop_last())
    } else {
        s
    }
}

/// The "no newline at end of file" markers.
pub open spec fn is_eof_marker(c: char) -> bool {
    c == '<' || c == '>' || c == '='
}

/// Lines shown in a diff: added, removed, context.
pub open spec fn is_shown(c: char) -> bool {
    c == '+' || c == '-' || c == ' '
}

/// The lines of a hunk from its first `n` raw lines: a marker sets
/// `no_newline` on the line before it, shown lines keep their text without
/// line breaks, other lines are dropped.
pub open spec fn hunk_lines(ls: Seq<RawLine>, n: int) -> Seq<LineView>
    decreases n,
{
    if n <= 0 || n > ls.len() {
        Seq::empty()
    } else {
        let acc = hunk_lines(ls, n - 1);
        let l = ls[n - 1];
        if is_eof_marker(l.origin) {
            if acc.len() > 0 {
                acc.update(acc.len() - 1, LineView { no_newline: true, ..acc.last() })
            } else {
                acc
            }
        } else if is_shown(l.origin) {
            acc.push(
                LineView {
                    origin: l.origin,
                    old_no: l.old_no,
                    new_no: l.new_no,
                    text: strip_breaks(utf8_lossy(l.content@)),
                    no_newline: false,
                },
            )
        } else {
            acc
        }
    }
}

/// A hunk as values: header and lines.
pub type HunkView = (Seq<char>, Seq<LineView>);

pub open spec fn raw_hunk_view(h: RawHunk) -> HunkView {
    (trim_end(utf8_lossy(h.header@)), hunk_lines(h.lines@, h.lines@.len() as int))
}

pub open spec fn raw_hunks_view(hs: Seq<RawHunk>) -> Seq<HunkView> {
    hs.map_values(|h: RawHunk| raw_hunk_view(h))
}

pub open spec fn hunk_view(h: Hunk) -> HunkView {
    (h.header@, line_views(h.lines@))
}

pub open spec fn hunk_views(hs: Seq<Hunk>) -> Seq<HunkView> {
    hs.map_values(|h: Hunk| hunk_view(h))
}

/// The larger side is over the size limit.
pub open spec fn delta_too_large(d: RawDelta) -> bool {
    (if d.new_size >= d.old_size {
        d.new_size
    } else {
        d.old_size
    }) > MAX_DIFF_BYTES
}

/// Flags, status and hunks after the first `n` deltas: the status is that of
/// the last delta; a delta over the size limit only sets `too_large`, a
/// binary one only `binary`, and the hunks of the others are appended.
pub open spec fn diff_upto(ds: Seq<RawDelta>, n: int) -> (bool, bool, FileKind, Seq<HunkView>)
    decreases n,
{
    if n <= 0 || n > ds.len() {
        (false, false, FileKind::Modified, Seq::empty())
    } else {
        let (binary, too_large, _, hunks) = diff_upto(ds, n - 1);
        let d = ds[n - 1];
        let status = delta_file_kind(d.kind);
        if delta_too_large(d) {
            (binary, true, status, hunks)
        } else if d.new_binary || d.old_binary {
            (true, too_large, status, hunks)
        } else {
            match d.hunks {
                None => (binary, too_large, status, hunks),
                Some(hs) => (binary, too_large, status, hunks + raw_hunks_view(hs@)),
            }
        }
    }
}

fn strip_breaks_string(s: String) -> (r: String)
    ensures
        r@ == strip_breaks(s@),
{
    let v = chars_of(s.as_str());
    let mut j: usize = v.len();
    assert(v@.take(j as int) =~= v@);
    while j > 0 && (v[j - 1] == '\n' || v[j - 1] == '\r')
        invariant
            j <= v@.len(),
            v@ == s@,
            strip_breaks(v@) == strip_breaks(v@.take(j as int)),
        decreases j,
    {
        assert(v@.take(j as int).drop_last() =~= v@.take(j - 1));
        j = j - 1;
    }
    string_from_chars(slice_subrange(v.as_slice(), 0, j))
}

fn file_kind_of(k: DeltaKind) -> (r: FileKind)
    ensures
        r == delta_file_kind(k),
{
    match k {
        DeltaKind::Added | DeltaKind::Untracked => FileKind::Added,
        DeltaKind::Deleted => FileKind::Deleted,
        DeltaKind::Renamed => FileKind::Renamed,
        DeltaKind::Typechange => FileKind::TypeChange,
        DeltaKind::Other => FileKind::Modified,
    }
}

/// The lines of one hunk.
fn assemble_lines(ls: &Vec<RawLine>) -> (r: Vec<DiffLine>)
    ensures
        line_views(r@) == hunk_lines(ls@, ls@.len() as int),
{
    let mut out: Vec<DiffLine> = Vec::new();
    let mut i: usize = 0;
    assert(line_views(out@) =~= Seq::<LineView>::empty());
    while i < ls.len()
        invariant
            i <= ls.len(),
            line_views(out@) == hunk_lines(ls@, i as int),
        decreases ls.len() - i,
    {
        let l = &ls[i];
        let ghost before = line_views(out@);
        if l.origin == '<' || l.origin == '>' || l.origin == '=' {
            let n = out.len();
            if n > 0 {
                let mut last = out.pop().unwrap();
                last.no_newline = true;
                out.push(last);
                assert(line_views(out@) =~= before.update(before.len() - 1, LineView { no_newline: true, ..before.last() }));
            }
        } else if l.origin == '+' || l.origin == '-' || l.origin == ' ' {
            let text = strip_breaks_string(lossy_string(l.content.as_slice()));
            out.push(DiffLine { origin: l.origin, old_no: l.old_no, new_no: l.new_no, text, no_newline: false });
            assert(line_views(out@) =~= before.push(out@.last()@));
        }
        i = i + 1;
    }
    out
}

fn assemble_hunk(h: &RawHunk) -> (r: Hunk)
    ensures
        hunk_view(r) == raw_hunk_view(*h),
{
    let header = lossy_string(h.header.as_slice());
    let v = chars_of(header.as_str());
    let j = trim_end_index(v.as_slice());
    let header = string_from_chars(slice_subrange(v.as_slice(), 0, j));
    Hunk { header, lines: assemble_lines(&h.lines) }
}

/// The diff text of `target` from the deltas of its diff: the status of the
/// last delta, `too_large` when a delta's larger side is over the size
/// limit, `binary` when a delta (within the limit) has a binary side, and
/// the hunks of all other deltas in order.
pub fn assemble_diff(target: &DiffTarget, deltas: &[RawDelta]) -> (r: DiffText)
    ensures
        r.target@ == target@,
        ({
            let (binary, too_large, status, hunks) = diff_upto(deltas@, deltas@.len() as int);
            &&& r.binary == binary
            &&& r.too_large == too_large
            &&& r.status == status
            &&& hunk_views(r.hunks@) == hunks
        }),
{
    let mut out = DiffText {
        target: target.copy(),
        binary: false,
        too_large: false,
        status: FileKind::Modified,
        hunks: Vec::new(),
    };
    let mut i: usize = 0;
    assert(hunk_views(out.hunks@) =~= Seq::<HunkView>::empty());
    while i < deltas.len()
        invariant
            i <= deltas.len(),
            out.target@ == target@,
            ({
                let (binary, too_large, status, hunks) = diff_upto(deltas@, i as int);
                &&& out.binary == binary
                &&& out.too_large == too_large
                &&& out.status == status
                &&& hunk_views(out.hunks@) == hunks
            }),
        decreases deltas.len() - i,
    {
        let d = &deltas[i];
        out.status = file_kind_of(d.kind);
        let size = if d.new_size >= d.old_size {
            d.new_size
        } else {
            d.old_size
        };
        if size > MAX_DIFF_BYTES {
            out.too_large = true;
        } else if d.new_binary || d.old_binary {
            out.binary = true;
        } else {
            match &d.hunks {
                None => {},
                Some(hs) => {
                    let mut h: usize = 0;
                    let ghost start = hunk_views(out.hunks@);
                    let ghost flags = (out.binary, out.too_large, out.status);
                    while h < hs.len()
                        invariant
                            h <= hs.len(),
                            out.target@ == target@,
                            (out.binary, out.too_large, out.status) == flags,
                            hunk_views(out.hunks@) == start + raw_hunks_view(hs@.take(h as int)),
                        decreases hs.len() - h,
                    {
                        let ghost before = hunk_views(out.hunks@);
                        let one = assemble_hunk(&hs[h]);
                        out.hunks.push(one);
                        assert(hunk_views(out.hunks@) =~= before.push(raw_hunk_view(hs@[h as int])));
                        assert(raw_hunks_view(hs@.take(h + 1)) =~= raw_hunks_view(hs@.take(h as int)).push(
                            raw_hunk_view(hs@[h as int]),
                        ));
                        h = h + 1;
                    }
                    assert(hs@.take(hs@.len() as int) =~= hs@);
                },
            }
        }
        i = i + 1;
    }
    out
}

} // verus!
