//! What the repository actions compute without the repository: partial
//! patches for staging single lines, and the web pages of a remote.
use vstd::prelude::*;
use vstd::slice::slice_subrange;
use vstd::utf8::encode_utf8;

use crate::git::repo::{
    diff_lines_view, hex_text, target_path, DiffLine, DiffText, FileKind, LineView, Oid,
};
use crate::seqs::{bytes_eq, find_pat, first_index_of, split_chars, split_seq, starts_with};
use crate::text::{
    ascii_chars, chars_of, chars_start_with, decimal, parse_num_chars, parse_u32_chars, push_char,
    push_decimal_str, push_str, skip_white, skip_white_exec, skip_word, skip_word_exec, string_bytes,
    string_from_chars, trim, trim_range,
};

verus! {

/// What a merge, cherry-pick or revert produced.
#[derive(Debug, Clone, Copy, PartialEq, Eq)]
pub enum MergeOutcome {
    UpToDate,
    FastForward,
    Committed(Oid),
    /// Conflicts are left in the index for the user to resolve.
    Conflicts(usize),
}

#[derive(Debug, Clone, Copy, PartialEq, Eq, Structural)]
pub enum ResetKind {
    Soft,
    Mixed,
    Hard,
}

pub open spec fn reset_label(k: ResetKind) -> Seq<char> {
    match k {
        ResetKind::Soft => "soft"@,
        ResetKind::Mixed => "mixed"@,
        ResetKind::Hard => "hard"@,
    }
}

impl ResetKind {
    pub fn label(self) -> (r: &'static str)
        ensures
            r@ == reset_label(self),
    {
        match self {
            ResetKind::Soft => "soft",
            ResetKind::Mixed => "mixed",
            ResetKind::Hard => "hard",
        }
    }
}

/// Which side of a conflict to keep.
#[derive(Debug, Clone, Copy, PartialEq, Eq, Structural)]
pub enum ConflictSide {
    Ours,
    Theirs,
}

// ---------------------------------------------------------------------------
// Hunk headers.

/// The number before the first `,` of a range.
pub open spec fn range_start(r: Seq<char>) -> Option<u32> {
    parse_u32_chars(split_seq(r, ',')[0])
}

/// Parse `@@ -a,b +c,d @@` into (old_start, new_start): the second and
/// third words, which must start with `-` and `+`.
pub open spec fn hunk_starts_spec(h: Seq<char>) -> Option<(u32, u32)> {
    let a0 = skip_white(h, 0);
    let b0 = skip_word(h, a0);
    let a1 = skip_white(h, b0);
    let b1 = skip_word(h, a1);
    let a2 = skip_white(h, b1);
    let b2 = skip_word(h, a2);
    let w1 = h.subrange(a1, b1);
    let w2 = h.subrange(a2, b2);
    if a0 >= h.len() || a1 >= h.len() || a2 >= h.len() {
        None
    } else if w1[0] != '-' || w2[0] != '+' {
        None
    } else {
        match (range_start(w1.skip(1)), range_start(w2.skip(1))) {
            (Some(o), Some(n)) => Some((o, n)),
            _ => None,
        }
    }
}

fn range_start_exec(r: &[char]) -> (v: Option<u32>)
    ensures
        v == range_start(r@),
{
    let parts = split_chars(r, ',');
    proof {
        crate::seqs::lemma_split_seq_len(r@, ',');
    }
    parse_num_chars(parts[0].as_slice())
}

/// Parse `@@ -a,b +c,d @@` into (old_start, new_start).
pub fn hunk_starts(header: &str) -> (r: Option<(u32, u32)>)
    ensures
        r == hunk_starts_spec(header@),
{
    let h = chars_of(header);
    let hs = h.as_slice();
    let a0 = skip_white_exec(hs, 0);
    let b0 = skip_word_exec(hs, a0);
    let a1 = skip_white_exec(hs, b0);
    let b1 = skip_word_exec(hs, a1);
    let a2 = skip_white_exec(hs, b1);
    let b2 = skip_word_exec(hs, a2);
    if a0 >= hs.len() || a1 >= hs.len() || a2 >= hs.len() {
        return None;
    }
    proof {
        crate::text::lemma_skip_white(h@, b0 as int);
        crate::text::lemma_skip_word(h@, a1 as int);
        crate::text::lemma_skip_white(h@, b1 as int);
        crate::text::lemma_skip_word(h@, a2 as int);
    }
    let w1 = slice_subrange(hs, a1, b1);
    let w2 = slice_subrange(hs, a2, b2);
    if w1[0] != '-' || w2[0] != '+' {
        return None;
    }
    let o = range_start_exec(slice_subrange(w1, 1, w1.len()));
    let n = range_start_exec(slice_subrange(w2, 1, w2.len()));
    assert(w1@.subrange(1, w1@.len() as int) =~= w1@.skip(1));
    assert(w2@.subrange(1, w2@.len() as int) =~= w2@.skip(1));
    match (o, n) {
        (Some(o), Some(n)) => Some((o, n)),
        _ => None,
    }
}

// ---------------------------------------------------------------------------
// Partial patches.

/// The origin a diff line gets in a partial patch, or `None` when the line
/// is left out. `keep` says whether the line is selected.
pub open spec fn patch_origin(origin: char, keep: bool, reverse: bool) -> Option<char> {
    if origin == ' ' {
        Some(' ')
    } else if origin == '+' {
        if keep {
            Some(if reverse { '-' } else { '+' })
        } else if reverse {
            Some(' ')
        } else {
            None
        }
    } else if origin == '-' {
        if keep {
            Some(if reverse { '+' } else { '-' })
        } else if reverse {
            None
        } else {
            Some(' ')
        }
    } else {
        None
    }
}

/// The patch body of the first `n` lines and its counts: old side, new
/// side, and changed lines.
pub open spec fn patch_body(lines: Seq<LineView>, sel: Seq<usize>, reverse: bool, n: int) -> (Seq<char>, nat, nat, nat)
    decreases n,
{
    if n <= 0 || n > lines.len() {
        (seq![], 0, 0, 0)
    } else {
        let (body, pre, post, changes) = patch_body(lines, sel, reverse, n - 1);
        let l = lines[n - 1];
        match patch_origin(l.origin, sel.contains((n - 1) as usize), reverse) {
            None => (body, pre, post, changes),
            Some(o) => {
                let text = body + seq![o] + l.text + seq!['\n'] + if l.no_newline {
                    "\\ No newline at end of file\n"@
                } else {
                    ""@
                };
                if o == '+' {
                    (text, pre, post + 1, changes + 1)
                } else if o == '-' {
                    (text, pre + 1, post, changes + 1)
                } else {
                    (text, pre + 1, post + 1, changes)
                }
            },
        }
    }
}

pub open spec fn dec(n: nat) -> Seq<char> {
    ascii_chars(decimal(n))
}

/// The file header lines of a partial patch of `path`.
pub open spec fn patch_file_header(path: Seq<char>, status: FileKind, all_selected: bool, reverse: bool) -> Seq<char> {
    let added = status == FileKind::Added || status == FileKind::Untracked;
    let creates = added && !reverse;
    let deletes = status == FileKind::Deleted && all_selected && !reverse;
    let undo_create = added && all_selected && reverse;
    let undo_delete = status == FileKind::Deleted && reverse;
    if creates || undo_delete {
        "new file mode 100644\n--- /dev/null\n"@ + "+++ b/"@ + path + "\n"@
    } else if deletes || undo_create {
        "deleted file mode 100644\n"@ + "--- a/"@ + path + "\n+++ /dev/null\n"@
    } else {
        "--- a/"@ + path + "\n+++ b/"@ + path + "\n"@
    }
}

/// The hunk header of a partial patch: the start of the side it applies
/// to, and the empty `0` start for a side with no lines.
pub open spec fn patch_hunk_header(start: u32, pre: nat, post: nat) -> Seq<char> {
    let (pre_start, post_start) = if pre == 0 {
        (0nat, if start >= 1 { start as nat } else { 1nat })
    } else if post == 0 {
        (start as nat, 0nat)
    } else {
        (start as nat, start as nat)
    };
    "@@ -"@ + dec(pre_start) + ","@ + dec(pre) + " +"@ + dec(post_start) + ","@ + dec(post) + " @@\n"@
}

pub open spec fn all_selected(n: int, sel: Seq<usize>) -> bool {
    forall|i: int| 0 <= i < n ==> #[trigger] sel.contains(i as usize)
}

/// A unified diff containing only hunk `hunk_index` of `d` with just the
/// selected lines as changes, or `None`.
pub open spec fn partial_patch_spec(d: DiffText, hunk_index: int, sel: Seq<usize>, reverse: bool) -> Option<Seq<u8>> {
    if hunk_index < 0 || hunk_index >= d.hunks@.len() {
        None
    } else {
        let hunk = d.hunks@[hunk_index];
        match hunk_starts_spec(hunk.header@) {
            None => None,
            Some((old_start, new_start)) => {
                let lines = diff_lines_view(hunk.lines@);
                let (body, pre, post, changes) = patch_body(lines, sel, reverse, lines.len() as int);
                if changes == 0 {
                    None
                } else {
                    let path = target_path(d.target);
                    let start = if reverse { new_start } else { old_start };
                    Some(encode_utf8(
                        "diff --git a/"@ + path + " b/"@ + path + "\n"@ + patch_file_header(
                            path,
                            d.status,
                            all_selected(lines.len() as int, sel),
                            reverse,
                        ) + patch_hunk_header(start, pre, post) + body,
                    ))
                }
            },
        }
    }
}

/// A line of the side a patch applies to: context, and the removed lines
/// of a forward patch (the old side) or the added lines of a reverse one
/// (the new side).
pub open spec fn on_side(origin: char, reverse: bool) -> bool {
    origin == ' ' || origin == if reverse {
        '+'
    } else {
        '-'
    }
}

/// The texts of the first `n` lines of the side a patch applies to.
pub open spec fn side_texts(lines: Seq<LineView>, reverse: bool, n: int) -> Seq<Seq<char>>
    decreases n,
{
    if n <= 0 || n > lines.len() {
        seq![]
    } else {
        side_texts(lines, reverse, n - 1) + if on_side(lines[n - 1].origin, reverse) {
            seq![lines[n - 1].text]
        } else {
            Seq::<Seq<char>>::empty()
        }
    }
}

/// The texts of the patch's preimage lines (its context and removed
/// lines) for the first `n` lines of the hunk.
pub open spec fn patch_preimage(lines: Seq<LineView>, sel: Seq<usize>, reverse: bool, n: int) -> Seq<Seq<char>>
    decreases n,
{
    if n <= 0 || n > lines.len() {
        seq![]
    } else {
        patch_preimage(lines, sel, reverse, n - 1) + match patch_origin(
            lines[n - 1].origin,
            sel.contains((n - 1) as usize),
            reverse,
        ) {
            Some(o) => if o == ' ' || o == '-' {
                seq![lines[n - 1].text]
            } else {
                Seq::<Seq<char>>::empty()
            },
            None => Seq::<Seq<char>>::empty(),
        }
    }
}

/// A partial patch applies to one side of the hunk, whatever is selected:
/// a forward patch (staging) to the old side, a reverse one (unstaging,
/// discarding) to the new side. Its preimage is exactly that side's lines,
/// in order, and its hunk header counts them; so a removed line that is
/// not selected never shows in a reverse patch.
pub proof fn lemma_patch_applies_to_its_side(lines: Seq<LineView>, sel: Seq<usize>, reverse: bool, n: int)
    requires
        0 <= n <= lines.len(),
    ensures
        patch_preimage(lines, sel, reverse, n) == side_texts(lines, reverse, n),
        patch_body(lines, sel, reverse, n).1 == side_texts(lines, reverse, n).len(),
    decreases n,
{
    if n > 0 {
        lemma_patch_applies_to_its_side(lines, sel, reverse, n - 1);
    }
}

/// An added or removed line.
pub open spec fn is_change(origin: char) -> bool {
    origin == '+' || origin == '-'
}

/// Some selected line among the first `n` is an added or removed line.
pub open spec fn selects_change(lines: Seq<LineView>, sel: Seq<usize>, n: int) -> bool {
    exists|i: int| 0 <= i < n && #[trigger] sel.contains(i as usize) && is_change(lines[i].origin)
}

proof fn lemma_no_changes(lines: Seq<LineView>, sel: Seq<usize>, reverse: bool, n: int)
    requires
        0 <= n <= lines.len(),
    ensures
        (patch_body(lines, sel, reverse, n).3 == 0) <==> !selects_change(lines, sel, n),
    decreases n,
{
    if n > 0 {
        lemma_no_changes(lines, sel, reverse, n - 1);
        let l = lines[n - 1];
        let keep = sel.contains((n - 1) as usize);
        if keep && is_change(l.origin) {
            assert(selects_change(lines, sel, n));
        } else if selects_change(lines, sel, n) {
            let i = choose|i: int| 0 <= i < n && #[trigger] sel.contains(i as usize) && is_change(lines[i].origin);
            assert(i != n - 1);
            assert(selects_change(lines, sel, n - 1));
        } else {
            if selects_change(lines, sel, n - 1) {
                let i = choose|i: int| 0 <= i < n - 1 && #[trigger] sel.contains(i as usize) && is_change(lines[i].origin);
                assert(selects_change(lines, sel, n));
            }
        }
    }
}

/// A partial patch is made exactly when the hunk exists, its header gives
/// both starts, and some selected line is an added or removed line.
pub proof fn lemma_partial_patch_none(d: DiffText, hunk_index: int, sel: Seq<usize>, reverse: bool)
    ensures
        partial_patch_spec(d, hunk_index, sel, reverse) is None <==> (hunk_index < 0 || hunk_index
            >= d.hunks@.len() || hunk_starts_spec(d.hunks@[hunk_index].header@) is None
            || !selects_change(
            diff_lines_view(d.hunks@[hunk_index].lines@),
            sel,
            d.hunks@[hunk_index].lines@.len() as int,
        )),
{
    if 0 <= hunk_index < d.hunks@.len() {
        let lines = diff_lines_view(d.hunks@[hunk_index].lines@);
        lemma_no_changes(lines, sel, reverse, lines.len() as int);
    }
}

fn contains_index(sel: &[usize], i: usize) -> (r: bool)
    ensures
        r == sel@.contains(i),
{
    let mut k: usize = 0;
    while k < sel.len()
        invariant
            k <= sel.len(),
            forall|j: int| 0 <= j < k ==> sel@[j] != i,
        decreases sel.len() - k,
    {
        if sel[k] == i {
            assert(sel@[k as int] == i);
            return true;
        }
        k = k + 1;
    }
    false
}

fn push_dec(s: &mut String, n: u32)
    ensures
        final(s)@ == old(s)@ + dec(n as nat),
{
    push_decimal_str(s, n as u64);
}

fn patch_origin_exec(origin: char, keep: bool, reverse: bool) -> (r: Option<char>)
    ensures
        r == patch_origin(origin, keep, reverse),
{
    if origin == ' ' {
        Some(' ')
    } else if origin == '+' {
        if keep {
            Some(if reverse { '-' } else { '+' })
        } else if reverse {
            Some(' ')
        } else {
            None
        }
    } else if origin == '-' {
        if keep {
            Some(if reverse { '+' } else { '-' })
        } else if reverse {
            None
        } else {
            Some(' ')
        }
    } else {
        None
    }
}

/// The body of a partial patch of `lines` and its counts, and whether
/// every line is selected.
fn patch_body_exec(lines: &Vec<DiffLine>, selected: &[usize], reverse: bool) -> (r: (String, u32, u32, usize, bool))
    requires
        lines@.len() < u32::MAX,
    ensures
        (r.0@, r.1 as nat, r.2 as nat, r.3 as nat) == patch_body(diff_lines_view(lines@), selected@, reverse, lines@.len() as int),
        r.4 == all_selected(lines@.len() as int, selected@),
{
    let ghost lv = diff_lines_view(lines@);
    let n = lines.len();
    let mut body = String::new();
    let mut pre_count: u32 = 0;
    let mut post_count: u32 = 0;
    let mut changes: usize = 0;
    let mut all = true;
    let mut i: usize = 0;
    while i < n
        invariant
            i <= n,
            n == lines@.len(),
            n < u32::MAX,
            lv == diff_lines_view(lines@),
            (body@, pre_count as nat, post_count as nat, changes as nat) == patch_body(lv, selected@, reverse, i as int),
            pre_count <= i,
            post_count <= i,
            changes <= i,
            all == all_selected(i as int, selected@),
        decreases n - i,
    {
        let l = &lines[i];
        let keep = contains_index(selected, i);
        proof {
            if all && keep {
                assert forall|j: int| 0 <= j < i + 1 implies #[trigger] selected@.contains(j as usize) by {
                    if j < i {
                        assert(all_selected(i as int, selected@));
                    }
                }
            }
        }
        all = all && keep;
        match patch_origin_exec(l.origin, keep, reverse) {
            None => {},
            Some(origin) => {
                if origin == '+' {
                    post_count = post_count + 1;
                    changes = changes + 1;
                } else if origin == '-' {
                    pre_count = pre_count + 1;
                    changes = changes + 1;
                } else {
                    pre_count = pre_count + 1;
                    post_count = post_count + 1;
                }
                push_char(&mut body, origin);
                push_str(&mut body, l.text.as_str());
                push_char(&mut body, '\n');
                if l.no_newline {
                    push_str(&mut body, "\\ No newline at end of file\n");
                } else {
                    proof {
                        reveal_strlit("");
                    }
                    assert(body@ =~= body@ + ""@);
                }
            },
        }
        i = i + 1;
    }
    (body, pre_count, post_count, changes, all)
}

fn patch_file_header_exec(path: &str, status: FileKind, all: bool, reverse: bool) -> (r: String)
    ensures
        r@ == patch_file_header(path@, status, all, reverse),
{
    let added = status == FileKind::Added || status == FileKind::Untracked;
    let creates = added && !reverse;
    let deletes = status == FileKind::Deleted && all && !reverse;
    let undo_create = added && all && reverse;
    let undo_delete = status == FileKind::Deleted && reverse;
    let mut out = String::new();
    if creates || undo_delete {
        push_str(&mut out, "new file mode 100644\n--- /dev/null\n");
        push_str(&mut out, "+++ b/");
        push_str(&mut out, path);
        push_str(&mut out, "\n");
    } else if deletes || undo_create {
        push_str(&mut out, "deleted file mode 100644\n");
        push_str(&mut out, "--- a/");
        push_str(&mut out, path);
        push_str(&mut out, "\n+++ /dev/null\n");
    } else {
        push_str(&mut out, "--- a/");
        push_str(&mut out, path);
        push_str(&mut out, "\n+++ b/");
        push_str(&mut out, path);
        push_str(&mut out, "\n");
    }
    assert(out@ =~= patch_file_header(path@, status, all, reverse));
    out
}

fn patch_hunk_header_exec(start: u32, pre: u32, post: u32) -> (r: String)
    ensures
        r@ == patch_hunk_header(start, pre as nat, post as nat),
{
    let (pre_start, post_start): (u32, u32) = if pre == 0 {
        (0, if start >= 1 { start } else { 1 })
    } else if post == 0 {
        (start, 0)
    } else {
        (start, start)
    };
    let mut out = String::new();
    push_str(&mut out, "@@ -");
    push_dec(&mut out, pre_start);
    push_str(&mut out, ",");
    push_dec(&mut out, pre);
    push_str(&mut out, " +");
    push_dec(&mut out, post_start);
    push_str(&mut out, ",");
    push_dec(&mut out, post);
    push_str(&mut out, " @@\n");
    assert(out@ =~= patch_hunk_header(start, pre as nat, post as nat));
    out
}

/// Build a unified diff containing only hunk `hunk_index` of `d` with just
/// the selected lines as changes. With `reverse == false` the patch goes in
/// the direction of `d` and applies to the old side (staging): unselected
/// removals become context, unselected additions are dropped. With `reverse
/// == true` the patch undoes the selected lines and applies to the new side
/// (unstaging, discarding): unselected additions become context, unselected
/// removals are dropped. Returns `None` when no selected line is a change.
pub fn partial_patch(d: &DiffText, hunk_index: usize, selected: &[usize], reverse: bool) -> (r: Option<Vec<u8>>)
    requires
        hunk_index < d.hunks@.len() ==> d.hunks@[hunk_index as int].lines@.len() < u32::MAX,
    ensures
        match r {
            Some(b) => partial_patch_spec(*d, hunk_index as int, selected@, reverse) == Some(b@),
            None => partial_patch_spec(*d, hunk_index as int, selected@, reverse) is None,
        },
{
    if hunk_index >= d.hunks.len() {
        return None;
    }
    let hunk = &d.hunks[hunk_index];
    let (old_start, new_start) = match hunk_starts(hunk.header.as_str()) {
        Some(p) => p,
        None => return None,
    };
    let (body, pre, post, changes, all) = patch_body_exec(&hunk.lines, selected, reverse);
    if changes == 0 {
        return None;
    }
    let path = d.target.path();
    let mut out = "diff --git a/".to_owned();
    push_str(&mut out, path);
    push_str(&mut out, " b/");
    push_str(&mut out, path);
    push_str(&mut out, "\n");
    let fh = patch_file_header_exec(path, d.status, all, reverse);
    push_str(&mut out, fh.as_str());
    let start = if reverse { new_start } else { old_start };
    let hh = patch_hunk_header_exec(start, pre, post);
    push_str(&mut out, hh.as_str());
    push_str(&mut out, body.as_str());
    Some(string_bytes(out))
}

// ---------------------------------------------------------------------------
// Web pages of a remote.

/// Everything up to the first `c`, and everything after it.
pub open spec fn split_once(s: Seq<char>, c: char) -> Option<(Seq<char>, Seq<char>)> {
    match first_index_of(s, c) {
        Some(i) => Some((s.take(i), s.skip(i + 1))),
        None => None,
    }
}

/// What follows the first `@`, or all of it.
pub open spec fn after_user(s: Seq<char>) -> Seq<char> {
    match split_once(s, '@') {
        Some((_, r)) => r,
        None => s,
    }
}

/// Without trailing `c`s.
pub open spec fn trim_end_char(s: Seq<char>, c: char) -> Seq<char>
    decreases s.len(),
{
    if s.len() > 0 && s.last() == c {
        trim_end_char(s.drop_last(), c)
    } else {
        s
    }
}

/// Host and path of a remote URL: `git@host:path`, `ssh://[user@]host/path`,
/// `http(s)://[user@]host/path`.
pub open spec fn host_and_path(s: Seq<char>) -> Option<(Seq<char>, Seq<char>)> {
    if starts_with(s, "git@"@) {
        split_once(s.skip(4), ':')
    } else if starts_with(s, "ssh://"@) {
        split_once(after_user(s.skip(6)), '/')
    } else if starts_with(s, "https://"@) {
        split_once(after_user(s.skip(8)), '/')
    } else if starts_with(s, "http://"@) {
        split_once(after_user(s.skip(7)), '/')
    } else {
        None
    }
}

/// The https page of a remote, for GitHub-style hosts.
pub open spec fn web_url_spec(remote: Seq<char>) -> Option<Seq<char>> {
    match host_and_path(trim(remote)) {
        None => None,
        Some((host, path)) => {
            let p = trim_end_char(path, '/');
            let p = if crate::seqs::ends_with(p, ".git"@) {
                p.take(p.len() - 4)
            } else {
                p
            };
            if host.len() == 0 || p.len() == 0 {
                None
            } else {
                Some("https://"@ + host + "/"@ + p)
            }
        },
    }
}

fn split_once_exec(s: &[char], c: char) -> (r: Option<(Vec<char>, Vec<char>)>)
    ensures
        match r {
            Some((a, b)) => split_once(s@, c) == Some((a@, b@)),
            None => split_once(s@, c) is None,
        },
{
    match crate::seqs::find_char(s, c) {
        Some(i) => {
            proof {
                crate::seqs::lemma_first_index_facts(s@, c);
                assert(crate::seqs::is_first_index(s@, c, i as int));
            }
            let n = s.len();
            let a = vstd::slice::slice_to_vec(slice_subrange(s, 0, i));
            let b = vstd::slice::slice_to_vec(slice_subrange(s, i + 1, n));
            assert(a@ =~= s@.take(i as int));
            assert(b@ =~= s@.skip(i + 1));
            Some((a, b))
        },
        None => None,
    }
}

fn after_user_exec(s: &[char]) -> (r: Vec<char>)
    ensures
        r@ == after_user(s@),
{
    match split_once_exec(s, '@') {
        Some((_, r)) => r,
        None => vstd::slice::slice_to_vec(s),
    }
}

fn lit(s: &str) -> (r: Vec<char>)
    ensures
        r@ == s@,
{
    chars_of(s)
}

/// Turn a remote URL into the https URL of its web page, for GitHub-style
/// hosts. `git@github.com:o/r.git` and `https://github.com/o/r.git` both
/// give `https://github.com/o/r`.
pub fn web_url(remote: &str) -> (r: Option<String>)
    ensures
        match r {
            Some(u) => web_url_spec(remote@) == Some(u@),
            None => web_url_spec(remote@) is None,
        },
{
    let v = chars_of(remote);
    let (a, b) = trim_range(v.as_slice());
    let s = slice_subrange(v.as_slice(), a, b);
    let n = s.len();
    let git_at = lit("git@");
    let ssh = lit("ssh://");
    let https = lit("https://");
    let http = lit("http://");
    proof {
        reveal_strlit("git@");
        reveal_strlit("ssh://");
        reveal_strlit("https://");
        reveal_strlit("http://");
    }
    let hp = if chars_start_with(s, git_at.as_slice()) {
        assert(s@.subrange(4, n as int) =~= s@.skip(4));
        split_once_exec(slice_subrange(s, 4, n), ':')
    } else if chars_start_with(s, ssh.as_slice()) {
        assert(s@.subrange(6, n as int) =~= s@.skip(6));
        let r = after_user_exec(slice_subrange(s, 6, n));
        split_once_exec(r.as_slice(), '/')
    } else if chars_start_with(s, https.as_slice()) {
        assert(s@.subrange(8, n as int) =~= s@.skip(8));
        let r = after_user_exec(slice_subrange(s, 8, n));
        split_once_exec(r.as_slice(), '/')
    } else if chars_start_with(s, http.as_slice()) {
        assert(s@.subrange(7, n as int) =~= s@.skip(7));
        let r = after_user_exec(slice_subrange(s, 7, n));
        split_once_exec(r.as_slice(), '/')
    } else {
        None
    };
    assert(s@ == trim(remote@));
    let (host, path) = match hp {
        Some(p) => p,
        None => return None,
    };
    let mut k = path.len();
    assert(path@.take(k as int) =~= path@);
    while k > 0 && path[k - 1] == '/'
        invariant
            k <= path.len(),
            trim_end_char(path@, '/') == trim_end_char(path@.take(k as int), '/'),
        decreases k,
    {
        assert(path@.take(k as int).drop_last() =~= path@.take(k - 1));
        k = k - 1;
    }
    let p = slice_subrange(path.as_slice(), 0, k);
    assert(p@ =~= path@.take(k as int));
    let git = lit(".git");
    proof {
        reveal_strlit(".git");
    }
    let p2 = if p.len() >= 4 && crate::text::chars_eq(slice_subrange(p, p.len() - 4, p.len()), git.as_slice()) {
        assert(p@.subrange(p@.len() - 4, p@.len() as int) =~= p@.skip(p@.len() - 4));
        slice_subrange(p, 0, p.len() - 4)
    } else {
        proof {
            if crate::seqs::ends_with(p@, ".git"@) {
                assert(p@.subrange(p@.len() - 4, p@.len() as int) =~= p@.skip(p@.len() - 4));
            }
        }
        p
    };
    assert(p2@ == (if crate::seqs::ends_with(p@, ".git"@) { p@.take(p@.len() - 4) } else { p@ }));
    if host.len() == 0 || p2.len() == 0 {
        return None;
    }
    let mut out = "https://".to_owned();
    let hs = string_from_chars(host.as_slice());
    push_str(&mut out, hs.as_str());
    push_str(&mut out, "/");
    let ps = string_from_chars(p2);
    push_str(&mut out, ps.as_str());
    Some(out)
}

/// The page is on a GitLab host.
pub open spec fn is_gitlab(base: Seq<char>) -> bool {
    find_pat(base, "gitlab"@) is Some
}

fn is_gitlab_exec(base: &str) -> (r: bool)
    ensures
        r == is_gitlab(base@),
{
    let v = chars_of(base);
    let pat = lit("gitlab");
    proof {
        reveal_strlit("gitlab");
    }
    crate::seqs::find_chars(v.as_slice(), pat.as_slice()).is_some()
}

/// Web page of a commit on the remote's host.
pub fn commit_url(remote: &str, oid: &Oid) -> (r: Option<String>)
    ensures
        match web_url_spec(remote@) {
            Some(base) => r matches Some(u) && u@ == base + (if is_gitlab(base) {
                "/-/commit/"@
            } else {
                "/commit/"@
            }) + hex_text(oid.bytes@),
            None => r is None,
        },
{
    let mut base = match web_url(remote) {
        Some(b) => b,
        None => return None,
    };
    if is_gitlab_exec(base.as_str()) {
        push_str(&mut base, "/-/commit/");
    } else {
        push_str(&mut base, "/commit/");
    }
    let h = oid.to_hex();
    push_str(&mut base, h.as_str());
    Some(base)
}

/// Page to open a pull request for `branch` on the remote's host.
pub fn pull_request_url(remote: &str, branch: &str) -> (r: Option<String>)
    ensures
        match web_url_spec(remote@) {
            Some(base) => r matches Some(u) && u@ == base + (if is_gitlab(base) {
                "/-/merge_requests/new?merge_request%5Bsource_branch%5D="@
            } else {
                "/pull/new/"@
            }) + branch@,
            None => r is None,
        },
{
    let mut base = match web_url(remote) {
        Some(b) => b,
        None => return None,
    };
    if is_gitlab_exec(base.as_str()) {
        push_str(&mut base, "/-/merge_requests/new?merge_request%5Bsource_branch%5D=");
    } else {
        push_str(&mut base, "/pull/new/");
    }
    push_str(&mut base, branch);
    Some(base)
}


// ---------------------------------------------------------------------------
// Decisions and messages of merges, reverts and fast-forwards.

/// What a merge does, from the repository's merge analysis.
#[derive(Debug, Clone, Copy, PartialEq, Eq, Structural)]
pub enum MergePlan {
    /// Nothing to merge.
    UpToDate,
    /// Move the branch to theirs.
    FastForward,
    /// Merge the trees and commit.
    Merge,
    /// The analysis allows neither.
    Impossible,
}

/// Up to date wins; a fast-forward happens unless the configuration asks
/// for no fast-forwards; a normal merge otherwise; anything else is refused.
pub open spec fn merge_plan_spec(up_to_date: bool, fast_forward: bool, no_ff: bool, normal: bool) -> MergePlan {
    if up_to_date {
        MergePlan::UpToDate
    } else if fast_forward && !no_ff {
        MergePlan::FastForward
    } else if normal {
        MergePlan::Merge
    } else {
        MergePlan::Impossible
    }
}

/// Decide a merge from its analysis: up to date, fast-forward (unless the
/// configuration forbids it), normal merge.
pub fn merge_plan(up_to_date: bool, fast_forward: bool, no_ff: bool, normal: bool) -> (r: MergePlan)
    ensures
        r == merge_plan_spec(up_to_date, fast_forward, no_ff, normal),
{
    if up_to_date {
        MergePlan::UpToDate
    } else if fast_forward && !no_ff {
        MergePlan::FastForward
    } else if normal {
        MergePlan::Merge
    } else {
        MergePlan::Impossible
    }
}

/// The message of a merge commit.
pub open spec fn merge_message_spec(name: Seq<char>, remote: bool) -> Seq<char> {
    if remote {
        "Merge remote-tracking branch '"@ + name + "'"@
    } else {
        "Merge branch '"@ + name + "'"@
    }
}

/// The message of the commit merging branch `name` (a remote-tracking one
/// when `remote`).
pub fn merge_message(name: &str, remote: bool) -> (r: String)
    ensures
        r@ == merge_message_spec(name@, remote),
{
    let mut s = if remote {
        "Merge remote-tracking branch '".to_owned()
    } else {
        "Merge branch '".to_owned()
    };
    push_str(&mut s, name);
    push_str(&mut s, "'");
    s
}

/// The message of a revert commit.
pub open spec fn revert_message_spec(summary: Seq<char>, oid: Oid) -> Seq<char> {
    "Revert \""@ + summary + "\"\n\nThis reverts commit "@ + hex_text(oid.bytes@) + ".\n"@
}

/// The message of the commit that reverts `oid`, whose summary is
/// `summary`.
pub fn revert_message(summary: &str, oid: &Oid) -> (r: String)
    ensures
        r@ == revert_message_spec(summary@, *oid),
{
    let mut s = "Revert \"".to_owned();
    push_str(&mut s, summary);
    push_str(&mut s, "\"\n\nThis reverts commit ");
    let hex = oid.to_hex();
    push_str(&mut s, hex.as_str());
    push_str(&mut s, ".\n");
    s
}

/// How far a fast-forward moves a branch that is `ahead` of and `behind`
/// its upstream: refused when it has commits of its own.
pub open spec fn fast_forward_spec(branch: Seq<char>, ahead: nat, behind: nat) -> Result<nat, Seq<char>> {
    if ahead > 0 {
        Err(
            branch + " has diverged from its upstream ("@ + dec(ahead) + " ahead, "@ + dec(behind)
                + " behind)"@,
        )
    } else {
        Ok(behind)
    }
}

/// Decide a fast-forward: the number of commits to move, or why not.
pub fn fast_forward_plan(branch: &str, ahead: usize, behind: usize) -> (r: Result<usize, String>)
    ensures
        match (r, fast_forward_spec(branch@, ahead as nat, behind as nat)) {
            (Ok(a), Ok(b)) => a == b,
            (Err(a), Err(b)) => a@ == b,
            _ => false,
        },
{
    if ahead > 0 {
        let mut s = branch.to_owned();
        push_str(&mut s, " has diverged from its upstream (");
        push_decimal_str(&mut s, ahead as u64);
        push_str(&mut s, " ahead, ");
        push_decimal_str(&mut s, behind as u64);
        push_str(&mut s, " behind)");
        Err(s)
    } else {
        Ok(behind)
    }
}


/// The text appended to a `.gitignore` holding `existing` to ignore
/// `pattern`: a line break first when the file does not end a line, then
/// the pattern and a line break.
pub open spec fn ignore_line_spec(existing: Seq<char>, pattern: Seq<char>) -> Seq<char> {
    (if existing.len() > 0 && existing.last() != '\n' {
        seq!['\n']
    } else {
        Seq::empty()
    }) + pattern + seq!['\n']
}

/// What to append to a `.gitignore` whose text is `existing`.
pub fn ignore_line(existing: &str, pattern: &str) -> (r: String)
    ensures
        r@ == ignore_line_spec(existing@, pattern@),
{
    let v = chars_of(existing);
    let mut line = String::new();
    if v.len() > 0 && v[v.len() - 1] != '\n' {
        push_char(&mut line, '\n');
    }
    push_str(&mut line, pattern);
    push_char(&mut line, '\n');
    proof {
        assert(line@ =~= ignore_line_spec(existing@, pattern@));
    }
    line
}

/// How many distinct paths a sequence holds: each path counts where it first
/// occurs.
pub open spec fn distinct_count(s: Seq<Seq<u8>>) -> nat
    decreases s.len(),
{
    if s.len() == 0 {
        0
    } else {
        distinct_count(s.drop_last()) + if s.drop_last().contains(s.last()) {
            0nat
        } else {
            1nat
        }
    }
}

pub open spec fn path_seqs(paths: Seq<Vec<u8>>) -> Seq<Seq<u8>> {
    paths.map_values(|p: Vec<u8>| p@)
}

/// The number of conflicted files an operation reports, from the paths of
/// the index's conflict entries (one per entry that has a side): the number
/// of distinct paths, and at least one, since the index said it had
/// conflicts.
pub fn conflict_path_count(paths: &[Vec<u8>]) -> (r: usize)
    ensures
        r == if distinct_count(path_seqs(paths@)) == 0 {
            1
        } else {
            distinct_count(path_seqs(paths@))
        },
{
    let ghost ps = path_seqs(paths@);
    let mut n: usize = 0;
    let mut i: usize = 0;
    while i < paths.len()
        invariant
            i <= paths.len(),
            ps == path_seqs(paths@),
            n == distinct_count(ps.take(i as int)),
            n <= i,
        decreases paths.len() - i,
    {
        let mut seen = false;
        let mut j: usize = 0;
        while j < i
            invariant
                j <= i,
                i < paths.len(),
                ps == path_seqs(paths@),
                seen <==> ps.take(j as int).contains(ps[i as int]),
            decreases i - j,
        {
            let same = bytes_eq(paths[j].as_slice(), paths[i].as_slice());
            proof {
                let t = ps.take(j as int + 1);
                let u = ps.take(j as int);
                assert(t =~= u.push(ps[j as int]));
                assert(ps[j as int] == paths@[j as int]@);
                assert(ps[i as int] == paths@[i as int]@);
                if same {
                    assert(t[j as int] == ps[i as int]);
                }
                if t.contains(ps[i as int]) && !same {
                    let k = choose|k: int| 0 <= k < t.len() && t[k] == ps[i as int];
                    assert(k != j);
                    assert(u[k] == ps[i as int]);
                }
                if u.contains(ps[i as int]) {
                    let k = choose|k: int| 0 <= k < u.len() && u[k] == ps[i as int];
                    assert(t[k] == ps[i as int]);
                }
            }
            if same {
                seen = true;
            }
            j = j + 1;
        }
        proof {
            assert(ps.take(i as int + 1).drop_last() =~= ps.take(i as int));
            assert(ps.take(i as int + 1).last() == ps[i as int]);
        }
        if !seen {
            n = n + 1;
        }
        i = i + 1;
    }
    proof {
        assert(ps.take(paths.len() as int) =~= ps);
    }
    if n == 0 {
        1
    } else {
        n
    }
}

} // verus!
