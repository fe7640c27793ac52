//! The values the repository layer hands out (commits, refs, file statuses,
//! diffs) and the diff text transformations that need no repository.
use vstd::prelude::*;
use vstd::slice::slice_subrange;
use vstd::utf8::{decode_utf8, encode_utf8, valid_utf8};

use crate::seqs::{lemma_split_seq_len, split_bytes, split_chars, split_seq, starts_with};
use crate::runtime::hex_digit;
use crate::text::{
    append_bytes, chars_of, lines_exec, lines_of, lossy_string, push_char, push_decimal_str, push_str,
    string_bytes, string_from_chars, views, ascii_chars, decimal, parse_usize, parse_usize_spec, trim, trim_string,
};

verus! {

/// A git object id: the 20 bytes of its SHA-1.
#[derive(Debug, Clone, Copy, PartialEq, Eq, Hash)]
pub struct Oid {
    pub bytes: [u8; 20],
}

/// Each byte as two lowercase hex digits.
pub open spec fn hex_text(b: Seq<u8>) -> Seq<char>
    decreases b.len(),
{
    if b.len() == 0 {
        seq![]
    } else {
        hex_text(b.drop_last()) + seq![hex_digit(b.last() as int / 16) as char, hex_digit(b.last() as int % 16) as char]
    }
}

pub open spec fn is_hex_char(c: char) -> bool {
    ('0' <= c <= '9') || ('a' <= c <= 'f') || ('A' <= c <= 'F')
}

/// A hex digit in lower case.
pub open spec fn hex_lower(c: char) -> char {
    if 'A' <= c <= 'F' {
        ((c as u32) + 32) as char
    } else {
        c
    }
}

pub open spec fn lower_hex(s: Seq<char>) -> Seq<char> {
    s.map_values(|c: char| hex_lower(c))
}

fn hex_val(c: char) -> (r: Option<u8>)
    ensures
        r is Some <==> is_hex_char(c),
        r matches Some(v) ==> v < 16 && hex_digit(v as int) as char == hex_lower(c),
{
    if '0' <= c && c <= '9' {
        let v = (c as u32 - 0x30) as u8;
        proof {
            vstd::utf8::char_u32_cast(c, c as u32);
        }
        Some(v)
    } else if 'a' <= c && c <= 'f' {
        let v = (c as u32 - 0x61 + 10) as u8;
        Some(v)
    } else if 'A' <= c && c <= 'F' {
        let v = (c as u32 - 0x41 + 10) as u8;
        Some(v)
    } else {
        None
    }
}

pub(crate) fn hex_char(v: u8) -> (r: char)
    requires
        v < 16,
    ensures
        r == hex_digit(v as int) as char,
{
    if v < 10 {
        let c = (0x30u8 + v) as char;
        c
    } else {
        let c = (0x61u8 + v - 10) as char;
        c
    }
}

impl Oid {
    /// Two ids name the same object.
    pub fn same(&self, other: &Oid) -> (r: bool)
        ensures
            r == (self.bytes@ == other.bytes@),
    {
        let mut i: usize = 0;
        while i < 20
            invariant
                i <= 20,
                forall|j: int| 0 <= j < i ==> self.bytes@[j] == other.bytes@[j],
            decreases 20 - i,
        {
            if self.bytes[i] != other.bytes[i] {
                return false;
            }
            i = i + 1;
        }
        assert(self.bytes@ =~= other.bytes@);
        true
    }

    /// The id named by 40 hex digits (either case).
    pub fn from_hex(s: &str) -> (r: Option<Oid>)
        ensures
            match r {
                Some(o) => s@.len() == 40 && lower_hex(s@) == hex_text(o.bytes@),
                None => !(s@.len() == 40 && forall|i: int| 0 <= i < 40 ==> is_hex_char(#[trigger] s@[i])),
            },
    {
        let v = crate::text::chars_of(s);
        if v.len() != 40 {
            return None;
        }
        let mut bytes = [0u8; 20];
        let mut i: usize = 0;
        while i < 20
            invariant
                i <= 20,
                v@ == s@,
                v@.len() == 40,
                forall|j: int| 0 <= j < 2 * i ==> is_hex_char(#[trigger] v@[j]),
                hex_text(bytes@.take(i as int)) == lower_hex(v@.take(2 * i)),
            decreases 20 - i,
        {
            let hi = match hex_val(v[2 * i]) {
                Some(x) => x,
                None => return None,
            };
            let lo = match hex_val(v[2 * i + 1]) {
                Some(x) => x,
                None => return None,
            };
            let ghost before = bytes@;
            bytes[i] = hi * 16 + lo;
            proof {
                assert(bytes@.take(i as int) =~= before.take(i as int));
                assert(bytes@.take(i + 1).drop_last() =~= bytes@.take(i as int));
                assert(v@.take(2 * i + 2) =~= v@.take(2 * i) + seq![v@[2 * i], v@[2 * i + 1]]);
                assert(lower_hex(v@.take(2 * i + 2)) =~= lower_hex(v@.take(2 * i)) + seq![
                    hex_lower(v@[2 * i]),
                    hex_lower(v@[2 * i + 1]),
                ]);
                assert((hi * 16 + lo) as int / 16 == hi as int);
                assert((hi * 16 + lo) as int % 16 == lo as int);
            }
            i = i + 1;
        }
        assert(bytes@.take(20) =~= bytes@);
        assert(v@.take(40) =~= v@);
        Some(Oid { bytes })
    }

    /// The 40 lowercase hex digits of the id.
    pub fn to_hex(&self) -> (r: String)
        ensures
            r@ == hex_text(self.bytes@),
    {
        let mut out = String::new();
        let mut i: usize = 0;
        while i < 20
            invariant
                i <= 20,
                out@ == hex_text(self.bytes@.take(i as int)),
            decreases 20 - i,
        {
            let b = self.bytes[i];
            push_char(&mut out, hex_char(b / 16));
            push_char(&mut out, hex_char(b % 16));
            assert(self.bytes@.take(i + 1).drop_last() =~= self.bytes@.take(i as int));
            assert(out@ =~= hex_text(self.bytes@.take(i + 1)));
            i = i + 1;
        }
        assert(self.bytes@.take(20) =~= self.bytes@);
        out
    }
}

/// The abbreviated id: its first seven hex digits.
pub fn short_id(oid: Oid) -> (r: String)
    ensures
        r@ == hex_text(oid.bytes@).take(7),
{
    let full = oid.to_hex();
    let v = chars_of(full.as_str());
    proof {
        lemma_hex_text_len(oid.bytes@);
    }
    string_from_chars(slice_subrange(v.as_slice(), 0, 7))
}

pub proof fn lemma_hex_text_len(b: Seq<u8>)
    ensures
        hex_text(b).len() == 2 * b.len(),
    decreases b.len(),
{
    if b.len() > 0 {
        lemma_hex_text_len(b.drop_last());
    }
}

proof fn lemma_hex_text_digits(b: Seq<u8>)
    ensures
        forall|i: int| 0 <= i < hex_text(b).len() ==> is_hex_char(#[trigger] hex_text(b)[i]),
        lower_hex(hex_text(b)) == hex_text(b),
    decreases b.len(),
{
    lemma_hex_text_len(b);
    if b.len() > 0 {
        lemma_hex_text_digits(b.drop_last());
        let p = hex_text(b.drop_last());
        let hi = hex_digit(b.last() as int / 16) as char;
        let lo = hex_digit(b.last() as int % 16) as char;
        assert(hex_text(b) == p + seq![hi, lo]);
        assert forall|i: int| 0 <= i < hex_text(b).len() implies is_hex_char(#[trigger] hex_text(b)[i]) by {
            if i >= p.len() {
                assert(is_hex_char(hi) && is_hex_char(lo));
            } else {
                assert(hex_text(b)[i] == p[i]);
            }
        }
        assert(lower_hex(hex_text(b)) =~= hex_text(b)) by {
            assert forall|i: int| 0 <= i < hex_text(b).len() implies hex_lower(#[trigger] hex_text(b)[i]) == hex_text(b)[i] by {
                if i < p.len() {
                    assert(lower_hex(p)[i] == p[i]);
                }
            }
        }
    }
}

proof fn lemma_hex_digit_injective(u: int, v: int)
    requires
        0 <= u < 16,
        0 <= v < 16,
        hex_digit(u) as char == hex_digit(v) as char,
    ensures
        u == v,
{
    let cu = hex_digit(u);
    let cv = hex_digit(v);
    assert((cu as char) as u32 == cu as u32);
    assert((cv as char) as u32 == cv as u32);
}

proof fn lemma_hex_text_injective(a: Seq<u8>, b: Seq<u8>)
    requires
        a.len() == b.len(),
        hex_text(a) == hex_text(b),
    ensures
        a == b,
    decreases a.len(),
{
    if a.len() > 0 {
        lemma_hex_text_len(a.drop_last());
        lemma_hex_text_len(b.drop_last());
        let pa = hex_text(a.drop_last());
        let pb = hex_text(b.drop_last());
        let n = pa.len();
        assert(hex_text(a).take(n as int) =~= pa);
        assert(hex_text(b).take(n as int) =~= pb);
        lemma_hex_text_injective(a.drop_last(), b.drop_last());
        let x = a.last();
        let y = b.last();
        assert(hex_text(a) == pa + seq![hex_digit(x as int / 16) as char, hex_digit(x as int % 16) as char]);
        assert(hex_text(b) == pb + seq![hex_digit(y as int / 16) as char, hex_digit(y as int % 16) as char]);
        let ha = seq![hex_digit(x as int / 16) as char, hex_digit(x as int % 16) as char];
        let hb = seq![hex_digit(y as int / 16) as char, hex_digit(y as int % 16) as char];
        assert((pa + ha)[n as int] == ha[0]);
        assert((pb + hb)[n as int] == hb[0]);
        assert((pa + ha)[n as int + 1] == ha[1]);
        assert((pb + hb)[n as int + 1] == hb[1]);
        assert(ha[0] == hb[0]);
        assert(ha[1] == hb[1]);
        lemma_hex_digit_injective(x as int / 16, y as int / 16);
        lemma_hex_digit_injective(x as int % 16, y as int % 16);
        assert(x == y);
        assert(a =~= a.drop_last().push(x));
        assert(b =~= b.drop_last().push(y));
    }
}

/// An id written out by `to_hex` reads back by `from_hex` as the same id:
/// the text is 40 hex digits, already lowercase, and no other id has it.
pub proof fn lemma_hex_roundtrip(a: Seq<u8>, b: Seq<u8>)
    requires
        a.len() == 20,
        b.len() == 20,
    ensures
        hex_text(a).len() == 40,
        forall|i: int| 0 <= i < 40 ==> is_hex_char(#[trigger] hex_text(a)[i]),
        lower_hex(hex_text(a)) == hex_text(b) ==> a == b,
{
    lemma_hex_text_len(a);
    lemma_hex_text_digits(a);
    if lower_hex(hex_text(a)) == hex_text(b) {
        lemma_hex_text_injective(a, b);
    }
}

#[derive(Debug, Clone, PartialEq, Eq)]
pub struct HeadInfo {
    pub branch_name: Option<String>,
    pub oid: Option<Oid>,
    pub detached: bool,
}

#[derive(Debug, Clone, PartialEq, Eq)]
pub struct Branch {
    pub name: String,
    pub oid: Oid,
    pub is_remote: bool,
    pub upstream: Option<String>,
    pub ahead: usize,
    pub behind: usize,
    pub is_head: bool,
}

#[derive(Debug, Clone, PartialEq, Eq)]
pub struct Tag {
    pub name: String,
    pub oid: Oid,
}

#[derive(Debug, Clone, PartialEq, Eq)]
pub struct Stash {
    pub index: usize,
    pub message: String,
    pub oid: Oid,
}

#[derive(Debug, Clone, Copy, PartialEq, Eq, Structural)]
pub enum RefKind {
    Head,
    LocalBranch,
    RemoteBranch,
    Tag,
}

#[derive(Debug, Clone, PartialEq, Eq)]
pub struct RefLabel {
    pub name: String,
    pub kind: RefKind,
}

#[derive(Debug, Clone, PartialEq, Eq)]
pub struct CommitRow {
    pub oid: Oid,
    pub short: String,
    pub parents: Vec<Oid>,
    pub summary: String,
    /// Message after the first paragraph, trimmed. Empty for one-liners.
    pub body: String,
    pub author: String,
    pub email: String,
    /// Seconds since the epoch, author time.
    pub time: i64,
    pub refs: Vec<RefLabel>,
}

#[derive(Debug, Clone, Copy, PartialEq, Eq, Structural)]
pub enum FileKind {
    Added,
    Modified,
    Deleted,
    Renamed,
    Untracked,
    TypeChange,
    Conflicted,
}

pub open spec fn kind_letter(k: FileKind) -> Seq<char> {
    match k {
        FileKind::Added => "A"@,
        FileKind::Modified => "M"@,
        FileKind::Deleted => "D"@,
        FileKind::Renamed => "R"@,
        FileKind::Untracked => "?"@,
        FileKind::TypeChange => "T"@,
        FileKind::Conflicted => "!"@,
    }
}

impl FileKind {
    pub fn letter(self) -> (r: &'static str)
        ensures
            r@ == kind_letter(self),
    {
        match self {
            FileKind::Added => "A",
            FileKind::Modified => "M",
            FileKind::Deleted => "D",
            FileKind::Renamed => "R",
            FileKind::Untracked => "?",
            FileKind::TypeChange => "T",
            FileKind::Conflicted => "!",
        }
    }
}

#[derive(Debug, Clone, PartialEq, Eq)]
pub struct FileStatus {
    pub path: String,
    pub old_path: Option<String>,
    pub kind: FileKind,
}

#[derive(Debug, Clone, PartialEq, Eq)]
pub enum DiffTarget {
    WorkdirUnstaged(String),
    Staged(String),
    Commit(Oid, String),
}

pub open spec fn target_path(t: DiffTarget) -> Seq<char> {
    match t {
        DiffTarget::WorkdirUnstaged(p) => p@,
        DiffTarget::Staged(p) => p@,
        DiffTarget::Commit(_, p) => p@,
    }
}

impl DiffTarget {
    /// The file the diff is about.
    pub fn path(&self) -> (r: &str)
        ensures
            r@ == target_path(*self),
    {
        match self {
            DiffTarget::WorkdirUnstaged(p) => p.as_str(),
            DiffTarget::Staged(p) => p.as_str(),
            DiffTarget::Commit(_, p) => p.as_str(),
        }
    }
}

#[derive(Debug, Clone, PartialEq, Eq)]
pub struct DiffLine {
    /// '+', '-', ' ' or another origin char from libgit2.
    pub origin: char,
    pub old_no: Option<u32>,
    pub new_no: Option<u32>,
    pub text: String,
    /// The file has no newline after this line (unified diff marker).
    pub no_newline: bool,
}

/// The mathematical value of a [`DiffLine`].
pub ghost struct LineView {
    pub origin: char,
    pub old_no: Option<u32>,
    pub new_no: Option<u32>,
    pub text: Seq<char>,
    pub no_newline: bool,
}

impl View for DiffLine {
    type V = LineView;

    open spec fn view(&self) -> LineView {
        LineView {
            origin: self.origin,
            old_no: self.old_no,
            new_no: self.new_no,
            text: self.text@,
            no_newline: self.no_newline,
        }
    }
}

#[derive(Debug, Clone, PartialEq, Eq)]
pub struct Hunk {
    pub header: String,
    pub lines: Vec<DiffLine>,
}

pub open spec fn line_views(v: Seq<DiffLine>) -> Seq<LineView> {
    v.map_values(|l: DiffLine| l@)
}

#[derive(Debug, Clone, PartialEq, Eq)]
pub struct DiffText {
    pub target: DiffTarget,
    pub binary: bool,
    pub too_large: bool,
    /// Added, Deleted, Modified or Renamed (Untracked shows as Added).
    pub status: FileKind,
    pub hunks: Vec<Hunk>,
}

/// How diffs are produced: context lines and whitespace handling.
#[derive(Debug, Clone, Copy, PartialEq, Eq, Structural)]
pub struct DiffOpts {
    pub context: u32,
    pub ignore_whitespace: bool,
}

impl Default for DiffOpts {
    fn default() -> (r: Self)
        ensures
            r == (DiffOpts { context: 3, ignore_whitespace: false }),
    {
        DiffOpts { context: 3, ignore_whitespace: false }
    }
}

impl DiffOpts {
    /// The most context lines a diff may ask for.
    pub const MAX_CONTEXT: u32 = 20;
}

/// Files above this size are not diffed.
pub const MAX_DIFF_BYTES: u64 = 2097152;

/// An operation the repository is in the middle of.
#[derive(Debug, Clone, Copy, PartialEq, Eq, Structural)]
pub enum RepoState {
    Clean,
    Merge,
    Revert,
    CherryPick,
    Rebase,
    Bisect,
    Other,
}

impl Default for RepoState {
    fn default() -> (r: Self)
        ensures
            r == RepoState::Clean,
    {
        RepoState::Clean
    }
}

pub open spec fn state_label(s: RepoState) -> Seq<char> {
    match s {
        RepoState::Clean => ""@,
        RepoState::Merge => "merge"@,
        RepoState::Revert => "revert"@,
        RepoState::CherryPick => "cherry-pick"@,
        RepoState::Rebase => "rebase"@,
        RepoState::Bisect => "bisect"@,
        RepoState::Other => "operation"@,
    }
}

pub open spec fn state_subcommand(s: RepoState) -> Option<Seq<char>> {
    match s {
        RepoState::Merge => Some("merge"@),
        RepoState::Revert => Some("revert"@),
        RepoState::CherryPick => Some("cherry-pick"@),
        RepoState::Rebase => Some("rebase"@),
        _ => None,
    }
}

impl RepoState {
    pub fn label(self) -> (r: &'static str)
        ensures
            r@ == state_label(self),
    {
        match self {
            RepoState::Clean => "",
            RepoState::Merge => "merge",
            RepoState::Revert => "revert",
            RepoState::CherryPick => "cherry-pick",
            RepoState::Rebase => "rebase",
            RepoState::Bisect => "bisect",
            RepoState::Other => "operation",
        }
    }

    /// The git subcommand that owns `--continue` / `--abort` for this state.
    pub fn git_subcommand(self) -> (r: Option<&'static str>)
        ensures
            match r {
                Some(s) => state_subcommand(self) == Some(s@),
                None => state_subcommand(self) is None,
            },
    {
        match self {
            RepoState::Merge => Some("merge"),
            RepoState::Revert => Some("revert"),
            RepoState::CherryPick => Some("cherry-pick"),
            RepoState::Rebase => Some("rebase"),
            RepoState::Clean | RepoState::Bisect | RepoState::Other => None,
        }
    }
}

// ---------------------------------------------------------------------------
// Reversing a patch.

/// `s` without a leading `c`.
pub open spec fn strip_char(s: Seq<char>, c: char) -> Seq<char> {
    if s.len() > 0 && s[0] == c {
        s.skip(1)
    } else {
        s
    }
}

/// `@@ -a,b +c,d @@ rest` with the two ranges swapped. A header with fewer
/// than three space-separated parts stays as it is.
pub open spec fn rev_hunk_header(body: Seq<u8>) -> Seq<u8> {
    let s = crate::text::lossy_text(body);
    let p = split_seq(s, ' ');
    if p.len() < 3 {
        body
    } else {
        let old = strip_char(p[1], '-');
        let new = strip_char(p[2], '+');
        let tail = if p.len() >= 4 {
            seq![' '] + s.skip((p[0].len() + p[1].len() + p[2].len() + 3) as int)
        } else {
            " @@"@
        };
        encode_utf8("@@ -"@ + new + " +"@ + old + tail)
    }
}

pub open spec fn file_header_prefix(l: Seq<u8>) -> bool {
    starts_with(l, seq![0x2du8, 0x2d, 0x2d, 0x20]) || starts_with(l, seq![0x2bu8, 0x2b, 0x2b, 0x20])
}

pub open spec fn hunk_header_prefix(l: Seq<u8>) -> bool {
    starts_with(l, seq![0x40u8, 0x40, 0x20])
}

/// One line of a patch (without its newline) reversed: file headers stay,
/// hunk headers swap their ranges, `+` and `-` swap, the rest stays.
pub open spec fn rev_line(l: Seq<u8>) -> Seq<u8> {
    if file_header_prefix(l) {
        l
    } else if hunk_header_prefix(l) {
        rev_hunk_header(l)
    } else if l.len() > 0 && l[0] == 0x2b {
        seq![0x2du8] + l.skip(1)
    } else if l.len() > 0 && l[0] == 0x2d {
        seq![0x2bu8] + l.skip(1)
    } else {
        l
    }
}

/// The lines reversed and joined with `\n` again.
pub open spec fn rev_lines(ls: Seq<Seq<u8>>) -> Seq<u8>
    decreases ls.len(),
{
    if ls.len() == 0 {
        seq![]
    } else if ls.len() == 1 {
        rev_line(ls[0])
    } else {
        rev_lines(ls.drop_last()) + seq![0x0au8] + rev_line(ls.last())
    }
}

pub open spec fn reverse_patch_spec(text: Seq<u8>) -> Seq<u8> {
    rev_lines(split_seq(text, 0x0au8))
}

/// The chars of `s` from `i` on.
fn skip_chars(v: &[char], i: usize) -> (r: Vec<char>)
    requires
        i <= v.len(),
    ensures
        r@ == v@.skip(i as int),
{
    vstd::slice::slice_to_vec(slice_subrange(v, i, v.len()))
}

fn strip_char_exec(v: &[char], c: char) -> (r: Vec<char>)
    ensures
        r@ == strip_char(v@, c),
{
    if v.len() > 0 && v[0] == c {
        skip_chars(v, 1)
    } else {
        vstd::slice::slice_to_vec(v)
    }
}

/// Swap the ranges of a hunk header (`@@ -a,b +c,d @@ rest`).
pub fn reverse_hunk_header(body: &[u8]) -> (r: Vec<u8>)
    ensures
        r@ == rev_hunk_header(body@),
{
    let text = lossy_string(body);
    let s = chars_of(text.as_str());
    assert(s@ == crate::text::lossy_text(body@));
    let p = split_chars(s.as_slice(), ' ');
    if p.len() < 3 {
        return vstd::slice::slice_to_vec(body);
    }
    let old = strip_char_exec(p[1].as_slice(), '-');
    let new = strip_char_exec(p[2].as_slice(), '+');
    let ghost sp = split_seq(s@, ' ');
    assert(p@[1]@ == sp[1] && p@[2]@ == sp[2] && p@[0]@ == sp[0]);
    let mut out = String::new();
    push_str(&mut out, "@@ -");
    let ns = string_from_chars(new.as_slice());
    push_str(&mut out, ns.as_str());
    push_str(&mut out, " +");
    let os = string_from_chars(old.as_slice());
    push_str(&mut out, os.as_str());
    let ghost head = out@;
    assert(head =~= "@@ -"@ + strip_char(sp[2], '+') + " +"@ + strip_char(sp[1], '-'));
    if p.len() >= 4 {
        let a = p[0].len();
        let b = p[1].len();
        let c = p[2].len();
        let n = s.len();
        proof {
            lemma_split_parts_fit(s@, ' ');
            assert(p@[0]@.len() + p@[1]@.len() + p@[2]@.len() + 3 <= s@.len());
        }
        push_char(&mut out, ' ');
        let rest = skip_chars(s.as_slice(), a + b + c + 3);
        let rs = string_from_chars(rest.as_slice());
        push_str(&mut out, rs.as_str());
        assert(out@ =~= head + (seq![' '] + s@.skip((sp[0].len() + sp[1].len() + sp[2].len() + 3) as int)));
    } else {
        push_str(&mut out, " @@");
        assert(out@ =~= head + " @@"@);
    }
    string_bytes(out)
}

/// The first three pieces and their separators fit in the text when there
/// is a fourth piece.
proof fn lemma_split_parts_fit(s: Seq<char>, sep: char)
    requires
        split_seq(s, sep).len() >= 4,
    ensures
        split_seq(s, sep)[0].len() + split_seq(s, sep)[1].len() + split_seq(s, sep)[2].len() + 3 <= s.len(),
{
    let i0 = lemma_split_cons(s, sep);
    let s1 = s.skip(i0 + 1);
    let i1 = lemma_split_cons(s1, sep);
    let s2 = s1.skip(i1 + 1);
    let i2 = lemma_split_cons(s2, sep);
}

/// A split with more than one piece: the first piece ends at the first
/// separator and the rest is the split of what follows it.
pub proof fn lemma_split_cons<T>(s: Seq<T>, sep: T) -> (i: int)
    requires
        split_seq(s, sep).len() >= 2,
    ensures
        crate::seqs::first_index_of(s, sep) == Some(i),
        0 <= i < s.len(),
        s[i] == sep,
        split_seq(s, sep) == seq![s.take(i)] + split_seq(s.skip(i + 1), sep),
{
    crate::seqs::lemma_first_index_facts(s, sep);
    let i = crate::seqs::first_index_of(s, sep)->Some_0;
    i
}

fn rev_line_exec(l: &[u8]) -> (r: Vec<u8>)
    ensures
        r@ == rev_line(l@),
{
    let minus: Vec<u8> = vec![0x2d, 0x2d, 0x2d, 0x20];
    let plus: Vec<u8> = vec![0x2b, 0x2b, 0x2b, 0x20];
    let at: Vec<u8> = vec![0x40, 0x40, 0x20];
    assert(minus@ =~= seq![0x2du8, 0x2d, 0x2d, 0x20]);
    assert(plus@ =~= seq![0x2bu8, 0x2b, 0x2b, 0x20]);
    assert(at@ =~= seq![0x40u8, 0x40, 0x20]);
    if bytes_start_with(l, minus.as_slice()) || bytes_start_with(l, plus.as_slice()) {
        vstd::slice::slice_to_vec(l)
    } else if bytes_start_with(l, at.as_slice()) {
        reverse_hunk_header(l)
    } else if l.len() > 0 && l[0] == 0x2b {
        let mut out: Vec<u8> = vec![0x2d];
        append_bytes(&mut out, slice_subrange(l, 1, l.len()));
        assert(out@ =~= seq![0x2du8] + l@.skip(1));
        out
    } else if l.len() > 0 && l[0] == 0x2d {
        let mut out: Vec<u8> = vec![0x2b];
        append_bytes(&mut out, slice_subrange(l, 1, l.len()));
        assert(out@ =~= seq![0x2bu8] + l@.skip(1));
        out
    } else {
        vstd::slice::slice_to_vec(l)
    }
}

/// `a` begins with `pre`.
pub fn bytes_start_with(a: &[u8], pre: &[u8]) -> (r: bool)
    ensures
        r == starts_with(a@, pre@),
{
    if pre.len() > a.len() {
        return false;
    }
    let mut i: usize = 0;
    while i < pre.len()
        invariant
            i <= pre.len() <= a.len(),
            forall|j: int| 0 <= j < i ==> a@[j] == pre@[j],
        decreases pre.len() - i,
    {
        if a[i] != pre[i] {
            assert(a@.take(pre@.len() as int)[i as int] != pre@[i as int]);
            return false;
        }
        i = i + 1;
    }
    assert(a@.take(pre@.len() as int) =~= pre@);
    true
}

/// Reverse a unified diff: swap the hunk ranges and the +/- line prefixes.
/// File headers (`--- ` and `+++ `) stay as they are, since libgit2 checks
/// them against the `diff --git a/x b/x` line and both sides name the same
/// file; lines starting with `\` (no newline markers) and `diff --git` /
/// `index` headers are kept as they are too.
pub fn reverse_patch(text: &[u8]) -> (r: Vec<u8>)
    ensures
        r@ == reverse_patch_spec(text@),
{
    let lines = split_bytes(text, 0x0a);
    let ghost ls = split_seq(text@, 0x0au8);
    let mut out: Vec<u8> = Vec::new();
    let mut k: usize = 0;
    while k < lines.len()
        invariant
            k <= lines@.len(),
            lines@.len() == ls.len(),
            forall|j: int| 0 <= j < ls.len() ==> #[trigger] lines@[j]@ == ls[j],
            out@ == rev_lines(ls.take(k as int)),
        decreases lines.len() - k,
    {
        if k > 0 {
            out.push(0x0a);
        }
        let r = rev_line_exec(lines[k].as_slice());
        append_bytes(&mut out, r.as_slice());
        proof {
            assert(ls.take(k + 1).drop_last() =~= ls.take(k as int));
            if k == 0 {
                assert(out@ =~= rev_lines(ls.take(1)));
            } else {
                assert(out@ =~= rev_lines(ls.take(k + 1)));
            }
        }
        k = k + 1;
    }
    assert(ls.take(lines.len() as int) =~= ls);
    out
}

// ---------------------------------------------------------------------------
// Reversing twice gives the patch back.

/// Splitting at the first separator: the piece before it, then the split of
/// the rest.
pub proof fn lemma_split_prefix<T>(a: Seq<T>, b: Seq<T>, sep: T)
    requires
        !a.contains(sep),
    ensures
        split_seq(a + seq![sep] + b, sep) == seq![a] + split_seq(b, sep),
{
    let s = a + seq![sep] + b;
    assert forall|j: int| 0 <= j < a.len() implies #[trigger] s[j] != sep by {
        assert(s[j] == a[j]);
        if a[j] == sep {
            assert(a.contains(sep));
        }
    }
    crate::seqs::lemma_first_index_some(s, sep, a.len() as int);
    assert(s.take(a.len() as int) =~= a);
    assert(s.skip(a.len() as int + 1) =~= b);
}

/// A split with at least four pieces: the text is the first three pieces
/// and what follows them, separated; no piece holds the separator.
proof fn lemma_split_three<T>(s: Seq<T>, sep: T)
    requires
        split_seq(s, sep).len() >= 4,
    ensures
        ({
            let p = split_seq(s, sep);
            let rest = s.skip((p[0].len() + p[1].len() + p[2].len() + 3) as int);
            &&& s == p[0] + seq![sep] + p[1] + seq![sep] + p[2] + seq![sep] + rest
            &&& !p[0].contains(sep)
            &&& !p[1].contains(sep)
            &&& !p[2].contains(sep)
        }),
{
    let p = split_seq(s, sep);
    let i0 = lemma_split_cons(s, sep);
    let s1 = s.skip(i0 + 1);
    let i1 = lemma_split_cons(s1, sep);
    let s2 = s1.skip(i1 + 1);
    let i2 = lemma_split_cons(s2, sep);
    let s3 = s2.skip(i2 + 1);
    crate::seqs::lemma_first_index_facts(s, sep);
    crate::seqs::lemma_first_index_facts(s1, sep);
    crate::seqs::lemma_first_index_facts(s2, sep);
    assert(p[0] == s.take(i0));
    assert(p[1] == s1.take(i1));
    assert(p[2] == s2.take(i2));
    assert(s.skip((p[0].len() + p[1].len() + p[2].len() + 3) as int) =~= s3);
    assert(s =~= p[0] + seq![sep] + p[1] + seq![sep] + p[2] + seq![sep] + s3);
    assert(!p[0].contains(sep)) by {
        if p[0].contains(sep) {
            let j = choose|j: int| 0 <= j < p[0].len() && p[0][j] == sep;
            assert(s[j] == sep);
        }
    }
    assert(!p[1].contains(sep)) by {
        if p[1].contains(sep) {
            let j = choose|j: int| 0 <= j < p[1].len() && p[1][j] == sep;
            assert(s1[j] == sep);
        }
    }
    assert(!p[2].contains(sep)) by {
        if p[2].contains(sep) {
            let j = choose|j: int| 0 <= j < p[2].len() && p[2][j] == sep;
            assert(s2[j] == sep);
        }
    }
}

/// A well-formed hunk header: valid UTF-8, and its text is `@@`, a range
/// starting with `-`, a range starting with `+`, and more, separated by
/// spaces.
pub open spec fn good_hunk_header(l: Seq<u8>) -> bool {
    &&& valid_utf8(l)
    &&& {
        let p = split_seq(decode_utf8(l), ' ');
        &&& p.len() >= 4
        &&& p[0] == "@@"@
        &&& p[1].len() > 0 && p[1][0] == '-'
        &&& p[2].len() > 0 && p[2][0] == '+'
    }
}

/// A line whose reversal is reversed back to it: a file header, a
/// well-formed hunk header, an added line not reading `+-- `, a removed
/// line not reading `-++ `, or any other line.
pub open spec fn reversible_line(l: Seq<u8>) -> bool {
    if file_header_prefix(l) {
        true
    } else if hunk_header_prefix(l) {
        good_hunk_header(l)
    } else if l.len() > 0 && l[0] == 0x2b {
        !starts_with(l.skip(1), seq![0x2du8, 0x2d, 0x20])
    } else if l.len() > 0 && l[0] == 0x2d {
        !starts_with(l.skip(1), seq![0x2bu8, 0x2b, 0x20])
    } else {
        true
    }
}

proof fn lemma_encode_prefix(t: Seq<char>)
    ensures
        encode_utf8("@@ -"@ + t) == seq![0x40u8, 0x40, 0x20, 0x2d] + encode_utf8(t),
{
    reveal_strlit("@@ -");
    crate::text::lemma_encode_utf8_append("@@ -"@, t);
    assert(vstd::utf8::is_ascii_chars("@@ -"@));
    vstd::utf8::is_ascii_chars_encode_utf8("@@ -"@);
    assert(encode_utf8("@@ -"@) =~= seq![0x40u8, 0x40, 0x20, 0x2d]);
}

/// The text of a hunk header with its two ranges swapped.
pub open spec fn swapped(s: Seq<char>) -> Seq<char> {
    let p = split_seq(s, ' ');
    let rest = s.skip((p[0].len() + p[1].len() + p[2].len() + 3) as int);
    "@@ -"@ + strip_char(p[2], '+') + " +"@ + strip_char(p[1], '-') + (seq![' '] + rest)
}

/// The text of a well-formed hunk header.
pub open spec fn good_header_text(s: Seq<char>) -> bool {
    let p = split_seq(s, ' ');
    &&& p.len() >= 4
    &&& p[0] == "@@"@
    &&& p[1].len() > 0 && p[1][0] == '-'
    &&& p[2].len() > 0 && p[2][0] == '+'
}

/// Swapping the ranges keeps the header well-formed and is undone by
/// swapping again.
proof fn lemma_swapped_text(s: Seq<char>)
    requires
        good_header_text(s),
    ensures
        good_header_text(swapped(s)),
        swapped(swapped(s)) == s,
{
    reveal_strlit("@@");
    reveal_strlit("@@ -");
    reveal_strlit(" +");
    let p = split_seq(s, ' ');
    lemma_split_three(s, ' ');
    let rest = s.skip((p[0].len() + p[1].len() + p[2].len() + 3) as int);
    let old = p[1].skip(1);
    let new = p[2].skip(1);
    let t = swapped(s);
    let q1 = seq!['-'] + new;
    let q2 = seq!['+'] + old;
    assert(!"@@"@.contains(' ')) by {
        if "@@"@.contains(' ') {
            let j = choose|j: int| 0 <= j < "@@"@.len() && "@@"@[j] == ' ';
        }
    }
    assert(!q1.contains(' ')) by {
        if q1.contains(' ') {
            let j = choose|j: int| 0 <= j < q1.len() && q1[j] == ' ';
            assert(p[2][j] == ' ');
        }
    }
    assert(!q2.contains(' ')) by {
        if q2.contains(' ') {
            let j = choose|j: int| 0 <= j < q2.len() && q2[j] == ' ';
            assert(p[1][j] == ' ');
        }
    }
    assert(t =~= "@@"@ + seq![' '] + (q1 + seq![' '] + (q2 + seq![' '] + rest)));
    lemma_split_prefix("@@"@, q1 + seq![' '] + (q2 + seq![' '] + rest), ' ');
    lemma_split_prefix(q1, q2 + seq![' '] + rest, ' ');
    lemma_split_prefix(q2, rest, ' ');
    lemma_split_seq_len(rest, ' ');
    let p2 = split_seq(t, ' ');
    assert(p2 =~= seq!["@@"@, q1, q2] + split_seq(rest, ' '));
    assert(strip_char(p2[1], '-') =~= new);
    assert(strip_char(p2[2], '+') =~= old);
    assert(t.skip((p2[0].len() + p2[1].len() + p2[2].len() + 3) as int) =~= rest);
    assert(s =~= "@@ -"@ + old + " +"@ + new + (seq![' '] + rest));
}

/// Reversing a well-formed hunk header twice gives it back.
pub proof fn lemma_hunk_header_involution(l: Seq<u8>)
    requires
        hunk_header_prefix(l),
        good_hunk_header(l),
    ensures
        hunk_header_prefix(rev_hunk_header(l)),
        !file_header_prefix(rev_hunk_header(l)),
        good_hunk_header(rev_hunk_header(l)),
        rev_hunk_header(rev_hunk_header(l)) == l,
{
    let s = decode_utf8(l);
    assert(good_header_text(s));
    assert(rev_hunk_header(l) == encode_utf8(swapped(s)));
    let t = swapped(s);
    let b1 = encode_utf8(t);
    lemma_swapped_text(s);
    let p = split_seq(s, ' ');
    let rest = s.skip((p[0].len() + p[1].len() + p[2].len() + 3) as int);
    let tail = strip_char(p[2], '+') + " +"@ + strip_char(p[1], '-') + (seq![' '] + rest);
    assert(t =~= "@@ -"@ + tail);
    lemma_encode_prefix(tail);
    assert(b1.take(3) =~= seq![0x40u8, 0x40, 0x20]);
    assert(b1[0] == 0x40);
    vstd::utf8::encode_utf8_decode_utf8(t);
    vstd::utf8::encode_utf8_valid_utf8(t);
    assert(decode_utf8(b1) == t);
    assert(rev_hunk_header(b1) == encode_utf8(swapped(t)));
    vstd::utf8::decode_utf8_encode_utf8(l);
}

/// Reversing a reversible line twice gives it back.
pub proof fn lemma_rev_line_involution(l: Seq<u8>)
    requires
        reversible_line(l),
    ensures
        rev_line(rev_line(l)) == l,
{
    if file_header_prefix(l) {
    } else if hunk_header_prefix(l) {
        lemma_hunk_header_involution(l);
    } else if l.len() > 0 && l[0] == 0x2b {
        let r = seq![0x2du8] + l.skip(1);
        assert(r.skip(1) =~= l.skip(1));
        if starts_with(r, seq![0x2du8, 0x2d, 0x2d, 0x20]) {
            assert(l.skip(1).take(3) =~= r.take(4).skip(1));
            assert(r.take(4).skip(1) =~= seq![0x2du8, 0x2d, 0x20]);
        }
        assert(seq![0x2bu8] + r.skip(1) =~= l);
    } else if l.len() > 0 && l[0] == 0x2d {
        let r = seq![0x2bu8] + l.skip(1);
        assert(r.skip(1) =~= l.skip(1));
        if starts_with(r, seq![0x2bu8, 0x2b, 0x2b, 0x20]) {
            assert(l.skip(1).take(3) =~= r.take(4).skip(1));
            assert(r.take(4).skip(1) =~= seq![0x2bu8, 0x2b, 0x20]);
        }
        assert(seq![0x2du8] + r.skip(1) =~= l);
    } else {
    }
}

proof fn lemma_not_contains_concat<T>(a: Seq<T>, b: Seq<T>, x: T)
    requires
        !a.contains(x),
        !b.contains(x),
    ensures
        !(a + b).contains(x),
{
    if (a + b).contains(x) {
        let j = choose|j: int| 0 <= j < (a + b).len() && (a + b)[j] == x;
        if j < a.len() {
            assert(a[j] == x);
        } else {
            assert(b[j - a.len()] == x);
        }
    }
}

proof fn lemma_part_not_contains<T>(s: Seq<T>, a: Seq<T>, b: Seq<T>, c: Seq<T>, x: T)
    requires
        s == a + b + c,
        !s.contains(x),
    ensures
        !b.contains(x),
{
    if b.contains(x) {
        let j = choose|j: int| 0 <= j < b.len() && b[j] == x;
        assert(s[a.len() + j] == x);
    }
}

/// Only a newline encodes to a newline byte.
proof fn lemma_scalar_newline(c: char)
    ensures
        vstd::utf8::encode_scalar(c as u32).contains(0x0au8) ==> c == '\n',
{
    let v = c as u32;
    vstd::utf8::char_is_scalar(c);
    let e = vstd::utf8::encode_scalar(v);
    if e.contains(0x0au8) {
        let j = choose|j: int| 0 <= j < e.len() && e[j] == 0x0au8;
        if v <= 0x7f {
            assert((v & 0x7f) == v) by (bit_vector)
                requires
                    v <= 0x7f,
            ;
            assert(v == 10);
        } else {
            assert((0xC0u8 | ((v >> 6) & 0x1F) as u8) != 0x0a) by (bit_vector);
            assert((0xE0u8 | ((v >> 12) & 0x0F) as u8) != 0x0a) by (bit_vector);
            assert((0xF0u8 | ((v >> 18) & 0x7) as u8) != 0x0a) by (bit_vector);
            assert((0x80u8 | (v & 0x3F) as u8) != 0x0a) by (bit_vector);
            assert((0x80u8 | ((v >> 6) & 0x3F) as u8) != 0x0a) by (bit_vector);
            assert((0x80u8 | ((v >> 12) & 0x3F) as u8) != 0x0a) by (bit_vector);
        }
    }
}

/// Text without a newline encodes to bytes without a newline.
proof fn lemma_encode_no_newline(t: Seq<char>)
    requires
        !t.contains('\n'),
    ensures
        !encode_utf8(t).contains(0x0au8),
    decreases t.len(),
{
    if t.len() > 0 {
        assert(!t.drop_first().contains('\n')) by {
            if t.drop_first().contains('\n') {
                let j = choose|j: int| 0 <= j < t.drop_first().len() && t.drop_first()[j] == '\n';
                assert(t[j + 1] == '\n');
            }
        }
        lemma_encode_no_newline(t.drop_first());
        lemma_scalar_newline(t[0]);
        assert(t[0] != '\n');
        lemma_not_contains_concat(vstd::utf8::encode_scalar(t[0] as u32), encode_utf8(t.drop_first()), 0x0au8);
    }
}

/// Valid UTF-8 without a newline byte decodes to text without a newline.
proof fn lemma_decode_no_newline(l: Seq<u8>)
    requires
        valid_utf8(l),
        !l.contains(0x0au8),
    ensures
        !decode_utf8(l).contains('\n'),
{
    let s = decode_utf8(l);
    if s.contains('\n') {
        let j = choose|j: int| 0 <= j < s.len() && s[j] == '\n';
        vstd::utf8::decode_utf8_encode_utf8(l);
        assert(s =~= s.take(j) + seq!['\n'] + s.skip(j + 1));
        crate::text::lemma_encode_utf8_append(s.take(j) + seq!['\n'], s.skip(j + 1));
        crate::text::lemma_encode_utf8_append(s.take(j), seq!['\n']);
        assert(vstd::utf8::is_ascii_chars(seq!['\n']));
        vstd::utf8::is_ascii_chars_encode_utf8(seq!['\n']);
        let e = encode_utf8(s.take(j));
        assert(encode_utf8(s)[e.len() as int] == 0x0au8);
        assert(l.contains(0x0au8));
    }
}

/// A reversible line without a newline reverses to bytes without one.
proof fn lemma_rev_line_no_newline(l: Seq<u8>)
    requires
        reversible_line(l),
        !l.contains(0x0au8),
    ensures
        !rev_line(l).contains(0x0au8),
{
    if file_header_prefix(l) {
    } else if hunk_header_prefix(l) {
        reveal_strlit("@@ -");
        reveal_strlit(" +");
        let s = decode_utf8(l);
        lemma_decode_no_newline(l);
        let p = split_seq(s, ' ');
        lemma_split_three(s, ' ');
        let rest = s.skip((p[0].len() + p[1].len() + p[2].len() + 3) as int);
        assert(s =~= (p[0] + seq![' ']) + p[1] + (seq![' '] + p[2] + seq![' '] + rest));
        lemma_part_not_contains(s, p[0] + seq![' '], p[1], seq![' '] + p[2] + seq![' '] + rest, '\n');
        assert(s =~= (p[0] + seq![' '] + p[1] + seq![' ']) + p[2] + (seq![' '] + rest));
        lemma_part_not_contains(s, p[0] + seq![' '] + p[1] + seq![' '], p[2], seq![' '] + rest, '\n');
        assert(s =~= (p[0] + seq![' '] + p[1] + seq![' '] + p[2] + seq![' ']) + rest + Seq::<char>::empty());
        lemma_part_not_contains(s, p[0] + seq![' '] + p[1] + seq![' '] + p[2] + seq![' '], rest, Seq::empty(), '\n');
        let a = strip_char(p[2], '+');
        let b = strip_char(p[1], '-');
        assert(p[2] =~= p[2].take(1) + a + Seq::<char>::empty());
        lemma_part_not_contains(p[2], p[2].take(1), a, Seq::empty(), '\n');
        assert(p[1] =~= p[1].take(1) + b + Seq::<char>::empty());
        lemma_part_not_contains(p[1], p[1].take(1), b, Seq::empty(), '\n');
        assert(!"@@ -"@.contains('\n')) by {
            if "@@ -"@.contains('\n') {
                let j = choose|j: int| 0 <= j < 4 && "@@ -"@[j] == '\n';
            }
        }
        assert(!" +"@.contains('\n')) by {
            if " +"@.contains('\n') {
                let j = choose|j: int| 0 <= j < 2 && " +"@[j] == '\n';
            }
        }
        assert(!seq![' '].contains('\n')) by {
            if seq![' '].contains('\n') {
                let j = choose|j: int| 0 <= j < 1 && seq![' '][j] == '\n';
            }
        }
        lemma_not_contains_concat("@@ -"@, a, '\n');
        lemma_not_contains_concat("@@ -"@ + a, " +"@, '\n');
        lemma_not_contains_concat("@@ -"@ + a + " +"@, b, '\n');
        lemma_not_contains_concat(seq![' '], rest, '\n');
        lemma_not_contains_concat("@@ -"@ + a + " +"@ + b, seq![' '] + rest, '\n');
        lemma_encode_no_newline(swapped(s));
    } else if l.len() > 0 && l[0] == 0x2b {
        assert(l =~= l.take(1) + l.skip(1) + Seq::<u8>::empty());
        lemma_part_not_contains(l, l.take(1), l.skip(1), Seq::empty(), 0x0au8);
        assert(!seq![0x2du8].contains(0x0au8)) by {
            if seq![0x2du8].contains(0x0au8) {
                let j = choose|j: int| 0 <= j < 1 && seq![0x2du8][j] == 0x0au8;
            }
        }
        lemma_not_contains_concat(seq![0x2du8], l.skip(1), 0x0au8);
    } else if l.len() > 0 && l[0] == 0x2d {
        assert(l =~= l.take(1) + l.skip(1) + Seq::<u8>::empty());
        lemma_part_not_contains(l, l.take(1), l.skip(1), Seq::empty(), 0x0au8);
        assert(!seq![0x2bu8].contains(0x0au8)) by {
            if seq![0x2bu8].contains(0x0au8) {
                let j = choose|j: int| 0 <= j < 1 && seq![0x2bu8][j] == 0x0au8;
            }
        }
        lemma_not_contains_concat(seq![0x2bu8], l.skip(1), 0x0au8);
    }
}

/// The pieces joined with `sep`, first piece first.
pub open spec fn join_front<T>(ls: Seq<Seq<T>>, sep: T) -> Seq<T>
    decreases ls.len(),
{
    if ls.len() == 0 {
        seq![]
    } else if ls.len() == 1 {
        ls[0]
    } else {
        ls[0] + seq![sep] + join_front(ls.drop_first(), sep)
    }
}

pub(crate) proof fn lemma_join_front_snoc<T>(xs: Seq<Seq<T>>, x: Seq<T>, sep: T)
    requires
        xs.len() >= 1,
    ensures
        join_front(xs.push(x), sep) == join_front(xs, sep) + seq![sep] + x,
    decreases xs.len(),
{
    if xs.len() == 1 {
        assert(xs.push(x).drop_first() =~= seq![x]);
        assert(join_front(seq![x], sep) == x);
    } else {
        lemma_join_front_snoc(xs.drop_first(), x, sep);
        assert(xs.push(x).drop_first() =~= xs.drop_first().push(x));
        assert(xs.push(x)[0] == xs[0]);
    }
}

proof fn lemma_rev_lines_front(ls: Seq<Seq<u8>>)
    ensures
        rev_lines(ls) == join_front(ls.map_values(|l: Seq<u8>| rev_line(l)), 0x0au8),
    decreases ls.len(),
{
    let rs = ls.map_values(|l: Seq<u8>| rev_line(l));
    if ls.len() >= 2 {
        lemma_rev_lines_front(ls.drop_last());
        assert(ls.drop_last().map_values(|l: Seq<u8>| rev_line(l)) =~= rs.drop_last());
        lemma_join_front_snoc(rs.drop_last(), rs.last(), 0x0au8);
        assert(rs.drop_last().push(rs.last()) =~= rs);
    }
}

pub(crate) proof fn lemma_split_pieces_no_sep<T>(s: Seq<T>, sep: T)
    ensures
        forall|i: int| 0 <= i < split_seq(s, sep).len() ==> !(#[trigger] split_seq(s, sep)[i]).contains(sep),
    decreases s.len(),
{
    let p = split_seq(s, sep);
    crate::seqs::lemma_first_index_facts(s, sep);
    match crate::seqs::first_index_of(s, sep) {
        Some(i) => {
            lemma_split_pieces_no_sep(s.skip(i + 1), sep);
            assert forall|k: int| 0 <= k < p.len() implies !(#[trigger] p[k]).contains(sep) by {
                if k == 0 {
                    if p[0].contains(sep) {
                        let j = choose|j: int| 0 <= j < p[0].len() && p[0][j] == sep;
                        assert(s[j] == sep);
                    }
                } else {
                    assert(p[k] == split_seq(s.skip(i + 1), sep)[k - 1]);
                }
            }
        },
        None => {
            assert forall|k: int| 0 <= k < p.len() implies !(#[trigger] p[k]).contains(sep) by {
                if s.contains(sep) {
                    let j = choose|j: int| 0 <= j < s.len() && s[j] == sep;
                }
            }
        },
    }
}

pub(crate) proof fn lemma_join_split<T>(s: Seq<T>, sep: T)
    ensures
        join_front(split_seq(s, sep), sep) == s,
    decreases s.len(),
{
    crate::seqs::lemma_first_index_facts(s, sep);
    match crate::seqs::first_index_of(s, sep) {
        Some(i) => {
            let rest = s.skip(i + 1);
            lemma_join_split(rest, sep);
            lemma_split_seq_len(rest, sep);
            let p = split_seq(s, sep);
            assert(p.drop_first() =~= split_seq(rest, sep));
            assert(s =~= s.take(i) + seq![sep] + rest);
        },
        None => {},
    }
}

pub(crate) proof fn lemma_split_join<T>(ls: Seq<Seq<T>>, sep: T)
    requires
        ls.len() >= 1,
        forall|i: int| 0 <= i < ls.len() ==> !(#[trigger] ls[i]).contains(sep),
    ensures
        split_seq(join_front(ls, sep), sep) == ls,
    decreases ls.len(),
{
    if ls.len() == 1 {
        crate::seqs::lemma_first_index_facts(ls[0], sep);
        if crate::seqs::first_index_of(ls[0], sep) is Some {
            let i = crate::seqs::first_index_of(ls[0], sep)->Some_0;
            assert(ls[0].contains(sep));
        }
        assert(split_seq(ls[0], sep) =~= ls);
    } else {
        let rest = ls.drop_first();
        assert(forall|i: int| 0 <= i < rest.len() ==> #[trigger] rest[i] == ls[i + 1]);
        lemma_split_join(rest, sep);
        assert(!ls[0].contains(sep));
        lemma_split_prefix(ls[0], join_front(rest, sep), sep);
        assert(seq![ls[0]] + rest =~= ls);
    }
}

/// Reversing a patch twice gives it back, when every line is reversible
/// (see [`reversible_line`]).
pub proof fn lemma_reverse_patch_involution(text: Seq<u8>)
    requires
        forall|i: int|
            0 <= i < split_seq(text, 0x0au8).len() ==> reversible_line(#[trigger] split_seq(text, 0x0au8)[i]),
    ensures
        reverse_patch_spec(reverse_patch_spec(text)) == text,
{
    let ls = split_seq(text, 0x0au8);
    let rs = ls.map_values(|l: Seq<u8>| rev_line(l));
    lemma_split_seq_len(text, 0x0au8);
    lemma_split_pieces_no_sep(text, 0x0au8);
    assert forall|i: int| 0 <= i < rs.len() implies !(#[trigger] rs[i]).contains(0x0au8) by {
        lemma_rev_line_no_newline(ls[i]);
    }
    lemma_rev_lines_front(ls);
    lemma_split_join(rs, 0x0au8);
    let r2 = split_seq(reverse_patch_spec(text), 0x0au8);
    assert(r2 == rs);
    lemma_rev_lines_front(rs);
    assert forall|i: int| 0 <= i < ls.len() implies #[trigger] rev_line(rs[i]) == ls[i] by {
        lemma_rev_line_involution(ls[i]);
    }
    assert(rs.map_values(|l: Seq<u8>| rev_line(l)) =~= ls);
    lemma_join_split(text, 0x0au8);
}

// ---------------------------------------------------------------------------
// The view of a conflicted file.

/// The mathematical value of a [`DiffTarget`].
pub ghost enum TargetView {
    WorkdirUnstaged(Seq<char>),
    Staged(Seq<char>),
    Commit(Seq<u8>, Seq<char>),
}

impl View for DiffTarget {
    type V = TargetView;

    open spec fn view(&self) -> TargetView {
        match self {
            DiffTarget::WorkdirUnstaged(p) => TargetView::WorkdirUnstaged(p@),
            DiffTarget::Staged(p) => TargetView::Staged(p@),
            DiffTarget::Commit(o, p) => TargetView::Commit(o.bytes@, p@),
        }
    }
}

impl DiffTarget {
    /// A copy of the target.
    pub fn copy(&self) -> (r: DiffTarget)
        ensures
            r@ == self@,
    {
        match self {
            DiffTarget::WorkdirUnstaged(p) => DiffTarget::WorkdirUnstaged(p.as_str().to_owned()),
            DiffTarget::Staged(p) => DiffTarget::Staged(p.as_str().to_owned()),
            DiffTarget::Commit(o, p) => DiffTarget::Commit(*o, p.as_str().to_owned()),
        }
    }
}

/// The state of the conflict scan: the side the current line belongs to
/// (`-` ours, `+` theirs, ` ` outside) and the conflicts seen.
pub open spec fn conflict_step(side: char, conflicts: nat, raw: Seq<char>) -> (char, char, nat) {
    if starts_with(raw, "<<<<<<< "@) {
        (' ', '-', conflicts + 1)
    } else if starts_with(raw, "======="@) && side == '-' {
        (' ', '+', conflicts)
    } else if starts_with(raw, ">>>>>>> "@) && side == '+' {
        (' ', ' ', conflicts)
    } else if starts_with(raw, "||||||| "@) && side == '-' {
        // diff3 style: the base block is shown as context.
        (' ', ' ', conflicts)
    } else if starts_with(raw, "======="@) && side == ' ' && conflicts > 0 {
        (' ', '+', conflicts)
    } else {
        (side, side, conflicts)
    }
}

/// Line `i` (from 0) of the file shown with its origin.
pub open spec fn conflict_line(i: int, origin: char, raw: Seq<char>) -> LineView {
    LineView {
        origin,
        old_no: if origin == '+' { None } else { Some((i + 1) as u32) },
        new_no: if origin == '-' { None } else { Some((i + 1) as u32) },
        text: raw,
        no_newline: false,
    }
}

/// The first `n` lines: their views, then the side and conflict count after
/// them.
pub open spec fn conflict_lines(ls: Seq<Seq<char>>, n: int) -> (Seq<LineView>, char, nat)
    decreases n,
{
    if n <= 0 || n > ls.len() {
        (seq![], ' ', 0)
    } else {
        let (v, side, c) = conflict_lines(ls, n - 1);
        let (origin, side2, c2) = conflict_step(side, c, ls[n - 1]);
        (v.push(conflict_line(n - 1, origin, ls[n - 1])), side2, c2)
    }
}

/// `@@ N conflict(s): <<<<<<< ours shown as removed, >>>>>>> theirs as added @@`.
pub open spec fn conflict_header(n: nat) -> Seq<char> {
    "@@ "@ + ascii_chars(decimal(n)) + " conflict"@ + (if n == 1 { ""@ } else { "s"@ })
        + ": <<<<<<< ours shown as removed, >>>>>>> theirs as added @@"@
}

proof fn lemma_split_len_bound<T>(s: Seq<T>, sep: T)
    ensures
        split_seq(s, sep).len() <= s.len() + 1,
    decreases s.len(),
{
    crate::seqs::lemma_first_index_facts(s, sep);
    match crate::seqs::first_index_of(s, sep) {
        Some(i) => lemma_split_len_bound(s.skip(i + 1), sep),
        None => {},
    }
}

fn conflict_step_exec(side: char, conflicts: usize, raw: &[char], lits: &ConflictMarks) -> (r: (char, char, usize))
    requires
        lits.wf(),
        conflicts < usize::MAX,
    ensures
        r.0 == conflict_step(side, conflicts as nat, raw@).0,
        r.1 == conflict_step(side, conflicts as nat, raw@).1,
        r.2 as nat == conflict_step(side, conflicts as nat, raw@).2,
{
    if crate::text::chars_start_with(raw, lits.ours.as_slice()) {
        (' ', '-', conflicts + 1)
    } else if crate::text::chars_start_with(raw, lits.sep.as_slice()) && side == '-' {
        (' ', '+', conflicts)
    } else if crate::text::chars_start_with(raw, lits.theirs.as_slice()) && side == '+' {
        (' ', ' ', conflicts)
    } else if crate::text::chars_start_with(raw, lits.base.as_slice()) && side == '-' {
        (' ', ' ', conflicts)
    } else if crate::text::chars_start_with(raw, lits.sep.as_slice()) && side == ' ' && conflicts > 0 {
        (' ', '+', conflicts)
    } else {
        (side, side, conflicts)
    }
}

/// The conflict markers, as chars.
struct ConflictMarks {
    ours: Vec<char>,
    sep: Vec<char>,
    theirs: Vec<char>,
    base: Vec<char>,
}

impl ConflictMarks {
    spec fn wf(&self) -> bool {
        &&& self.ours@ == "<<<<<<< "@
        &&& self.sep@ == "======="@
        &&& self.theirs@ == ">>>>>>> "@
        &&& self.base@ == "||||||| "@
    }

    fn new() -> (r: Self)
        ensures
            r.wf(),
    {
        ConflictMarks {
            ours: chars_of("<<<<<<< "),
            sep: chars_of("======="),
            theirs: chars_of(">>>>>>> "),
            base: chars_of("||||||| "),
        }
    }
}

pub open spec fn diff_lines_view(d: Seq<DiffLine>) -> Seq<LineView> {
    d.map_values(|l: DiffLine| l@)
}

/// A conflicted file shown as a diff from its text: one hunk in which
/// "ours" reads as removed and "theirs" as added, with a header counting
/// the conflicts. Files over [`MAX_DIFF_BYTES`] are too large, files with a
/// NUL byte are binary; both get no hunk.
pub fn conflict_view(target: &DiffTarget, text: &[u8]) -> (r: DiffText)
    ensures
        r.target@ == target@,
        r.status == FileKind::Conflicted,
        r.too_large == (text@.len() > MAX_DIFF_BYTES),
        r.binary == (!r.too_large && text@.contains(0u8)),
        (r.too_large || r.binary) ==> r.hunks@.len() == 0,
        !(r.too_large || r.binary) ==> ({
            let ls = lines_of(crate::text::lossy_text(text@));
            let (v, side, c) = conflict_lines(ls, ls.len() as int);
            &&& r.hunks@.len() == 1
            &&& r.hunks@[0].header@ == conflict_header(c)
            &&& diff_lines_view(r.hunks@[0].lines@) == v
        }),
{
    let mut out = DiffText {
        target: target.copy(),
        binary: false,
        too_large: false,
        status: FileKind::Conflicted,
        hunks: Vec::new(),
    };
    if text.len() as u64 > MAX_DIFF_BYTES {
        out.too_large = true;
        return out;
    }
    let mut k: usize = 0;
    while k < text.len()
        invariant
            k <= text.len(),
            text@.len() <= MAX_DIFF_BYTES,
            out.target@ == target@,
            out.status == FileKind::Conflicted,
            !out.too_large,
            !out.binary,
            out.hunks@.len() == 0,
            forall|j: int| 0 <= j < k ==> text@[j] != 0u8,
        decreases text.len() - k,
    {
        if text[k] == 0 {
            assert(text@.contains(0u8)) by {
                assert(text@[k as int] == 0u8);
            }
            out.binary = true;
            return out;
        }
        k = k + 1;
    }
    assert(!text@.contains(0u8));
    let s = lossy_string(text);
    assert(s@ == crate::text::lossy_text(text@));
    let chars = chars_of(s.as_str());
    let ls = lines_exec(chars.as_slice());
    let ghost lv = views(ls@);
    proof {
        lemma_split_len_bound(chars@, '\n');
        lemma_split_seq_len(chars@, '\n');
        assert(lv.len() == ls@.len());
        assert(lines_of(chars@).len() <= split_seq(chars@, '\n').len());
        assert(chars@.len() <= text@.len());
    }
    let lits = ConflictMarks::new();
    let mut lines: Vec<DiffLine> = Vec::new();
    let mut side = ' ';
    let mut conflicts: usize = 0;
    let mut i: usize = 0;
    while i < ls.len()
        invariant
            i <= ls.len(),
            lv == views(ls@),
            lv == lines_of(crate::text::lossy_text(text@)),
            ls.len() <= text.len() + 1,
            text.len() <= MAX_DIFF_BYTES,
            lits.wf(),
            out.target@ == target@,
            out.status == FileKind::Conflicted,
            !out.too_large,
            !out.binary,
            out.hunks@.len() == 0,
            !text@.contains(0u8),
            conflicts <= i,
            (diff_lines_view(lines@), side, conflicts as nat) == conflict_lines(lv, i as int),
        decreases ls.len() - i,
    {
        let raw = ls[i].as_slice();
        let (origin, side2, c2) = conflict_step_exec(side, conflicts, raw, &lits);
        let no = (i as u32) + 1;
        let line = DiffLine {
            origin,
            old_no: if origin == '+' { None } else { Some(no) },
            new_no: if origin == '-' { None } else { Some(no) },
            text: string_from_chars(raw),
            no_newline: false,
        };
        let ghost before = lines@;
        lines.push(line);
        assert(diff_lines_view(lines@) =~= diff_lines_view(before).push(conflict_line(i as int, origin, lv[i as int])));
        side = side2;
        conflicts = c2;
        i = i + 1;
    }
    let mut header = "@@ ".to_owned();
    push_decimal_str(&mut header, conflicts as u64);
    push_str(&mut header, " conflict");
    if conflicts != 1 {
        push_str(&mut header, "s");
    } else {
        assert(header@ =~= header@ + ""@) by {
            reveal_strlit("");
        }
    }
    push_str(&mut header, ": <<<<<<< ours shown as removed, >>>>>>> theirs as added @@");
    out.hunks.push(Hunk { header, lines });
    out
}


/// Everything the UI shows of a repository, read at one moment.
#[derive(Debug, Clone)]
pub struct RepoSnapshot {
    pub path: String,
    pub head: Option<HeadInfo>,
    pub branches: Vec<Branch>,
    pub tags: Vec<Tag>,
    pub stashes: Vec<Stash>,
    pub remotes: Vec<String>,
    /// (name, url) for each remote.
    pub remote_urls: Vec<(String, String)>,
    pub commits: Vec<CommitRow>,
    pub graph: crate::git::graph::GraphLayout,
    /// True when more commits exist beyond the cap.
    pub truncated: bool,
    pub unstaged: Vec<FileStatus>,
    pub staged: Vec<FileStatus>,
    pub conflicted: Vec<FileStatus>,
    pub user_name: String,
    pub user_email: String,
    /// Full message of the HEAD commit, offered when amending.
    pub head_message: Option<String>,
    /// Merge, rebase, cherry-pick or revert in progress.
    pub state: RepoState,
    /// (done, total) while a rebase runs.
    pub rebase_progress: Option<(usize, usize)>,
}

impl RepoSnapshot {
    /// Some file has a change: unstaged, staged or conflicted.
    pub fn is_dirty(&self) -> (r: bool)
        ensures
            r == (self.unstaged@.len() > 0 || self.staged@.len() > 0 || self.conflicted@.len() > 0),
    {
        !self.unstaged.is_empty() || !self.staged.is_empty() || !self.conflicted.is_empty()
    }
}

/// Where an interactive rebase is: the step it is at and the number of
/// steps, from the texts of its `msgnum` and `end` files, each a number
/// with whitespace around it.
pub fn rebase_step(msgnum: &str, end: &str) -> (r: Option<(usize, usize)>)
    ensures
        r == (match (parse_usize_spec(trim(msgnum@)), parse_usize_spec(trim(end@))) {
            (Some(a), Some(b)) => Some((a, b)),
            _ => None,
        }),
{
    let a = trim_string(msgnum);
    let b = trim_string(end);
    match (parse_usize(a.as_str()), parse_usize(b.as_str())) {
        (Some(x), Some(y)) => Some((x, y)),
        _ => None,
    }
}

} // verus!
