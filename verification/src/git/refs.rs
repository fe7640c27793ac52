//! The refs of a snapshot: the branch and tag lists, the labels drawn on
//! commits, and the branch of an unborn HEAD.
use vstd::prelude::*;
use vstd::slice::slice_subrange;

use crate::git::repo::{hex_text, short_id, Branch, CommitRow, HeadInfo, Oid, RefKind, RefLabel, Tag};
use crate::git::status::{lemma_path_le_total, lemma_path_le_transitive, opt_text, path_le, text_le};
use crate::seqs::{ends_with, starts_with};
use crate::text::{chars_of, lossy_string, string_from_chars, trim, trim_string, utf8_lossy};

verus! {

/// A branch as the repository lists it: name, target, whether it is a
/// remote-tracking branch, and for a local one its upstream and how far it
/// is ahead of and behind it.
#[derive(Debug, Clone, PartialEq, Eq)]
pub struct RawBranch {
    pub name: String,
    pub oid: Oid,
    pub is_remote: bool,
    pub upstream: Option<String>,
    pub ahead: usize,
    pub behind: usize,
}

/// A tag as the repository lists it: the full ref name and the commit it
/// peels to.
#[derive(Debug, Clone, PartialEq, Eq)]
pub struct RawTag {
    pub refname: Vec<u8>,
    pub target: Oid,
}

/// A branch as values: name, target, remote, upstream, ahead, behind, head.
pub type BranchView = (Seq<char>, Seq<u8>, bool, Option<Seq<char>>, usize, usize, bool);

/// A label as values: the commit, the name, the kind.
pub type LabelView = (Seq<u8>, Seq<char>, RefKind);

pub open spec fn branch_view(b: Branch) -> BranchView {
    (b.name@, b.oid.bytes@, b.is_remote, opt_text(b.upstream), b.ahead, b.behind, b.is_head)
}

pub open spec fn branch_views(v: Seq<Branch>) -> Seq<BranchView> {
    v.map_values(|b: Branch| branch_view(b))
}

pub open spec fn label_view(l: (Oid, RefLabel)) -> LabelView {
    (l.0.bytes@, l.1.name@, l.1.kind)
}

pub open spec fn label_views(v: Seq<(Oid, RefLabel)>) -> Seq<LabelView> {
    v.map_values(|l: (Oid, RefLabel)| label_view(l))
}

/// A remote's symbolic `HEAD` is not listed.
pub open spec fn listed(r: RawBranch) -> bool {
    !(r.is_remote && ends_with(r.name@, "/HEAD"@))
}

/// The listed branch: remote ones have no upstream, the head is the local
/// branch named like the checked out one.
pub open spec fn branch_of(r: RawBranch, head: Option<Seq<char>>) -> BranchView {
    (
        r.name@,
        r.oid.bytes@,
        r.is_remote,
        if r.is_remote {
            None
        } else {
            opt_text(r.upstream)
        },
        if r.is_remote {
            0
        } else {
            r.ahead
        },
        if r.is_remote {
            0
        } else {
            r.behind
        },
        !r.is_remote && head == Some(r.name@),
    )
}

/// Local branches first, each group by name.
pub open spec fn branch_le(a: BranchView, b: BranchView) -> bool {
    (!a.2 && b.2) || (a.2 == b.2 && path_le(a.0, b.0))
}

pub open spec fn branch_pos(s: Seq<BranchView>, x: BranchView, k: int) -> int
    decreases s.len() - k,
{
    if k < 0 || k >= s.len() {
        s.len() as int
    } else if !branch_le(s[k], x) {
        k
    } else {
        branch_pos(s, x, k + 1)
    }
}

/// The branches and labels of the first `n` raw branches: branches in
/// stable order (local first, then by name), labels in listing order.
pub open spec fn branches_upto(rs: Seq<RawBranch>, head: Option<Seq<char>>, n: int) -> (Seq<BranchView>, Seq<LabelView>)
    decreases n,
{
    if n <= 0 || n > rs.len() {
        (Seq::empty(), Seq::empty())
    } else {
        let (bs, ls) = branches_upto(rs, head, n - 1);
        let r = rs[n - 1];
        if listed(r) {
            let b = branch_of(r, head);
            (
                bs.insert(branch_pos(bs, b, 0), b),
                ls.push(
                    (
                        r.oid.bytes@,
                        r.name@,
                        if r.is_remote {
                            RefKind::RemoteBranch
                        } else {
                            RefKind::LocalBranch
                        },
                    ),
                ),
            )
        } else {
            (bs, ls)
        }
    }
}

fn clone_opt(o: &Option<String>) -> (r: Option<String>)
    ensures
        opt_text(r) == opt_text(*o),
{
    match o {
        Some(s) => Some(s.clone()),
        None => None,
    }
}

fn branch_le_exec(a: &Branch, b: &Branch) -> (r: bool)
    ensures
        r == branch_le(branch_view(*a), branch_view(*b)),
{
    if !a.is_remote && b.is_remote {
        true
    } else if a.is_remote == b.is_remote {
        text_le(a.name.as_str(), b.name.as_str())
    } else {
        false
    }
}

fn insert_branch(list: &mut Vec<Branch>, x: Branch)
    ensures
        branch_views(final(list)@) == branch_views(old(list)@).insert(
            branch_pos(branch_views(old(list)@), branch_view(x), 0),
            branch_view(x),
        ),
{
    let ghost s = branch_views(list@);
    let mut k: usize = 0;
    while k < list.len()
        invariant
            k <= list.len(),
            s == branch_views(list@),
            list@ == old(list)@,
            branch_pos(s, branch_view(x), 0) == branch_pos(s, branch_view(x), k as int),
        ensures
            k <= list.len(),
            s == branch_views(list@),
            list@ == old(list)@,
            branch_pos(s, branch_view(x), 0) == k as int,
        decreases list.len() - k,
    {
        if !branch_le_exec(&list[k], &x) {
            break;
        }
        k = k + 1;
    }
    list.insert(k, x);
    proof {
        assert(branch_views(list@) =~= s.insert(k as int, branch_view(x)));
    }
}

fn is_remote_head(name: &str) -> (r: bool)
    ensures
        r == ends_with(name@, "/HEAD"@),
{
    let v = chars_of(name);
    let suffix = chars_of("/HEAD");
    proof {
        reveal_strlit("/HEAD");
    }
    if v.len() < 5 {
        return false;
    }
    let tail = slice_subrange(v.as_slice(), v.len() - 5, v.len());
    let r = crate::text::chars_eq(tail, suffix.as_slice());
    proof {
        assert(tail@ =~= v@.skip(v@.len() - 5));
    }
    r
}

/// The branch list of a snapshot and the labels its branches put on
/// commits: remote `HEAD`s are left out, remote branches carry no
/// upstream, the local branch named `head` is the head, and the list is
/// ordered local first, then by name.
pub fn branch_list(raw: &[RawBranch], head: &Option<String>) -> (r: (Vec<Branch>, Vec<(Oid, RefLabel)>))
    ensures
        (branch_views(r.0@), label_views(r.1@)) == branches_upto(raw@, opt_text(*head), raw@.len() as int),
{
    let mut out: Vec<Branch> = Vec::new();
    let mut labels: Vec<(Oid, RefLabel)> = Vec::new();
    let mut i: usize = 0;
    assert(branch_views(out@) =~= Seq::<BranchView>::empty());
    assert(label_views(labels@) =~= Seq::<LabelView>::empty());
    while i < raw.len()
        invariant
            i <= raw.len(),
            (branch_views(out@), label_views(labels@)) == branches_upto(raw@, opt_text(*head), i as int),
        decreases raw.len() - i,
    {
        let r = &raw[i];
        if !(r.is_remote && is_remote_head(r.name.as_str())) {
            let is_head = !r.is_remote && match head {
                Some(h) => *h == r.name,
                None => false,
            };
            let b = Branch {
                name: r.name.clone(),
                oid: r.oid,
                is_remote: r.is_remote,
                upstream: if r.is_remote {
                    None
                } else {
                    clone_opt(&r.upstream)
                },
                ahead: if r.is_remote {
                    0
                } else {
                    r.ahead
                },
                behind: if r.is_remote {
                    0
                } else {
                    r.behind
                },
                is_head,
            };
            assert(branch_view(b) == branch_of(*r, opt_text(*head)));
            let ghost before = label_views(labels@);
            let l = (r.oid, RefLabel {
                name: r.name.clone(),
                kind: if r.is_remote {
                    RefKind::RemoteBranch
                } else {
                    RefKind::LocalBranch
                },
            });
            labels.push(l);
            assert(label_views(labels@) =~= before.push(label_view(l)));
            insert_branch(&mut out, b);
        }
        i = i + 1;
    }
    (out, labels)
}

/// The short name of a tag ref: without `refs/tags/` where it has it.
pub open spec fn tag_name(refname: Seq<u8>) -> Seq<char> {
    let t = utf8_lossy(refname);
    if starts_with(t, "refs/tags/"@) {
        t.skip(10)
    } else {
        t
    }
}

pub open spec fn tag_view(t: Tag) -> (Seq<char>, Seq<u8>) {
    (t.name@, t.oid.bytes@)
}

pub open spec fn tag_views(v: Seq<Tag>) -> Seq<(Seq<char>, Seq<u8>)> {
    v.map_values(|t: Tag| tag_view(t))
}

pub open spec fn tag_pos(s: Seq<(Seq<char>, Seq<u8>)>, name: Seq<char>, k: int) -> int
    decreases s.len() - k,
{
    if k < 0 || k >= s.len() {
        s.len() as int
    } else if !path_le(s[k].0, name) {
        k
    } else {
        tag_pos(s, name, k + 1)
    }
}

/// The tags of the first `n` raw tags, in stable order by name, and their
/// labels in listing order.
pub open spec fn tags_upto(rs: Seq<RawTag>, n: int) -> (Seq<(Seq<char>, Seq<u8>)>, Seq<LabelView>)
    decreases n,
{
    if n <= 0 || n > rs.len() {
        (Seq::empty(), Seq::empty())
    } else {
        let (ts, ls) = tags_upto(rs, n - 1);
        let r = rs[n - 1];
        let name = tag_name(r.refname@);
        (
            ts.insert(tag_pos(ts, name, 0), (name, r.target.bytes@)),
            ls.push((r.target.bytes@, name, RefKind::Tag)),
        )
    }
}

fn short_tag_name(refname: &[u8]) -> (r: String)
    ensures
        r@ == tag_name(refname@),
{
    let full = lossy_string(refname);
    let v = chars_of(full.as_str());
    let pre = chars_of("refs/tags/");
    proof {
        reveal_strlit("refs/tags/");
    }
    if crate::text::chars_start_with(v.as_slice(), pre.as_slice()) {
        string_from_chars(slice_subrange(v.as_slice(), 10, v.len()))
    } else {
        full
    }
}

/// The tag list of a snapshot, ordered by name, and the labels the tags
/// put on the commits they peel to.
pub fn tag_list(raw: &[RawTag]) -> (r: (Vec<Tag>, Vec<(Oid, RefLabel)>))
    ensures
        (tag_views(r.0@), label_views(r.1@)) == tags_upto(raw@, raw@.len() as int),
{
    let mut out: Vec<Tag> = Vec::new();
    let mut labels: Vec<(Oid, RefLabel)> = Vec::new();
    let mut i: usize = 0;
    assert(tag_views(out@) =~= Seq::<(Seq<char>, Seq<u8>)>::empty());
    assert(label_views(labels@) =~= Seq::<LabelView>::empty());
    while i < raw.len()
        invariant
            i <= raw.len(),
            (tag_views(out@), label_views(labels@)) == tags_upto(raw@, i as int),
        decreases raw.len() - i,
    {
        let r = &raw[i];
        let name = short_tag_name(r.refname.as_slice());
        let ghost before = label_views(labels@);
        let l = (r.target, RefLabel { name: name.clone(), kind: RefKind::Tag });
        labels.push(l);
        assert(label_views(labels@) =~= before.push(label_view(l)));
        let ghost s = tag_views(out@);
        let mut k: usize = 0;
        while k < out.len()
            invariant
                k <= out.len(),
                s == tag_views(out@),
                tag_pos(s, name@, 0) == tag_pos(s, name@, k as int),
            ensures
                k <= out.len(),
                s == tag_views(out@),
                tag_pos(s, name@, 0) == k as int,
            decreases out.len() - k,
        {
            if !text_le(out[k].name.as_str(), name.as_str()) {
                break;
            }
            k = k + 1;
        }
        let t = Tag { name, oid: r.target };
        out.insert(k, t);
        assert(tag_views(out@) =~= s.insert(k as int, tag_view(t)));
        i = i + 1;
    }
    (out, labels)
}

/// The labels on commit `oid`, in order.
pub open spec fn refs_of(ls: Seq<LabelView>, oid: Seq<u8>) -> Seq<(Seq<char>, RefKind)>
    decreases ls.len(),
{
    if ls.len() == 0 {
        Seq::empty()
    } else {
        let before = refs_of(ls.drop_last(), oid);
        if ls.last().0 == oid {
            before.push((ls.last().1, ls.last().2))
        } else {
            before
        }
    }
}

pub open spec fn ref_views(v: Seq<RefLabel>) -> Seq<(Seq<char>, RefKind)> {
    v.map_values(|l: RefLabel| (l.name@, l.kind))
}

/// The labels on commit `oid`, in the order they were made.
pub fn commit_refs(labels: &[(Oid, RefLabel)], oid: &Oid) -> (r: Vec<RefLabel>)
    ensures
        ref_views(r@) == refs_of(label_views(labels@), oid.bytes@),
{
    let mut out: Vec<RefLabel> = Vec::new();
    let mut i: usize = 0;
    assert(ref_views(out@) =~= Seq::<(Seq<char>, RefKind)>::empty());
    while i < labels.len()
        invariant
            i <= labels.len(),
            ref_views(out@) == refs_of(label_views(labels@).take(i as int), oid.bytes@),
        decreases labels.len() - i,
    {
        let ghost before = ref_views(out@);
        assert(label_views(labels@).take(i + 1).drop_last() =~= label_views(labels@).take(i as int));
        if labels[i].0.same(oid) {
            let l = RefLabel { name: labels[i].1.name.clone(), kind: labels[i].1.kind };
            out.push(l);
            assert(ref_views(out@) =~= before.push((l.name@, l.kind)));
        }
        i = i + 1;
    }
    assert(label_views(labels@).take(labels@.len() as int) =~= label_views(labels@));
    out
}

/// The label a detached HEAD puts on its commit.
pub fn head_label(head: &Option<HeadInfo>) -> (r: Option<(Oid, RefLabel)>)
    ensures
        match *head {
            Some(h) => match (h.oid, h.detached) {
                (Some(o), true) => r matches Some(l) && label_view(l) == (o.bytes@, "HEAD"@, RefKind::Head),
                _ => r is None,
            },
            None => r is None,
        },
{
    match head {
        Some(h) => match h.oid {
            Some(o) => if h.detached {
                Some((o, RefLabel { name: "HEAD".to_owned(), kind: RefKind::Head }))
            } else {
                None
            },
            None => None,
        },
        None => None,
    }
}

/// The branch an unborn HEAD names: the contents of `HEAD`, trimmed, after
/// `ref: refs/heads/`.
pub open spec fn unborn_branch_spec(head_file: Seq<char>) -> Option<Seq<char>> {
    let t = trim(head_file);
    if starts_with(t, "ref: refs/heads/"@) {
        Some(t.skip(16))
    } else {
        None
    }
}

/// The branch an unborn HEAD points at, from the text of the `HEAD` file.
pub fn unborn_branch(head_file: &str) -> (r: Option<String>)
    ensures
        opt_text(r) == unborn_branch_spec(head_file@),
{
    let t = trim_string(head_file);
    let v = chars_of(t.as_str());
    let pre = chars_of("ref: refs/heads/");
    proof {
        reveal_strlit("ref: refs/heads/");
    }
    if crate::text::chars_start_with(v.as_slice(), pre.as_slice()) {
        Some(string_from_chars(slice_subrange(v.as_slice(), 16, v.len())))
    } else {
        None
    }
}


// ---------------------------------------------------------------------------
// The order of the lists.

/// Local branches come before remote ones, each group by name.
pub open spec fn branches_sorted(s: Seq<BranchView>) -> bool {
    forall|i: int, j: int| 0 <= i < j < s.len() ==> branch_le(#[trigger] s[i], #[trigger] s[j])
}

proof fn lemma_branch_le_total(a: BranchView, b: BranchView)
    ensures
        branch_le(a, b) || branch_le(b, a),
{
    lemma_path_le_total(a.0, b.0);
}

proof fn lemma_branch_le_transitive(a: BranchView, b: BranchView, c: BranchView)
    requires
        branch_le(a, b),
        branch_le(b, c),
    ensures
        branch_le(a, c),
{
    if a.2 == b.2 && b.2 == c.2 {
        lemma_path_le_transitive(a.0, b.0, c.0);
    }
}

proof fn lemma_branch_pos_facts(s: Seq<BranchView>, x: BranchView, k: int)
    requires
        0 <= k <= s.len(),
        forall|t: int| 0 <= t < k ==> branch_le(#[trigger] s[t], x),
    ensures
        k <= branch_pos(s, x, k) <= s.len(),
        forall|t: int| 0 <= t < branch_pos(s, x, k) ==> branch_le(#[trigger] s[t], x),
        branch_pos(s, x, k) < s.len() ==> !branch_le(s[branch_pos(s, x, k)], x),
    decreases s.len() - k,
{
    if k < s.len() && branch_le(s[k], x) {
        lemma_branch_pos_facts(s, x, k + 1);
    }
}

proof fn lemma_branches_sorted_upto(rs: Seq<RawBranch>, head: Option<Seq<char>>, n: int)
    ensures
        branches_sorted(branches_upto(rs, head, n).0),
    decreases n,
{
    if n > 0 && n <= rs.len() {
        lemma_branches_sorted_upto(rs, head, n - 1);
        let s = branches_upto(rs, head, n - 1).0;
        let r = rs[n - 1];
        if listed(r) {
            let x = branch_of(r, head);
            lemma_branch_pos_facts(s, x, 0);
            let pos = branch_pos(s, x, 0);
            let out = s.insert(pos, x);
            if pos < s.len() {
                lemma_branch_le_total(s[pos], x);
            }
            assert forall|i: int, j: int| 0 <= i < j < out.len() implies branch_le(#[trigger] out[i], #[trigger] out[j]) by {
                if j < pos {
                    assert(out[i] == s[i] && out[j] == s[j]);
                } else if j == pos {
                    assert(out[i] == s[i] && out[j] == x);
                } else if i == pos {
                    assert(out[j] == s[j - 1]);
                    if j - 1 > pos {
                        assert(branch_le(s[pos], s[j - 1]));
                        lemma_branch_le_transitive(x, s[pos], s[j - 1]);
                    }
                } else if i < pos {
                    assert(out[i] == s[i] && out[j] == s[j - 1]);
                } else {
                    assert(out[i] == s[i - 1] && out[j] == s[j - 1]);
                }
            }
        }
    }
}

/// The branch list has the local branches first, each group ordered by
/// name.
pub proof fn lemma_branch_list_sorted(rs: Seq<RawBranch>, head: Option<Seq<char>>)
    ensures
        branches_sorted(branches_upto(rs, head, rs.len() as int).0),
{
    lemma_branches_sorted_upto(rs, head, rs.len() as int);
}

/// The tags are in name order.
pub open spec fn tags_sorted(s: Seq<(Seq<char>, Seq<u8>)>) -> bool {
    forall|i: int, j: int| 0 <= i < j < s.len() ==> path_le(#[trigger] s[i].0, #[trigger] s[j].0)
}

proof fn lemma_tag_pos_facts(s: Seq<(Seq<char>, Seq<u8>)>, name: Seq<char>, k: int)
    requires
        0 <= k <= s.len(),
        forall|t: int| 0 <= t < k ==> path_le(#[trigger] s[t].0, name),
    ensures
        k <= tag_pos(s, name, k) <= s.len(),
        forall|t: int| 0 <= t < tag_pos(s, name, k) ==> path_le(#[trigger] s[t].0, name),
        tag_pos(s, name, k) < s.len() ==> !path_le(s[tag_pos(s, name, k)].0, name),
    decreases s.len() - k,
{
    if k < s.len() && path_le(s[k].0, name) {
        lemma_tag_pos_facts(s, name, k + 1);
    }
}

proof fn lemma_tags_sorted_upto(rs: Seq<RawTag>, n: int)
    ensures
        tags_sorted(tags_upto(rs, n).0),
    decreases n,
{
    if n > 0 && n <= rs.len() {
        lemma_tags_sorted_upto(rs, n - 1);
        let s = tags_upto(rs, n - 1).0;
        let r = rs[n - 1];
        let x = (tag_name(r.refname@), r.target.bytes@);
        lemma_tag_pos_facts(s, x.0, 0);
        let pos = tag_pos(s, x.0, 0);
        let out = s.insert(pos, x);
        if pos < s.len() {
            lemma_path_le_total(s[pos].0, x.0);
        }
        assert forall|i: int, j: int| 0 <= i < j < out.len() implies path_le(#[trigger] out[i].0, #[trigger] out[j].0) by {
            if j < pos {
                assert(out[i] == s[i] && out[j] == s[j]);
            } else if j == pos {
                assert(out[i] == s[i] && out[j] == x);
            } else if i == pos {
                assert(out[j] == s[j - 1]);
                if j - 1 > pos {
                    assert(path_le(s[pos].0, s[j - 1].0));
                    lemma_path_le_transitive(x.0, s[pos].0, s[j - 1].0);
                }
            } else if i < pos {
                assert(out[i] == s[i] && out[j] == s[j - 1]);
            } else {
                assert(out[i] == s[i - 1] && out[j] == s[j - 1]);
            }
        }
    }
}

/// The tag list is in name order.
pub proof fn lemma_tag_list_sorted(rs: Seq<RawTag>)
    ensures
        tags_sorted(tags_upto(rs, rs.len() as int).0),
{
    lemma_tags_sorted_upto(rs, rs.len() as int);
}


/// The local branch that checking out remote branch `name` creates: the
/// part after the first `/`, or all of it.
pub open spec fn local_name_spec(name: Seq<char>) -> Seq<char> {
    match crate::git::actions::split_once(name, '/') {
        Some((_, b)) => b,
        None => name,
    }
}

/// The local branch name for remote branch `name`.
pub fn local_name(name: &str) -> (r: String)
    ensures
        r@ == local_name_spec(name@),
{
    let v = chars_of(name);
    let found = crate::seqs::find_char(v.as_slice(), '/');
    proof {
        crate::seqs::lemma_first_index_facts(v@, '/');
    }
    match found {
        Some(k) => {
            assert(crate::seqs::is_first_index(v@, '/', k as int));
            assert(k < v.len());
            string_from_chars(slice_subrange(v.as_slice(), k + 1, v.len()))
        },
        None => name.to_owned(),
    }
}

/// `git commit -m MESSAGE [--amend]`: the commit the CLI makes when commits
/// must be signed.
pub fn commit_cli_args(message: &str, amend: bool) -> (r: Vec<String>)
    ensures
        r@.len() == if amend {
            4int
        } else {
            3int
        },
        r@[0]@ == "commit"@,
        r@[1]@ == "-m"@,
        r@[2]@ == message@,
        amend ==> r@[3]@ == "--amend"@,
{
    let mut args: Vec<String> = Vec::new();
    args.push("commit".to_owned());
    args.push("-m".to_owned());
    args.push(message.to_owned());
    if amend {
        args.push("--amend".to_owned());
    }
    args
}

/// A commit as the history walk reads it: the texts are absent where they
/// are not valid UTF-8.
#[derive(Debug, Clone, PartialEq, Eq)]
pub struct RawCommit {
    pub oid: Oid,
    pub parents: Vec<Oid>,
    pub summary: Option<String>,
    pub body: Option<String>,
    pub author: Option<String>,
    pub email: Option<String>,
    pub time: i64,
}

pub open spec fn text_or_empty(t: Option<String>) -> Seq<char> {
    match t {
        Some(s) => s@,
        None => Seq::empty(),
    }
}

fn owned_or_empty(t: Option<String>) -> (r: String)
    ensures
        r@ == text_or_empty(t),
{
    match t {
        Some(s) => s,
        None => String::new(),
    }
}

/// The log row of a commit: its id and short id, parents, summary, trimmed
/// body, author, email and time (missing texts empty), and the labels made
/// for it, in order.
pub fn commit_row(c: RawCommit, labels: &[(Oid, RefLabel)]) -> (r: CommitRow)
    ensures
        r.oid == c.oid,
        r.short@ == hex_text(c.oid.bytes@).take(7),
        r.parents@ == c.parents@,
        r.summary@ == text_or_empty(c.summary),
        r.body@ == trim(text_or_empty(c.body)),
        r.author@ == text_or_empty(c.author),
        r.email@ == text_or_empty(c.email),
        r.time == c.time,
        ref_views(r.refs@) == refs_of(label_views(labels@), c.oid.bytes@),
{
    let refs = commit_refs(labels, &c.oid);
    let body = owned_or_empty(c.body);
    CommitRow {
        oid: c.oid,
        short: short_id(c.oid),
        parents: c.parents,
        summary: owned_or_empty(c.summary),
        body: trim_string(body.as_str()),
        author: owned_or_empty(c.author),
        email: owned_or_empty(c.email),
        time: c.time,
        refs,
    }
}

} // verus!
