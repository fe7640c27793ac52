//! Commit graph lane assignment, gitk style: each commit sits in a lane,
//! lanes carry the parent they wait for, merges close lanes and forks open
//! them.
use vstd::pervasive::VecAdditionalExecFns;
use vstd::prelude::*;

use crate::git::repo::{CommitRow, Oid};

verus! {

#[derive(Debug, Clone, Copy, PartialEq, Eq, Structural)]
pub enum EdgeKind {
    /// Another lane merging into this commit (from_lane -> commit lane).
    Merge,
    /// This commit forking out to a parent in another lane (commit lane -> to_lane).
    Fork,
}

#[derive(Debug, Clone, Copy, PartialEq, Eq, Structural)]
pub struct Edge {
    pub from_lane: usize,
    pub to_lane: usize,
    pub kind: EdgeKind,
}

#[derive(Debug, Clone, PartialEq, Eq, Default)]
pub struct RowLayout {
    pub lane: usize,
    pub color: usize,
    /// Edges leaving this row downwards (to the next row).
    pub edges: Vec<Edge>,
    /// Lanes that pass straight through this row (excluding the commit lane).
    pub through: Vec<(usize, usize)>,
    /// Number of lanes active at this row, for column width.
    pub width: usize,
    pub is_merge: bool,
}

#[derive(Debug, Clone, PartialEq, Eq, Default)]
pub struct GraphLayout {
    pub rows: Vec<RowLayout>,
    pub max_lanes: usize,
}

pub const PALETTE_SIZE: usize = 8;

/// A lane: the commit it waits for and its color.
#[derive(Clone, Copy)]
pub struct Lane {
    pub expects: Oid,
    pub color: usize,
}

/// The lanes as values: the id each waits for and its color, `None` for a
/// free lane.
pub type Lanes = Seq<Option<(Seq<u8>, nat)>>;

/// The mathematical value of a [`RowLayout`].
pub ghost struct RowView {
    pub lane: nat,
    pub color: nat,
    pub edges: Seq<Edge>,
    pub through: Seq<(usize, usize)>,
    pub width: nat,
    pub is_merge: bool,
}

impl View for RowLayout {
    type V = RowView;

    open spec fn view(&self) -> RowView {
        RowView {
            lane: self.lane as nat,
            color: self.color as nat,
            edges: self.edges@,
            through: self.through@,
            width: self.width as nat,
            is_merge: self.is_merge,
        }
    }
}

pub open spec fn lane_view(l: Option<Lane>) -> Option<(Seq<u8>, nat)> {
    match l {
        Some(x) => Some((x.expects.bytes@, x.color as nat)),
        None => None,
    }
}

pub open spec fn lanes_view(v: Seq<Option<Lane>>) -> Lanes {
    v.map_values(|l: Option<Lane>| lane_view(l))
}

pub open spec fn row_views(v: Seq<RowLayout>) -> Seq<RowView> {
    v.map_values(|r: RowLayout| r@)
}

/// The id of a commit and the ids of its parents.
pub open spec fn commit_ids(c: CommitRow) -> (Seq<u8>, Seq<Seq<u8>>) {
    (c.oid.bytes@, c.parents@.map_values(|p: Oid| p.bytes@))
}

pub open spec fn commits_ids(cs: Seq<CommitRow>) -> Seq<(Seq<u8>, Seq<Seq<u8>>)> {
    cs.map_values(|c: CommitRow| commit_ids(c))
}

/// Lane `k` waits for `oid`.
pub open spec fn expecting(a: Lanes, oid: Seq<u8>, k: int) -> bool {
    a[k] matches Some((e, _)) && e == oid
}

/// The lanes among the first `n` that wait for `oid`, in order.
pub open spec fn matches_upto(a: Lanes, oid: Seq<u8>, n: int) -> Seq<int>
    decreases n,
{
    if n <= 0 || n > a.len() {
        seq![]
    } else {
        matches_upto(a, oid, n - 1) + if expecting(a, oid, n - 1) {
            seq![n - 1]
        } else {
            Seq::<int>::empty()
        }
    }
}

/// The first free lane at or after `k`, or the length.
pub open spec fn first_none_from(a: Lanes, k: int) -> int
    decreases a.len() - k,
{
    if k < 0 || k >= a.len() {
        a.len() as int
    } else if a[k] is None {
        k
    } else {
        first_none_from(a, k + 1)
    }
}

/// The first lane at or after `k` that waits for `p`.
pub open spec fn first_expecting_from(a: Lanes, p: Seq<u8>, k: int) -> Option<int>
    decreases a.len() - k,
{
    if k < 0 || k >= a.len() {
        None
    } else if expecting(a, p, k) {
        Some(k)
    } else {
        first_expecting_from(a, p, k + 1)
    }
}

/// A free lane: the first free one, or a new one at the end.
pub open spec fn claim(a: Lanes) -> (Lanes, int) {
    let i = first_none_from(a, 0);
    if i < a.len() {
        (a, i)
    } else {
        (a.push(None), a.len() as int)
    }
}

/// Close the lanes `ms` (the first `n` of them), each merging into `lane`.
pub open spec fn clear_merges(a: Lanes, ms: Seq<int>, lane: int, n: int) -> (Lanes, Seq<Edge>)
    decreases n,
{
    if n <= 0 || n > ms.len() {
        (a, seq![])
    } else {
        let (a1, es) = clear_merges(a, ms, lane, n - 1);
        (
            a1.update(ms[n - 1], None),
            es.push(Edge { from_lane: ms[n - 1] as usize, to_lane: lane as usize, kind: EdgeKind::Merge }),
        )
    }
}

/// The open lanes among the first `n`, other than `lane`, with their colors.
pub open spec fn through_upto(a: Lanes, lane: int, n: int) -> Seq<(usize, usize)>
    decreases n,
{
    if n <= 0 || n > a.len() {
        seq![]
    } else {
        through_upto(a, lane, n - 1) + match a[n - 1] {
            Some((_, c)) => if n - 1 != lane {
                seq![((n - 1) as usize, c as usize)]
            } else {
                Seq::empty()
            },
            None => Seq::empty(),
        }
    }
}

/// Open lanes for the first `n` of the other parents `ps`: a parent some
/// lane already waits for gets an edge to it, any other a new lane with the
/// next color.
pub open spec fn add_forks(a: Lanes, next: nat, lane: int, ps: Seq<Seq<u8>>, n: int) -> (Lanes, nat, Seq<Edge>)
    decreases n,
{
    if n <= 0 || n > ps.len() {
        (a, next, seq![])
    } else {
        let (a1, nx, es) = add_forks(a, next, lane, ps, n - 1);
        let p = ps[n - 1];
        match first_expecting_from(a1, p, 0) {
            Some(l) => (a1, nx, es.push(Edge { from_lane: lane as usize, to_lane: l as usize, kind: EdgeKind::Fork })),
            None => {
                let (a2, l) = claim(a1);
                (
                    a2.update(l, Some((p, nx))),
                    (nx + 1) % 8,
                    es.push(Edge { from_lane: lane as usize, to_lane: l as usize, kind: EdgeKind::Fork }),
                )
            },
        }
    }
}

/// Without free lanes at the end.
pub open spec fn trim_free(a: Lanes) -> Lanes
    decreases a.len(),
{
    if a.len() > 0 && a.last() is None {
        trim_free(a.drop_last())
    } else {
        a
    }
}

pub open spec fn max3(a: nat, b: nat, c: nat) -> nat {
    let m = if a >= b { a } else { b };
    if m >= c { m } else { c }
}

/// Lane, color, lanes and next color after placing the commit `oid`: the
/// first lane waiting for it, or a new lane with the next color.
pub open spec fn place(a: Lanes, next: nat, oid: Seq<u8>) -> (Lanes, int, nat, nat) {
    let ms = matches_upto(a, oid, a.len() as int);
    if ms.len() > 0 {
        (a, ms[0], a[ms[0]]->Some_0.1, next)
    } else {
        let (ac, l) = claim(a);
        (ac.update(l, Some((oid, next))), l, next, (next + 1) % 8)
    }
}

/// One row: the lanes and next color after it, and its layout.
pub open spec fn row_step(a: Lanes, next: nat, oid: Seq<u8>, parents: Seq<Seq<u8>>) -> (Lanes, nat, RowView) {
    let ms = matches_upto(a, oid, a.len() as int);
    let (a1, lane, color, next1) = place(a, next, oid);
    let (a2, merges) = clear_merges(a1, ms.skip(1), lane, ms.len() - 1);
    let through = through_upto(a2, lane, a2.len() as int);
    let wb = a2.len();
    let (a4, next2, edges) = if parents.len() == 0 {
        (a2.update(lane, None), next1, merges)
    } else {
        let a3 = a2.update(lane, Some((parents[0], color)));
        let (a4, nx, fes) = add_forks(a3, next1, lane, parents.skip(1), parents.len() - 1);
        (a4, nx, merges + fes)
    };
    let a5 = trim_free(a4);
    (
        a5,
        next2,
        RowView {
            lane: lane as nat,
            color,
            edges,
            through,
            width: max3(wb, a5.len(), (lane + 1) as nat),
            is_merge: parents.len() > 1,
        },
    )
}

/// The first `n` rows: lanes and next color after them, the rows, and the
/// widest row.
pub open spec fn layout_upto(cs: Seq<(Seq<u8>, Seq<Seq<u8>>)>, n: int) -> (Lanes, nat, Seq<RowView>, nat)
    decreases n,
{
    if n <= 0 || n > cs.len() {
        (seq![], 0, seq![], 0)
    } else {
        let (a, next, rows, mx) = layout_upto(cs, n - 1);
        let (a2, next2, row) = row_step(a, next, cs[n - 1].0, cs[n - 1].1);
        (a2, next2, rows.push(row), if mx >= row.width { mx } else { row.width })
    }
}

pub open spec fn ints(v: Seq<usize>) -> Seq<int> {
    v.map_values(|x: usize| x as int)
}

proof fn lemma_matches_range(a: Lanes, oid: Seq<u8>, n: int)
    ensures
        forall|i: int| 0 <= i < matches_upto(a, oid, n).len() ==> 0 <= #[trigger] matches_upto(a, oid, n)[i] < n
            && matches_upto(a, oid, n)[i] < a.len() && expecting(a, oid, matches_upto(a, oid, n)[i]),
    decreases n,
{
    if n > 0 && n <= a.len() {
        lemma_matches_range(a, oid, n - 1);
        let prev = matches_upto(a, oid, n - 1);
        let tail = if expecting(a, oid, n - 1) {
            seq![n - 1]
        } else {
            Seq::<int>::empty()
        };
        assert(matches_upto(a, oid, n) == prev + tail);
        assert forall|i: int| 0 <= i < matches_upto(a, oid, n).len() implies 0
            <= #[trigger] matches_upto(a, oid, n)[i] < n && matches_upto(a, oid, n)[i] < a.len() && expecting(
            a,
            oid,
            matches_upto(a, oid, n)[i],
        ) by {
            if i < prev.len() {
                assert(matches_upto(a, oid, n)[i] == prev[i]);
            } else {
                assert(matches_upto(a, oid, n)[i] == tail[i - prev.len()]);
            }
        }
    }
}

fn matching_lanes(active: &Vec<Option<Lane>>, oid: &Oid) -> (r: Vec<usize>)
    ensures
        ints(r@) == matches_upto(lanes_view(active@), oid.bytes@, active@.len() as int),
{
    let ghost a = lanes_view(active@);
    let mut out: Vec<usize> = Vec::new();
    let mut k: usize = 0;
    while k < active.len()
        invariant
            k <= active.len(),
            a == lanes_view(active@),
            ints(out@) == matches_upto(a, oid.bytes@, k as int),
        decreases active.len() - k,
    {
        let ghost before = out@;
        match active[k] {
            Some(l) => {
                if l.expects.same(oid) {
                    out.push(k);
                    assert(ints(out@) =~= ints(before).push(k as int));
                } else {
                    assert(ints(out@) =~= ints(before) + Seq::<int>::empty());
                }
            },
            None => {
                assert(ints(out@) =~= ints(before) + Seq::<int>::empty());
            },
        }
        k = k + 1;
    }
    out
}

fn first_expecting(active: &Vec<Option<Lane>>, p: &Oid) -> (r: Option<usize>)
    ensures
        match r {
            Some(l) => first_expecting_from(lanes_view(active@), p.bytes@, 0) == Some(l as int) && l < active.len(),
            None => first_expecting_from(lanes_view(active@), p.bytes@, 0) is None,
        },
{
    let ghost a = lanes_view(active@);
    let mut k: usize = 0;
    while k < active.len()
        invariant
            k <= active.len(),
            a == lanes_view(active@),
            first_expecting_from(a, p.bytes@, 0) == first_expecting_from(a, p.bytes@, k as int),
        decreases active.len() - k,
    {
        match active[k] {
            Some(l) => {
                if l.expects.same(p) {
                    return Some(k);
                }
            },
            None => {},
        }
        k = k + 1;
    }
    None
}

fn set_lane(active: &mut Vec<Option<Lane>>, i: usize, v: Option<Lane>)
    requires
        i < old(active).len(),
    ensures
        lanes_view(final(active)@) == lanes_view(old(active)@).update(i as int, lane_view(v)),
        final(active)@.len() == old(active)@.len(),
{
    active.set(i, v);
    assert(lanes_view(active@) =~= lanes_view(old(active)@).update(i as int, lane_view(v)));
}

/// A free lane: the first free one, or a new one at the end.
fn claim_lane(active: &mut Vec<Option<Lane>>) -> (r: usize)
    ensures
        (lanes_view(final(active)@), r as int) == claim(lanes_view(old(active)@)),
        r < final(active)@.len(),
{
    let ghost a = lanes_view(active@);
    let mut k: usize = 0;
    while k < active.len()
        invariant
            k <= active.len(),
            a == lanes_view(active@),
            active@ == old(active)@,
            first_none_from(a, 0) == first_none_from(a, k as int),
        decreases active.len() - k,
    {
        if active[k].is_none() {
            return k;
        }
        k = k + 1;
    }
    let n = active.len();
    active.push(None);
    assert(lanes_view(active@) =~= a.push(None));
    n
}

/// Drop the free lanes at the end.
fn trim_lanes(active: &mut Vec<Option<Lane>>)
    ensures
        lanes_view(final(active)@) == trim_free(lanes_view(old(active)@)),
{
    while active.len() > 0 && active[active.len() - 1].is_none()
        invariant
            trim_free(lanes_view(active@)) == trim_free(lanes_view(old(active)@)),
        decreases active.len(),
    {
        let ghost before = lanes_view(active@);
        let _ = active.pop();
        assert(lanes_view(active@) =~= before.drop_last());
    }
}

/// Place one commit: its row, with `active` and `next` carried to the next
/// row.
fn layout_row(active: &mut Vec<Option<Lane>>, next: &mut usize, c: &CommitRow) -> (row: RowLayout)
    requires
        *old(next) < 8,
    ensures
        *final(next) < 8,
        (lanes_view(final(active)@), *final(next) as nat, row@) == row_step(
            lanes_view(old(active)@),
            *old(next) as nat,
            commit_ids(*c).0,
            commit_ids(*c).1,
        ),
{
    let ghost a0 = lanes_view(active@);
    let ghost oid = c.oid.bytes@;
    let ghost parents = commit_ids(*c).1;
    let ms = matching_lanes(active, &c.oid);
    proof {
        lemma_matches_range(a0, oid, a0.len() as int);
    }
    let ghost msv = ints(ms@);
    let ghost placed = place(a0, *next as nat, oid);
    let mut lane: usize;
    let color: usize;
    if ms.len() > 0 {
        lane = ms[0];
        assert(msv[0] == lane as int);
        color = match active[lane] {
            Some(l) => l.color,
            None => 0,
        };
    } else {
        let l = claim_lane(active);
        set_lane(active, l, Some(Lane { expects: c.oid, color: *next }));
        lane = l;
        color = *next;
        *next = (*next + 1) % 8;
    }
    assert(lanes_view(active@) == placed.0 && lane as int == placed.1 && color as nat == placed.2 && *next as nat
        == placed.3);
    // Other lanes that expected this commit merge into it; they end here.
    let mut edges: Vec<Edge> = Vec::new();
    let ghost a1 = lanes_view(active@);
    let ghost rest = msv.skip(1);
    let mut j: usize = 1;
    while j < ms.len()
        invariant
            1 <= j <= ms.len() || (ms.len() == 0 && j == 1),
            msv == ints(ms@),
            rest == msv.skip(1),
            ms.len() > 0 ==> a1 == a0,
            forall|i: int| 0 <= i < msv.len() ==> 0 <= #[trigger] msv[i] < a0.len(),
            active@.len() == a1.len(),
            (lanes_view(active@), edges@) == clear_merges(a1, rest, lane as int, j - 1),
        decreases ms.len() - j,
    {
        let m = ms[j];
        assert(rest[j - 1] == m as int);
        edges.push(Edge { from_lane: m, to_lane: lane, kind: EdgeKind::Merge });
        set_lane(active, m, None);
        j = j + 1;
    }
    let ghost a2 = lanes_view(active@);
    assert((a2, edges@) == clear_merges(a1, rest, lane as int, msv.len() - 1));
    // Lanes that pass straight through this row.
    let mut through: Vec<(usize, usize)> = Vec::new();
    let mut k: usize = 0;
    while k < active.len()
        invariant
            k <= active.len(),
            a2 == lanes_view(active@),
            through@ == through_upto(a2, lane as int, k as int),
        decreases active.len() - k,
    {
        match active[k] {
            Some(l) => {
                if k != lane {
                    through.push((k, l.color));
                } else {
                    assert(through@ =~= through@ + Seq::<(usize, usize)>::empty());
                }
            },
            None => {
                assert(through@ =~= through@ + Seq::<(usize, usize)>::empty());
            },
        }
        k = k + 1;
    }
    let width_before = active.len();
    proof {
        assert(lane < active@.len()) by {
            if ms.len() > 0 {
                assert(msv[0] < a0.len());
            }
        }
    }
    if c.parents.len() == 0 {
        set_lane(active, lane, None);
    } else {
        set_lane(active, lane, Some(Lane { expects: c.parents[0], color }));
        let ghost a3 = lanes_view(active@);
        let ghost ps = parents.skip(1);
        let ghost fe_start = edges@;
        let ghost next1 = *next as nat;
        let mut f: usize = 1;
        while f < c.parents.len()
            invariant
                1 <= f <= c.parents.len(),
                parents == commit_ids(*c).1,
                ps == parents.skip(1),
                *next < 8,
                lane < active@.len(),
                ({
                    let (a4, nx, fes) = add_forks(a3, next1, lane as int, ps, f - 1);
                    &&& lanes_view(active@) == a4
                    &&& *next as nat == nx
                    &&& edges@ == fe_start + fes
                }),
            decreases c.parents.len() - f,
        {
            let p = c.parents[f];
            assert(ps[f - 1] == p.bytes@);
            let ghost before = edges@;
            match first_expecting(active, &p) {
                Some(l) => {
                    edges.push(Edge { from_lane: lane, to_lane: l, kind: EdgeKind::Fork });
                },
                None => {
                    let l = claim_lane(active);
                    set_lane(active, l, Some(Lane { expects: p, color: *next }));
                    *next = (*next + 1) % 8;
                    edges.push(Edge { from_lane: lane, to_lane: l, kind: EdgeKind::Fork });
                },
            }
            assert(edges@ =~= fe_start + add_forks(a3, next1, lane as int, ps, f as int).2);
            f = f + 1;
        }
    }
    trim_lanes(active);
    let n = active.len();
    let w1 = if width_before >= n { width_before } else { n };
    let width = if w1 >= lane + 1 { w1 } else { lane + 1 };
    RowLayout { lane, color, edges, through, width, is_merge: c.parents.len() > 1 }
}

/// Assign lanes, colors and edges to the commits, newest first.
pub fn layout(commits: &[CommitRow]) -> (g: GraphLayout)
    ensures
        row_views(g.rows@) == layout_upto(commits_ids(commits@), commits@.len() as int).2,
        g.max_lanes as nat == layout_upto(commits_ids(commits@), commits@.len() as int).3,
{
    let ghost cs = commits_ids(commits@);
    let mut active: Vec<Option<Lane>> = Vec::new();
    let mut rows: Vec<RowLayout> = Vec::new();
    let mut max_lanes: usize = 0;
    let mut next_color: usize = 0;
    let mut i: usize = 0;
    assert(lanes_view(active@) =~= Seq::<Option<(Seq<u8>, nat)>>::empty());
    while i < commits.len()
        invariant
            i <= commits.len(),
            cs == commits_ids(commits@),
            next_color < 8,
            ({
                let (a, nx, rs, mx) = layout_upto(cs, i as int);
                &&& lanes_view(active@) == a
                &&& next_color as nat == nx
                &&& row_views(rows@) == rs
                &&& max_lanes as nat == mx
            }),
        decreases commits.len() - i,
    {
        let c = &commits[i];
        assert(cs[i as int] == commit_ids(*c));
        let row = layout_row(&mut active, &mut next_color, c);
        let w = row.width;
        let ghost before = rows@;
        rows.push(row);
        assert(row_views(rows@) =~= row_views(before).push(row@));
        if w > max_lanes {
            max_lanes = w;
        }
        i = i + 1;
    }
    GraphLayout { rows, max_lanes }
}


// ---------------------------------------------------------------------------
// What every layout satisfies.

/// Every open lane has a palette color.
pub open spec fn colors_ok(a: Lanes) -> bool {
    forall|k: int| 0 <= k < a.len() && a[k] is Some ==> #[trigger] a[k]->Some_0.1 < 8
}

proof fn lemma_clear_merges_ok(a: Lanes, ms: Seq<int>, lane: int, n: int)
    requires
        colors_ok(a),
        forall|j: int| 0 <= j < ms.len() ==> 0 <= #[trigger] ms[j] < a.len(),
    ensures
        colors_ok(clear_merges(a, ms, lane, n).0),
        clear_merges(a, ms, lane, n).0.len() == a.len(),
    decreases n,
{
    if n > 0 && n <= ms.len() {
        lemma_clear_merges_ok(a, ms, lane, n - 1);
        let a1 = clear_merges(a, ms, lane, n - 1).0;
        lemma_set_ok(a1, ms[n - 1], None);
    }
}

proof fn lemma_claim_ok(a: Lanes)
    requires
        colors_ok(a),
    ensures
        colors_ok(claim(a).0),
        0 <= claim(a).1 < claim(a).0.len(),
{
    lemma_first_none_from_range(a, 0);
    let i = first_none_from(a, 0);
    if i >= a.len() {
        assert forall|k: int| 0 <= k < a.push(None).len() && a.push(None)[k] is Some implies #[trigger] a.push(
            None,
        )[k]->Some_0.1 < 8 by {
            assert(k < a.len());
            assert(a.push(None)[k] == a[k]);
        }
    }
}

proof fn lemma_first_none_from_range(a: Lanes, k: int)
    ensures
        0 <= k <= a.len() ==> k <= first_none_from(a, k),
        first_none_from(a, k) <= a.len(),
        0 <= first_none_from(a, k),
    decreases a.len() - k,
{
    if k >= 0 && k < a.len() && !(a[k] is None) {
        lemma_first_none_from_range(a, k + 1);
    }
}

proof fn lemma_set_ok(a: Lanes, i: int, v: Option<(Seq<u8>, nat)>)
    requires
        colors_ok(a),
        0 <= i < a.len(),
        v matches Some((_, c)) ==> c < 8,
    ensures
        colors_ok(a.update(i, v)),
        a.update(i, v).len() == a.len(),
{
    assert forall|k: int| 0 <= k < a.update(i, v).len() && a.update(i, v)[k] is Some implies #[trigger] a.update(
        i,
        v,
    )[k]->Some_0.1 < 8 by {
        if k != i {
            assert(a.update(i, v)[k] == a[k]);
        }
    }
}

proof fn lemma_add_forks_ok(a: Lanes, next: nat, lane: int, ps: Seq<Seq<u8>>, n: int)
    requires
        colors_ok(a),
        next < 8,
    ensures
        colors_ok(add_forks(a, next, lane, ps, n).0),
        add_forks(a, next, lane, ps, n).1 < 8,
    decreases n,
{
    if n > 0 && n <= ps.len() {
        lemma_add_forks_ok(a, next, lane, ps, n - 1);
        let (a1, nx, es) = add_forks(a, next, lane, ps, n - 1);
        match first_expecting_from(a1, ps[n - 1], 0) {
            Some(l) => {},
            None => {
                lemma_claim_ok(a1);
                let (a2, l) = claim(a1);
                lemma_set_ok(a2, l, Some((ps[n - 1], nx)));
            },
        }
    }
}

proof fn lemma_trim_ok(a: Lanes)
    requires
        colors_ok(a),
    ensures
        colors_ok(trim_free(a)),
    decreases a.len(),
{
    if a.len() > 0 && a.last() is None {
        assert forall|k: int| 0 <= k < a.drop_last().len() && a.drop_last()[k] is Some implies #[trigger] a.drop_last()[k]->Some_0.1
            < 8 by {
            assert(a.drop_last()[k] == a[k]);
        }
        lemma_trim_ok(a.drop_last());
    }
}

proof fn lemma_row_step_ok(a: Lanes, next: nat, oid: Seq<u8>, parents: Seq<Seq<u8>>)
    requires
        colors_ok(a),
        next < 8,
    ensures
        colors_ok(row_step(a, next, oid, parents).0),
        row_step(a, next, oid, parents).1 < 8,
        row_step(a, next, oid, parents).2.color < 8,
        row_step(a, next, oid, parents).2.lane < row_step(a, next, oid, parents).2.width,
{
    let ms = matches_upto(a, oid, a.len() as int);
    lemma_matches_range(a, oid, a.len() as int);
    let (a1, lane, color, next1) = place(a, next, oid);
    if ms.len() > 0 {
        assert(expecting(a, oid, ms[0]));
        assert(a[ms[0]] is Some);
    } else {
        lemma_claim_ok(a);
        let (ac, l) = claim(a);
        lemma_set_ok(ac, l, Some((oid, next)));
    }
    assert(colors_ok(a1) && color < 8 && next1 < 8);
    assert(0 <= lane < a1.len());
    if ms.len() > 0 {
        assert forall|j: int| 0 <= j < ms.skip(1).len() implies 0 <= #[trigger] ms.skip(1)[j] < a1.len() by {
            assert(ms.skip(1)[j] == ms[j + 1]);
        }
        lemma_clear_merges_ok(a1, ms.skip(1), lane, ms.len() - 1);
    }
    let (a2, merges) = clear_merges(a1, ms.skip(1), lane, ms.len() - 1);
    if parents.len() == 0 {
        lemma_set_ok(a2, lane, None);
        lemma_trim_ok(a2.update(lane, None));
    } else {
        lemma_set_ok(a2, lane, Some((parents[0], color)));
        let a3 = a2.update(lane, Some((parents[0], color)));
        lemma_add_forks_ok(a3, next1, lane, parents.skip(1), parents.len() - 1);
        lemma_trim_ok(add_forks(a3, next1, lane, parents.skip(1), parents.len() - 1).0);
    }
}

proof fn lemma_layout_ok(cs: Seq<(Seq<u8>, Seq<Seq<u8>>)>, n: int)
    ensures
        colors_ok(layout_upto(cs, n).0),
        layout_upto(cs, n).1 < 8,
        0 <= n <= cs.len() ==> layout_upto(cs, n).2.len() == n,
        forall|i: int|
            0 <= i < layout_upto(cs, n).2.len() ==> {
                let r = #[trigger] layout_upto(cs, n).2[i];
                &&& r.color < 8
                &&& r.lane < r.width
                &&& r.width <= layout_upto(cs, n).3
            },
    decreases n,
{
    if n > 0 && n <= cs.len() {
        lemma_layout_ok(cs, n - 1);
        let (a, next, rows, mx) = layout_upto(cs, n - 1);
        lemma_row_step_ok(a, next, cs[n - 1].0, cs[n - 1].1);
        let (a2, next2, row) = row_step(a, next, cs[n - 1].0, cs[n - 1].1);
        let (_, _, rows2, mx2) = layout_upto(cs, n);
        assert forall|i: int| 0 <= i < rows2.len() implies {
            let r = #[trigger] rows2[i];
            &&& r.color < 8
            &&& r.lane < r.width
            &&& r.width <= mx2
        } by {
            if i < rows.len() {
                assert(rows2[i] == rows[i]);
            }
        }
    } else {
        assert forall|k: int| 0 <= k < Seq::<Option<(Seq<u8>, nat)>>::empty().len() && Seq::<
            Option<(Seq<u8>, nat)>,
        >::empty()[k] is Some implies #[trigger] Seq::<Option<(Seq<u8>, nat)>>::empty()[k]->Some_0.1 < 8 by {}
    }
}

/// Every row of a layout has a palette color and sits in a lane within its
/// width, no row is wider than the layout's widest, and there is one row
/// per commit.
pub proof fn lemma_layout_rows_fit(cs: Seq<(Seq<u8>, Seq<Seq<u8>>)>)
    ensures
        layout_upto(cs, cs.len() as int).2.len() == cs.len(),
        forall|i: int|
            0 <= i < cs.len() ==> {
                let r = #[trigger] layout_upto(cs, cs.len() as int).2[i];
                &&& r.color < PALETTE_SIZE
                &&& r.lane < r.width
                &&& r.width <= layout_upto(cs, cs.len() as int).3
            },
{
    lemma_layout_ok(cs, cs.len() as int);
}

/// A row's merge flag, and its edges: first the lanes merging into it,
/// each ending at its lane, then one fork from its lane for each parent
/// after the first.
pub open spec fn row_shape(r: RowView, nparents: int) -> bool {
    let forks = if nparents > 1 { nparents - 1 } else { 0 };
    &&& r.is_merge == (nparents > 1)
    &&& forks <= r.edges.len()
    &&& forall|j: int|
        0 <= j < r.edges.len() ==> if j < r.edges.len() - forks {
            (#[trigger] r.edges[j]).kind == EdgeKind::Merge && r.edges[j].to_lane == r.lane as usize
        } else {
            r.edges[j].kind == EdgeKind::Fork && r.edges[j].from_lane == r.lane as usize
        }
}

proof fn lemma_clear_merges_edges(a: Lanes, ms: Seq<int>, lane: int, n: int)
    requires
        0 <= n <= ms.len(),
    ensures
        clear_merges(a, ms, lane, n).1.len() == n,
        forall|j: int|
            0 <= j < n ==> (#[trigger] clear_merges(a, ms, lane, n).1[j]).kind == EdgeKind::Merge && clear_merges(
                a,
                ms,
                lane,
                n,
            ).1[j].to_lane == lane as usize,
    decreases n,
{
    if n > 0 {
        lemma_clear_merges_edges(a, ms, lane, n - 1);
        let es = clear_merges(a, ms, lane, n - 1).1;
        assert forall|j: int| 0 <= j < n implies (#[trigger] clear_merges(a, ms, lane, n).1[j]).kind
            == EdgeKind::Merge && clear_merges(a, ms, lane, n).1[j].to_lane == lane as usize by {
            if j < n - 1 {
                assert(clear_merges(a, ms, lane, n).1[j] == es[j]);
            }
        }
    }
}

proof fn lemma_add_forks_edges(a: Lanes, next: nat, lane: int, ps: Seq<Seq<u8>>, n: int)
    requires
        0 <= n <= ps.len(),
    ensures
        add_forks(a, next, lane, ps, n).2.len() == n,
        forall|j: int|
            0 <= j < n ==> (#[trigger] add_forks(a, next, lane, ps, n).2[j]).kind == EdgeKind::Fork && add_forks(
                a,
                next,
                lane,
                ps,
                n,
            ).2[j].from_lane == lane as usize,
    decreases n,
{
    if n > 0 {
        lemma_add_forks_edges(a, next, lane, ps, n - 1);
        let es = add_forks(a, next, lane, ps, n - 1).2;
        assert forall|j: int| 0 <= j < n implies (#[trigger] add_forks(a, next, lane, ps, n).2[j]).kind
            == EdgeKind::Fork && add_forks(a, next, lane, ps, n).2[j].from_lane == lane as usize by {
            if j < n - 1 {
                assert(add_forks(a, next, lane, ps, n).2[j] == es[j]);
            }
        }
    }
}

proof fn lemma_row_step_shape(a: Lanes, next: nat, oid: Seq<u8>, parents: Seq<Seq<u8>>)
    ensures
        row_shape(row_step(a, next, oid, parents).2, parents.len() as int),
{
    let ms = matches_upto(a, oid, a.len() as int);
    lemma_matches_range(a, oid, a.len() as int);
    lemma_first_none_from_range(a, 0);
    let (a1, lane, color, next1) = place(a, next, oid);
    if ms.len() > 0 {
        assert(0 <= ms[0]);
    }
    assert(lane >= 0);
    let (a2, merges) = clear_merges(a1, ms.skip(1), lane, ms.len() - 1);
    if ms.len() > 0 {
        lemma_clear_merges_edges(a1, ms.skip(1), lane, ms.len() - 1);
    }
    assert(merges.len() == if ms.len() > 0 { ms.len() - 1 } else { 0 });
    let r = row_step(a, next, oid, parents).2;
    assert(r.lane as usize == lane as usize);
    let k = merges.len() as int;
    if parents.len() == 0 {
        assert(r.edges == merges);
    } else {
        let a3 = a2.update(lane, Some((parents[0], color)));
        let fes = add_forks(a3, next1, lane, parents.skip(1), parents.len() - 1).2;
        lemma_add_forks_edges(a3, next1, lane, parents.skip(1), parents.len() - 1);
        assert(r.edges == merges + fes);
        assert forall|j: int| 0 <= j < r.edges.len() implies if j < k {
            (#[trigger] r.edges[j]).kind == EdgeKind::Merge && r.edges[j].to_lane == r.lane as usize
        } else {
            r.edges[j].kind == EdgeKind::Fork && r.edges[j].from_lane == r.lane as usize
        } by {
            if j < k {
                assert(r.edges[j] == merges[j]);
            } else {
                assert(r.edges[j] == fes[j - k]);
            }
        }
    }
}

proof fn lemma_layout_shape_upto(cs: Seq<(Seq<u8>, Seq<Seq<u8>>)>, n: int)
    requires
        0 <= n <= cs.len(),
    ensures
        layout_upto(cs, n).2.len() == n,
        forall|i: int| 0 <= i < n ==> row_shape(#[trigger] layout_upto(cs, n).2[i], cs[i].1.len() as int),
        n == 0 ==> layout_upto(cs, n).3 == 0,
        n > 0 ==> exists|i: int| 0 <= i < n && #[trigger] layout_upto(cs, n).2[i].width == layout_upto(cs, n).3,
    decreases n,
{
    if n > 0 {
        lemma_layout_shape_upto(cs, n - 1);
        let (a, next, rows, mx) = layout_upto(cs, n - 1);
        lemma_row_step_shape(a, next, cs[n - 1].0, cs[n - 1].1);
        let rows2 = layout_upto(cs, n).2;
        let mx2 = layout_upto(cs, n).3;
        assert(rows2 == rows.push(row_step(a, next, cs[n - 1].0, cs[n - 1].1).2));
        assert forall|i: int| 0 <= i < n implies row_shape(#[trigger] rows2[i], cs[i].1.len() as int) by {
            if i < n - 1 {
                assert(rows2[i] == rows[i]);
            }
        }
        if mx2 == rows2[n - 1].width {
        } else {
            let i = choose|i: int| 0 <= i < n - 1 && #[trigger] rows[i].width == mx;
            assert(rows2[i] == rows[i]);
        }
    }
}

/// The shape of every row: it is a merge exactly when its commit has more
/// than one parent; its edges are the lanes merging into it, each ending
/// at its lane, then one fork from its lane per parent after the first.
/// The layout's widest is the width of some row, and 0 for no commits.
pub proof fn lemma_layout_rows_shape(cs: Seq<(Seq<u8>, Seq<Seq<u8>>)>)
    ensures
        forall|i: int|
            0 <= i < cs.len() ==> row_shape(
                #[trigger] layout_upto(cs, cs.len() as int).2[i],
                cs[i].1.len() as int,
            ),
        cs.len() == 0 ==> layout_upto(cs, cs.len() as int).3 == 0,
        cs.len() > 0 ==> exists|i: int|
            0 <= i < cs.len() && #[trigger] layout_upto(cs, cs.len() as int).2[i].width == layout_upto(
                cs,
                cs.len() as int,
            ).3,
{
    lemma_layout_shape_upto(cs, cs.len() as int);
}

/// The commit ids of the first `n` commits and their parents, counted: a
/// bound on how many lanes the layout can open.
pub open spec fn ids_weight(cs: Seq<(Seq<u8>, Seq<Seq<u8>>)>, n: int) -> nat
    decreases n,
{
    if n <= 0 || n > cs.len() {
        0
    } else {
        ids_weight(cs, n - 1) + cs[n - 1].1.len() + 1
    }
}

proof fn lemma_clear_merges_len(a: Lanes, ms: Seq<int>, lane: int, n: int)
    requires
        forall|j: int| 0 <= j < n && j < ms.len() ==> 0 <= #[trigger] ms[j] < a.len(),
    ensures
        clear_merges(a, ms, lane, n).0.len() == a.len(),
    decreases n,
{
    if n > 0 && n <= ms.len() {
        lemma_clear_merges_len(a, ms, lane, n - 1);
    }
}

/// After the merges are cleared, every merged lane is free, and each merge
/// edge starts at its lane.
proof fn lemma_clear_merges_free(a: Lanes, ms: Seq<int>, lane: int, n: int)
    requires
        0 <= n <= ms.len(),
        forall|j: int| 0 <= j < n ==> 0 <= #[trigger] ms[j] < a.len(),
    ensures
        forall|j: int| 0 <= j < n ==> (#[trigger] clear_merges(a, ms, lane, n).0[ms[j]]) is None,
        forall|j: int| 0 <= j < n ==> (#[trigger] clear_merges(a, ms, lane, n).1[j]).from_lane == ms[j] as usize,
    decreases n,
{
    lemma_clear_merges_len(a, ms, lane, n);
    if n > 0 {
        lemma_clear_merges_free(a, ms, lane, n - 1);
        lemma_clear_merges_len(a, ms, lane, n - 1);
        lemma_clear_merges_edges(a, ms, lane, n - 1);
        let (a1, es) = clear_merges(a, ms, lane, n - 1);
        assert forall|j: int| 0 <= j < n implies (#[trigger] clear_merges(a, ms, lane, n).0[ms[j]]) is None by {
            if j < n - 1 && ms[j] != ms[n - 1] {
                assert(clear_merges(a, ms, lane, n).0[ms[j]] == a1[ms[j]]);
            }
        }
        assert forall|j: int| 0 <= j < n implies (#[trigger] clear_merges(a, ms, lane, n).1[j]).from_lane
            == ms[j] as usize by {
            if j < n - 1 {
                assert(clear_merges(a, ms, lane, n).1[j] == es[j]);
            }
        }
    }
}

/// Each through lane is an open lane other than the commit's.
proof fn lemma_through_open(a: Lanes, lane: int, n: int)
    requires
        a.len() <= usize::MAX,
    ensures
        forall|i: int|
            0 <= i < through_upto(a, lane, n).len() ==> {
                let t = #[trigger] through_upto(a, lane, n)[i];
                &&& (t.0 as int) < a.len()
                &&& a[t.0 as int] is Some
                &&& t.0 as int != lane
            },
    decreases n,
{
    if n > 0 && n <= a.len() {
        lemma_through_open(a, lane, n - 1);
        let prev = through_upto(a, lane, n - 1);
        assert forall|i: int| 0 <= i < through_upto(a, lane, n).len() implies {
            let t = #[trigger] through_upto(a, lane, n)[i];
            &&& (t.0 as int) < a.len()
            &&& a[t.0 as int] is Some
            &&& t.0 as int != lane
        } by {
            if i < prev.len() {
                assert(through_upto(a, lane, n)[i] == prev[i]);
            }
        }
    }
}

proof fn lemma_claim_len(a: Lanes)
    ensures
        claim(a).0.len() <= a.len() + 1,
        a.len() <= claim(a).0.len(),
        0 <= claim(a).1 < claim(a).0.len(),
{
    lemma_first_none_from_range(a, 0);
}

proof fn lemma_add_forks_len(a: Lanes, next: nat, lane: int, ps: Seq<Seq<u8>>, n: int)
    requires
        0 <= n <= ps.len(),
    ensures
        add_forks(a, next, lane, ps, n).0.len() <= a.len() + n,
    decreases n,
{
    if n > 0 {
        lemma_add_forks_len(a, next, lane, ps, n - 1);
        let a1 = add_forks(a, next, lane, ps, n - 1).0;
        lemma_claim_len(a1);
    }
}

proof fn lemma_trim_len(a: Lanes)
    ensures
        trim_free(a).len() <= a.len(),
    decreases a.len(),
{
    if a.len() > 0 && a.last() is None {
        lemma_trim_len(a.drop_last());
    }
}

proof fn lemma_row_step_len(a: Lanes, next: nat, oid: Seq<u8>, parents: Seq<Seq<u8>>)
    ensures
        row_step(a, next, oid, parents).0.len() <= a.len() + parents.len() + 1,
{
    let ms = matches_upto(a, oid, a.len() as int);
    lemma_matches_range(a, oid, a.len() as int);
    let (a1, lane, color, next1) = place(a, next, oid);
    lemma_claim_len(a);
    if ms.len() > 0 {
        assert(0 <= ms[0] < a.len());
    }
    assert(0 <= lane < a1.len());
    assert(a.len() <= a1.len());
    assert forall|j: int| 0 <= j < ms.len() - 1 && j < ms.skip(1).len() implies 0 <= #[trigger] ms.skip(1)[j] < a1.len() by {
        assert(ms.skip(1)[j] == ms[j + 1]);
    }
    let (a2, merges) = clear_merges(a1, ms.skip(1), lane, ms.len() - 1);
    lemma_clear_merges_len(a1, ms.skip(1), lane, ms.len() - 1);
    if parents.len() == 0 {
        lemma_trim_len(a2.update(lane, None));
    } else {
        let a3 = a2.update(lane, Some((parents[0], color)));
        lemma_add_forks_len(a3, next1, lane, parents.skip(1), parents.len() - 1);
        lemma_trim_len(add_forks(a3, next1, lane, parents.skip(1), parents.len() - 1).0);
    }
}

/// In one row, a lane that merges into the commit is not drawn as passing
/// through the row: it ends there.
proof fn lemma_row_step_merged_not_through(a: Lanes, next: nat, oid: Seq<u8>, parents: Seq<Seq<u8>>)
    requires
        a.len() < usize::MAX,
    ensures
        ({
            let r = row_step(a, next, oid, parents).2;
            forall|i: int, j: int|
                0 <= i < r.through.len() && 0 <= j < r.edges.len() && (#[trigger] r.edges[j]).kind == EdgeKind::Merge
                    ==> (#[trigger] r.through[i]).0 != r.edges[j].from_lane
        }),
{
    let ms = matches_upto(a, oid, a.len() as int);
    lemma_matches_range(a, oid, a.len() as int);
    lemma_first_none_from_range(a, 0);
    let (a1, lane, color, next1) = place(a, next, oid);
    lemma_claim_len(a);
    assert(a.len() <= a1.len() <= a.len() + 1);
    let rest = ms.skip(1);
    let n = ms.len() - 1;
    assert forall|j: int| 0 <= j < n && j < rest.len() implies 0 <= #[trigger] rest[j] < a1.len() by {
        assert(rest[j] == ms[j + 1]);
    }
    let (a2, merges) = clear_merges(a1, rest, lane, n);
    lemma_clear_merges_len(a1, rest, lane, n);
    if ms.len() > 0 {
        lemma_clear_merges_edges(a1, rest, lane, n);
        assert forall|j: int| 0 <= j < n implies 0 <= #[trigger] rest[j] < a1.len() by {
            assert(rest[j] == ms[j + 1]);
        }
        lemma_clear_merges_free(a1, rest, lane, n);
    } else {
        assert(merges.len() == 0);
    }
    lemma_through_open(a2, lane, a2.len() as int);
    let r = row_step(a, next, oid, parents).2;
    lemma_row_step_shape(a, next, oid, parents);
    let k = merges.len() as int;
    assert forall|i: int, j: int|
        0 <= i < r.through.len() && 0 <= j < r.edges.len() && (#[trigger] r.edges[j]).kind == EdgeKind::Merge
            implies (#[trigger] r.through[i]).0 != r.edges[j].from_lane by {
        let t = r.through[i];
        if parents.len() == 0 {
            assert(r.edges == merges);
        } else {
            let a3 = a2.update(lane, Some((parents[0], color)));
            let fes = add_forks(a3, next1, lane, parents.skip(1), parents.len() - 1).2;
            lemma_add_forks_edges(a3, next1, lane, parents.skip(1), parents.len() - 1);
            assert(r.edges == merges + fes);
            if j >= k {
                assert(r.edges[j] == fes[j - k]);
            }
        }
        assert(j < k);
        assert(r.edges[j] == merges[j]);
        assert(merges[j].from_lane == rest[j] as usize);
        assert(a2[rest[j]] is None);
        assert(a2[t.0 as int] is Some);
    }
}

/// A lane that merges into a row's commit is not among that row's
/// through lanes: it ends at the row. This holds of every row when the
/// commits and their parents number fewer than `usize::MAX`, as any list
/// held in memory does.
pub proof fn lemma_layout_merged_lanes_end(cs: Seq<(Seq<u8>, Seq<Seq<u8>>)>)
    requires
        ids_weight(cs, cs.len() as int) < usize::MAX,
    ensures
        forall|r: int, i: int, j: int|
            0 <= r < cs.len() && 0 <= i < layout_upto(cs, cs.len() as int).2[r].through.len() && 0 <= j
                < layout_upto(cs, cs.len() as int).2[r].edges.len() && (#[trigger] layout_upto(
                cs,
                cs.len() as int,
            ).2[r].edges[j]).kind == EdgeKind::Merge ==> (#[trigger] layout_upto(cs, cs.len() as int).2[r].through[i]).0
                != layout_upto(cs, cs.len() as int).2[r].edges[j].from_lane,
{
    lemma_merged_lanes_end_upto(cs, cs.len() as int);
}

proof fn lemma_ids_weight_grows(cs: Seq<(Seq<u8>, Seq<Seq<u8>>)>, m: int, n: int)
    requires
        0 <= m <= n <= cs.len(),
    ensures
        ids_weight(cs, m) <= ids_weight(cs, n),
    decreases n - m,
{
    if m < n {
        lemma_ids_weight_grows(cs, m, n - 1);
    }
}

proof fn lemma_merged_lanes_end_upto(cs: Seq<(Seq<u8>, Seq<Seq<u8>>)>, n: int)
    requires
        0 <= n <= cs.len(),
        ids_weight(cs, cs.len() as int) < usize::MAX,
    ensures
        layout_upto(cs, n).0.len() <= ids_weight(cs, n),
        layout_upto(cs, n).2.len() == n,
        forall|r: int, i: int, j: int|
            0 <= r < n && 0 <= i < layout_upto(cs, n).2[r].through.len() && 0 <= j < layout_upto(cs, n).2[r].edges.len()
                && (#[trigger] layout_upto(cs, n).2[r].edges[j]).kind == EdgeKind::Merge ==> (#[trigger] layout_upto(
                cs,
                n,
            ).2[r].through[i]).0 != layout_upto(cs, n).2[r].edges[j].from_lane,
    decreases n,
{
    if n > 0 {
        lemma_merged_lanes_end_upto(cs, n - 1);
        lemma_ids_weight_grows(cs, n, cs.len() as int);
        let (a, next, rows, mx) = layout_upto(cs, n - 1);
        lemma_row_step_len(a, next, cs[n - 1].0, cs[n - 1].1);
        lemma_row_step_merged_not_through(a, next, cs[n - 1].0, cs[n - 1].1);
        let rows2 = layout_upto(cs, n).2;
        assert(rows2 == rows.push(row_step(a, next, cs[n - 1].0, cs[n - 1].1).2));
        assert forall|r: int, i: int, j: int|
            0 <= r < n && 0 <= i < rows2[r].through.len() && 0 <= j < rows2[r].edges.len() && (
            #[trigger] rows2[r].edges[j]).kind == EdgeKind::Merge implies (#[trigger] rows2[r].through[i]).0
            != rows2[r].edges[j].from_lane by {
            if r < n - 1 {
                assert(rows2[r] == rows[r]);
            }
        }
    }
}

} // verus!
