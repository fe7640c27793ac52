use gitgui::git::graph::{layout, Edge, EdgeKind, PALETTE_SIZE};
use gitgui::git::repo::{CommitRow, Oid};

fn oid(n: u8) -> Oid {
    let mut bytes = [0u8; 20];
    bytes[0] = n;
    Oid { bytes }
}

fn row(id: u8, parents: &[u8]) -> CommitRow {
    CommitRow {
        oid: oid(id),
        short: format!("{id:07x}"),
        parents: parents.iter().map(|p| oid(*p)).collect(),
        summary: String::new(),
        body: String::new(),
        author: String::new(),
        email: String::new(),
        time: 0,
        refs: Vec::new(),
    }
}

#[test]
fn linear_history_single_lane() {
    let commits = vec![row(3, &[2]), row(2, &[1]), row(1, &[])];
    let g = layout(&commits);
    assert_eq!(g.max_lanes, 1);
    assert!(g.rows.iter().all(|r| r.lane == 0 && r.edges.is_empty()));
    assert!(g.rows.iter().all(|r| r.color == 0));
}

#[test]
fn one_merge() {
    // 4 = merge(3, 2); 3 -> 1; 2 -> 1; 1 root
    let commits = vec![row(4, &[3, 2]), row(3, &[1]), row(2, &[1]), row(1, &[])];
    let g = layout(&commits);
    assert_eq!(g.max_lanes, 2);
    assert_eq!(g.rows[0].lane, 0);
    assert!(g.rows[0].is_merge);
    assert_eq!(g.rows[0].edges, vec![Edge { from_lane: 0, to_lane: 1, kind: EdgeKind::Fork }]);
    assert_eq!(g.rows[1].lane, 0);
    assert_eq!(g.rows[1].through, vec![(1, 1)]);
    assert_eq!(g.rows[2].lane, 1);
    assert!(g.rows[2].edges.is_empty());
    assert_eq!(g.rows[2].through, vec![(0, 0)]);
    assert_eq!(g.rows[3].lane, 0);
    assert_eq!(g.rows[3].edges, vec![Edge { from_lane: 1, to_lane: 0, kind: EdgeKind::Merge }]);
    assert_eq!(g.rows[3].width, 2);
}

#[test]
fn octopus_merge() {
    // 5 = merge(4, 3, 2), all -> 1
    let commits = vec![row(5, &[4, 3, 2]), row(4, &[1]), row(3, &[1]), row(2, &[1]), row(1, &[])];
    let g = layout(&commits);
    assert_eq!(g.max_lanes, 3);
    assert_eq!(g.rows[0].edges.len(), 2);
    assert!(g.rows[0].edges.iter().all(|e| e.kind == EdgeKind::Fork && e.from_lane == 0));
    assert_eq!(g.rows[4].edges.iter().filter(|e| e.kind == EdgeKind::Merge).count(), 2);
    let colors: std::collections::HashSet<usize> = g.rows[1..4].iter().map(|r| r.color).collect();
    assert_eq!(colors.len(), 3);
}

#[test]
fn two_independent_roots() {
    let commits = vec![row(4, &[3]), row(3, &[]), row(2, &[1]), row(1, &[])];
    let g = layout(&commits);
    assert_eq!(g.rows[0].lane, 0);
    assert_eq!(g.rows[1].lane, 0);
    assert_eq!(g.rows[2].lane, 0);
    assert_eq!(g.rows[3].lane, 0);
    assert_ne!(g.rows[0].color, g.rows[2].color);
    assert_eq!(g.max_lanes, 1);
}

#[test]
fn branch_started_later_keeps_lane_open() {
    let commits = vec![row(5, &[4]), row(4, &[2]), row(3, &[1]), row(2, &[1]), row(1, &[])];
    let g = layout(&commits);
    assert_eq!(g.rows[2].lane, 1);
    assert_eq!(g.rows[3].lane, 0);
    assert_eq!(g.rows[3].through, vec![(1, g.rows[2].color)]);
    assert_eq!(g.rows[4].edges, vec![Edge { from_lane: 1, to_lane: 0, kind: EdgeKind::Merge }]);
}

#[test]
fn empty_history_has_no_rows() {
    let g = layout(&[]);
    assert!(g.rows.is_empty());
    assert_eq!(g.max_lanes, 0);
}

#[test]
fn colors_wrap_around_the_palette() {
    // Nine independent roots: each takes the next color, the ninth wraps to 0.
    let commits: Vec<CommitRow> = (1..=9).rev().map(|n| row(n, &[])).collect();
    let g = layout(&commits);
    let colors: Vec<usize> = g.rows.iter().map(|r| r.color).collect();
    assert_eq!(colors, vec![0, 1, 2, 3, 4, 5, 6, 7, 0]);
    assert!(g.rows.iter().all(|r| r.color < PALETTE_SIZE && r.lane == 0 && r.width == 1));
}

#[test]
fn fork_to_a_lane_already_waiting() {
    // 3 = merge(2, 1) where lane 1 already waits for 1 from commit 4.
    let commits = vec![row(4, &[1]), row(3, &[2, 1]), row(2, &[1]), row(1, &[])];
    let g = layout(&commits);
    assert_eq!(g.rows[1].lane, 1);
    assert_eq!(g.rows[1].edges, vec![Edge { from_lane: 1, to_lane: 0, kind: EdgeKind::Fork }]);
    assert_eq!(g.max_lanes, 2);
}

#[test]
fn every_row_fits_its_layout() {
    // Criss-cross merges, an octopus and independent roots.
    let commits = vec![
        row(12, &[11, 9]),
        row(11, &[10, 8, 7]),
        row(10, &[6]),
        row(9, &[6, 8]),
        row(8, &[5]),
        row(7, &[4]),
        row(6, &[5]),
        row(5, &[3]),
        row(4, &[]),
        row(3, &[2, 1]),
        row(2, &[]),
        row(1, &[]),
    ];
    let g = layout(&commits);
    assert_eq!(g.rows.len(), commits.len());
    for r in &g.rows {
        assert!(r.color < PALETTE_SIZE);
        assert!(r.lane < r.width);
        assert!(r.width <= g.max_lanes);
    }
    assert_eq!(g.max_lanes, g.rows.iter().map(|r| r.width).max().unwrap());
    for (r, c) in g.rows.iter().zip(&commits) {
        assert_eq!(r.is_merge, c.parents.len() > 1);
        let forks = c.parents.len().saturating_sub(1);
        let merges = r.edges.len() - forks;
        for (j, e) in r.edges.iter().enumerate() {
            if j < merges {
                assert_eq!((e.kind, e.to_lane), (EdgeKind::Merge, r.lane));
            } else {
                assert_eq!((e.kind, e.from_lane), (EdgeKind::Fork, r.lane));
            }
        }
    }
}
