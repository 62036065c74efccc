use hexsnake::distance_grid::find_distances;
use hexsnake::hex::{Dir, HexPoint};

fn p(h: isize, v: isize) -> HexPoint {
    HexPoint { h, v }
}

fn neighbours(a: HexPoint, dim: HexPoint) -> Vec<HexPoint> {
    Dir::iter().into_iter().map(|d| a.explicit_wrapping_translate(d, dim).0).collect()
}

fn distance_of(out: &[(HexPoint, usize)], cell: HexPoint) -> Option<usize> {
    out.iter().find(|(q, _)| *q == cell).map(|(_, d)| *d)
}

#[test]
fn surrounded_head_has_no_distances() {
    let dim = p(10, 10);
    let head = p(5, 5);
    let mut occupied = neighbours(head, dim);
    occupied.push(head);
    assert!(find_distances(head, &occupied, dim).is_empty());
}

#[test]
fn open_board_lists_every_cell_once() {
    let dim = p(6, 6);
    let head = p(2, 3);
    let out = find_distances(head, &vec![head], dim);
    assert_eq!(out.len(), 36);
    for (i, (a, _)) in out.iter().enumerate() {
        for (b, _) in &out[i + 1..] {
            assert_ne!(a, b);
        }
    }
    // the head is not reached at the start: it comes back two steps on
    assert_eq!(distance_of(&out, head), Some(2));
}

#[test]
fn neighbours_are_one_step_away() {
    let dim = p(10, 10);
    let head = p(5, 5);
    let out = find_distances(head, &vec![head], dim);
    let mut first: Vec<HexPoint> = out.iter().filter(|(_, d)| *d == 1).map(|(q, _)| *q).collect();
    let mut expected = neighbours(head, dim);
    first.sort();
    expected.sort();
    expected.dedup();
    assert_eq!(first, expected);
}

#[test]
fn distance_counts_steps() {
    let dim = p(10, 10);
    let head = p(5, 5);
    let out = find_distances(head, &vec![head], dim);
    assert_eq!(distance_of(&out, p(5, 2)), Some(3));
    assert_eq!(distance_of(&out, p(7, 5)), Some(2));
    // one step up across the top edge
    assert_eq!(distance_of(&find_distances(p(5, 0), &vec![], dim), p(5, 9)), Some(1));
}

#[test]
fn occupied_cells_are_dead_ends() {
    let dim = p(10, 10);
    let head = p(5, 5);
    let wall = neighbours(head, dim);
    // only the cell above the head is free
    let occupied: Vec<HexPoint> = wall.iter().copied().filter(|q| *q != p(5, 4)).collect();
    let out = find_distances(head, &occupied, dim);
    for q in &occupied {
        assert_eq!(distance_of(&out, *q), Some(1));
    }
    // every cell further away is reached through a free cell one step closer
    for (q, d) in &out {
        if *d > 1 {
            let ok = neighbours(*q, dim).into_iter().any(|r| {
                !occupied.contains(&r) && distance_of(&out, r) == Some(*d - 1)
                    || (*d == 2 && r == p(5, 4))
            });
            assert!(ok, "{:?} at {}", q, d);
        }
    }
    // going round the wall takes longer than going straight down
    assert!(distance_of(&out, p(5, 7)).unwrap() > 2);
}

use hexsnake::distance_grid::DistanceGrid;

#[test]
fn the_grid_is_found_again_once_per_game_frame() {
    let dim = p(10, 10);
    let mut grid = DistanceGrid::new();
    assert!(grid.current().is_none());
    grid.update(0, p(5, 5), &vec![], dim);
    let first = grid.current().clone().unwrap();
    assert!(grid.last().is_none());
    // same frame: nothing is found again, even though the head moved
    grid.update(0, p(5, 4), &vec![], dim);
    assert_eq!(grid.current().as_ref(), Some(&first));
    // a later frame: the new distances replace the old, which are kept
    grid.update(1, p(5, 4), &vec![], dim);
    assert_eq!(grid.last().as_ref(), Some(&first));
    assert_eq!(distance_of(grid.current().as_ref().unwrap(), p(5, 3)), Some(1));
    grid.invalidate();
    assert!(grid.current().is_none() && grid.last().is_none());
}
