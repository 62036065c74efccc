//! The edges of the board that wrap around: what hints at the board's edges
//! are drawn on.

use vstd::prelude::*;

use crate::hex::{
    board_fits, steps_h, dir_at, dir_index, lemma_wrap_destination_symmetric, on_board, translated,
    wrap_destination_of, Dir, HexDim, HexPoint,
};

verus! {

/// Whether a side of a cell wraps: the cell is on the board and a step
/// through that side leaves it.
pub open spec fn wraps(dim: HexDim, pos: HexPoint, d: Dir) -> bool {
    on_board(dim, pos) && !on_board(dim, translated(pos, d, 1))
}

/// The order edges are listed in: by column, then row, then direction
/// clockwise from `U`.
pub open spec fn edge_before(a: (HexPoint, Dir), b: (HexPoint, Dir)) -> bool {
    ||| a.0.h < b.0.h
    ||| a.0.h == b.0.h && a.0.v < b.0.v
    ||| a.0.h == b.0.h && a.0.v == b.0.v && dir_index(a.1) < dir_index(b.1)
}

pub open spec fn edge_of(e: (HexPoint, Dir, HexPoint)) -> (HexPoint, Dir) {
    (e.0, e.1)
}

/// Every listed edge wraps, to the cell listed with it.
pub open spec fn edges_valid(edges: Seq<(HexPoint, Dir, HexPoint)>, dim: HexDim) -> bool {
    forall|i: int|
        0 <= i < edges.len() ==> {
            let (pos, d, dest) = #[trigger] edges[i];
            &&& wraps(dim, pos, d)
            &&& wrap_destination_of(pos, d, dim) == Some((dest.h as int, dest.v as int))
        }
}

/// The edges are listed in order, each once.
pub open spec fn edges_sorted(edges: Seq<(HexPoint, Dir, HexPoint)>) -> bool {
    forall|i: int, j: int|
        0 <= i < j < edges.len() ==> edge_before(edge_of(edges[i]), edge_of(edges[j]))
}

/// Every listed edge comes before `bound`.
pub open spec fn edges_before(edges: Seq<(HexPoint, Dir, HexPoint)>, bound: (HexPoint, Dir)) -> bool {
    forall|i: int| 0 <= i < edges.len() ==> edge_before(edge_of(#[trigger] edges[i]), bound)
}

pub open spec fn listed(edges: Seq<(HexPoint, Dir, HexPoint)>, pos: HexPoint, d: Dir) -> bool {
    exists|i: int| 0 <= i < edges.len() && edges[i].0 == pos && edges[i].1 == d
}

/// The edges of the cell `pos` that wrap, appended to `edges` in clockwise
/// order.
fn push_cell_edges(pos: HexPoint, board_dim: HexDim, edges: &mut Vec<(HexPoint, Dir, HexPoint)>)
    requires
        board_fits(board_dim),
        on_board(board_dim, pos),
        edges_valid(old(edges)@, board_dim),
        edges_sorted(old(edges)@),
        edges_before(old(edges)@, (pos, Dir::U)),
    ensures
        final(edges)@.len() >= old(edges)@.len(),
        final(edges)@.subrange(0, old(edges)@.len() as int) == old(edges)@,
        edges_valid(final(edges)@, board_dim),
        edges_sorted(final(edges)@),
        forall|i: int|
            old(edges)@.len() <= i < final(edges)@.len() ==> (#[trigger] final(edges)@[i]).0 == pos,
        forall|d: Dir| #[trigger] wraps(board_dim, pos, d) ==> listed(final(edges)@, pos, d),
{
    let dirs = Dir::iter();
    let ghost start = edges@;
    let mut k: usize = 0;
    while k < 6
        invariant
            board_fits(board_dim),
            on_board(board_dim, pos),
            0 <= k <= 6,
            dirs@.len() == 6,
            forall|k2: int| 0 <= k2 < 6 ==> #[trigger] dirs@[k2] == dir_at(k2),
            edges@.len() >= start.len(),
            edges@.subrange(0, start.len() as int) == start,
            edges_valid(edges@, board_dim),
            edges_sorted(edges@),
            edges_before(start, (pos, Dir::U)),
            forall|i: int|
                start.len() <= i < edges@.len() ==> (#[trigger] edges@[i]).0 == pos && dir_index(
                    edges@[i].1,
                ) < k,
            forall|d: Dir|
                #[trigger] wraps(board_dim, pos, d) && dir_index(d) < k ==> listed(edges@, pos, d),
        decreases 6 - k,
    {
        let dir = dirs[k];
        let ghost before = edges@;
        proof {
            if !on_board(board_dim, translated(pos, dir, 1)) {
                lemma_wrap_destination_symmetric(pos, dir, board_dim);
            }
        }
        match pos.wrap_destination(dir, board_dim) {
            Some(destination) => {
                edges.push((pos, dir, destination));
                proof {
                    assert forall|i: int, j: int|
                        0 <= i < j < edges@.len() implies edge_before(
                        edge_of(edges@[i]),
                        edge_of(edges@[j]),
                    ) by {
                        if j == edges@.len() - 1 && i < start.len() {
                            assert(edges@[i] == start[i]);
                            assert(edge_before(edge_of(start[i]), (pos, Dir::U)));
                        } else if j == edges@.len() - 1 {
                            assert(edges@[i] == before[i]);
                        } else {
                            assert(edges@[i] == before[i]);
                            assert(edges@[j] == before[j]);
                        }
                    }
                    assert forall|d: Dir|
                        #[trigger] wraps(board_dim, pos, d) && dir_index(d) < k + 1 implies listed(
                        edges@,
                        pos,
                        d,
                    ) by {
                        if d == dir {
                            assert(edges@[edges@.len() - 1].0 == pos);
                        } else {
                            let i = choose|i: int|
                                0 <= i < before.len() && before[i].0 == pos && before[i].1 == d;
                            assert(edges@[i] == before[i]);
                        }
                    }
                    assert(edges@.subrange(0, start.len() as int) =~= start) by {
                        assert(before.subrange(0, start.len() as int) == start);
                    }
                }
            },
            None => {},
        }
        k = k + 1;
    }
}

/// Every side of a cell that wraps around the board, as `(cell, direction,
/// the cell it wraps to)`, ordered by column, row and direction.
pub fn wrap_edges(board_dim: HexDim) -> (edges: Vec<(HexPoint, Dir, HexPoint)>)
    requires
        board_fits(board_dim),
    ensures
        edges_valid(edges@, board_dim),
        forall|pos: HexPoint, d: Dir| #[trigger] wraps(board_dim, pos, d) ==> listed(edges@, pos, d),
        edges_sorted(edges@),
{
    let mut edges: Vec<(HexPoint, Dir, HexPoint)> = Vec::new();
    let mut h: isize = 0;
    while h < board_dim.h
        invariant
            board_fits(board_dim),
            0 <= h <= board_dim.h,
            edges_valid(edges@, board_dim),
            edges_sorted(edges@),
            forall|i: int| 0 <= i < edges@.len() ==> (#[trigger] edges@[i]).0.h < h,
            forall|pos: HexPoint, d: Dir|
                #[trigger] wraps(board_dim, pos, d) && pos.h < h ==> listed(edges@, pos, d),
        decreases board_dim.h - h,
    {
        let mut v: isize = 0;
        while v < board_dim.v
            invariant
                board_fits(board_dim),
                0 <= h < board_dim.h,
                0 <= v <= board_dim.v,
                edges_valid(edges@, board_dim),
                edges_sorted(edges@),
                forall|i: int|
                    0 <= i < edges@.len() ==> (#[trigger] edges@[i]).0.h < h || (edges@[i].0.h
                        == h && edges@[i].0.v < v),
                forall|pos: HexPoint, d: Dir|
                    #[trigger] wraps(board_dim, pos, d) && (pos.h < h || (pos.h == h && pos.v < v))
                        ==> listed(edges@, pos, d),
            decreases board_dim.v - v,
        {
            let pos = HexPoint { h, v };
            // a single step changes h and v by at most 1, so only the outermost
            // rows and columns can leave the board
            if pos.h == 0 || pos.v == 0 || pos.h == board_dim.h - 1 || pos.v == board_dim.v - 1 {
                let ghost before = edges@;
                assert(edges_before(edges@, (pos, Dir::U)));
                push_cell_edges(pos, board_dim, &mut edges);
                proof {
                    assert forall|pos2: HexPoint, d: Dir|
                        #[trigger] wraps(board_dim, pos2, d) && (pos2.h < h || (pos2.h == h
                            && pos2.v < v + 1)) implies listed(edges@, pos2, d) by {
                        if pos2 != pos {
                            assert(listed(before, pos2, d));
                            let i = choose|i: int|
                                0 <= i < before.len() && before[i].0 == pos2 && before[i].1 == d;
                            assert(edges@.subrange(0, before.len() as int)[i] == before[i]);
                        }
                    }
                    assert forall|i: int| 0 <= i < edges@.len() implies (#[trigger] edges@[i]).0.h
                        < h || (edges@[i].0.h == h && edges@[i].0.v < v + 1) by {
                        if i < before.len() {
                            assert(edges@.subrange(0, before.len() as int)[i] == before[i]);
                        }
                    }
                }
            } else {
                proof {
                    assert forall|d: Dir| !wraps(board_dim, pos, d) by {
                        assert(steps_h(d, 1) == 0 || steps_h(d, 1) == 1 || steps_h(d, 1) == -1);
                    }
                }
            }
            v = v + 1;
        }
        h = h + 1;
    }
    edges
}

} // verus!
