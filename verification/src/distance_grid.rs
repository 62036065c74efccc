//! How far each cell is from the player's head: a breadth-first search over
//! the board, step by step, wrapping around its edges. The search goes on
//! from free cells only; an occupied cell gets its distance but is a dead
//! end.

use vstd::prelude::*;

use crate::apple_spawn::{ascending, cell_count, cell_index, countable, insert_ascending, lemma_cell_index, point_lt};
use crate::guidance::{contains_cell, index_of_cell, is_step, path_valid};
use crate::hex::{
    board_fits, dir_at, dir_index, lemma_wrap_step_on_board, on_board, wrap_step, Dir, HexDim,
    HexPoint,
};

verus! {

/// `p` is one step, wrapping around the board, from one of the cells `from`.
pub open spec fn reached_from(dim: HexDim, from: Set<HexPoint>, p: HexPoint) -> bool {
    exists|q: HexPoint, d: Dir| from.contains(q) && #[trigger] wrap_step(q, d, dim).0 == p
}

/// The search after `k` steps: the free cells it reached in step `k` (it goes
/// on from these), the occupied cells it reached in step `k`, and all the
/// cells it has reached so far. It starts from `head`, which it does not
/// count as reached.
pub open spec fn layer(head: HexPoint, occupied: Seq<HexPoint>, dim: HexDim, k: nat) -> (
    Set<HexPoint>,
    Set<HexPoint>,
    Set<HexPoint>,
)
    decreases k,
{
    if k == 0 {
        (set![head], Set::empty(), Set::empty())
    } else {
        let (alive, _dead, seen) = layer(head, occupied, dim, (k - 1) as nat);
        let free = Set::new(
            |p: HexPoint| !seen.contains(p) && reached_from(dim, alive, p) && !occupied.contains(p),
        );
        let taken = Set::new(
            |p: HexPoint| !seen.contains(p) && reached_from(dim, alive, p) && occupied.contains(p),
        );
        (free, taken, seen.union(free).union(taken))
    }
}

/// `p` was reached in step `k`.
pub open spec fn in_layer(head: HexPoint, occupied: Seq<HexPoint>, dim: HexDim, k: nat, p: HexPoint) -> bool {
    layer(head, occupied, dim, k).0.contains(p) || layer(head, occupied, dim, k).1.contains(p)
}

/// Step `k` of the search reaches a free cell, so the search goes on.
pub open spec fn goes_on(head: HexPoint, occupied: Seq<HexPoint>, dim: HexDim, k: nat) -> bool {
    exists|p: HexPoint| #[trigger] layer(head, occupied, dim, k).0.contains(p)
}

/// The search makes `n` steps: each of them reaches a free cell, and the one
/// after them would reach none.
pub open spec fn search_length(head: HexPoint, occupied: Seq<HexPoint>, dim: HexDim, n: nat) -> bool {
    &&& forall|k: nat| 1 <= k <= n ==> #[trigger] goes_on(head, occupied, dim, k)
    &&& !goes_on(head, occupied, dim, n + 1)
}

/// `out` gives each cell reached in the first `n` steps the step that
/// reached it, and no other cell: each cell once.
pub open spec fn distances_listed(
    out: Seq<(HexPoint, usize)>,
    head: HexPoint,
    occupied: Seq<HexPoint>,
    dim: HexDim,
    n: nat,
) -> bool {
    &&& forall|i: int|
        0 <= i < out.len() ==> 1 <= (#[trigger] out[i]).1 <= n && in_layer(
            head,
            occupied,
            dim,
            out[i].1 as nat,
            out[i].0,
        )
    &&& forall|k: nat, p: HexPoint|
        1 <= k <= n && #[trigger] in_layer(head, occupied, dim, k, p) ==> out.contains((p, k as usize))
    &&& forall|i: int, j: int| 0 <= i < j < out.len() ==> (#[trigger] out[i]).0 != (#[trigger] out[j]).0
}

/// `p` is a cell of the board that `seen` does not mark (by its number).
pub open spec fn unseen(dim: HexDim, seen: Seq<bool>, p: HexPoint) -> bool {
    on_board(dim, p) && !seen[cell_index(dim, p)]
}

/// `p` is one step from `alive[i2]` in `d`, where `i2` comes before `i`, or
/// is `i` and `d` comes before the `k`-th direction.
spec fn reached_before(dim: HexDim, alive: Seq<HexPoint>, i: int, k: int, p: HexPoint) -> bool {
    exists|i2: int, d: Dir|
        0 <= i2 < alive.len() && (i2 < i || (i2 == i && dir_index(d) < k))
            && #[trigger] wrap_step(alive[i2], d, dim).0 == p
}

/// The cells one step from `alive` that the search has not reached yet
/// (`seen` marks them by number), each once, in ascending order.
fn fresh_cells(alive: &Vec<HexPoint>, seen: &Vec<bool>, dim: HexDim) -> (cand: Vec<HexPoint>)
    requires
        board_fits(dim),
        countable(dim),
        seen@.len() == cell_count(dim),
        forall|i: int| 0 <= i < alive@.len() ==> on_board(dim, #[trigger] alive@[i]),
    ensures
        ascending(cand@),
        forall|i: int| 0 <= i < cand@.len() ==> on_board(dim, #[trigger] cand@[i]),
        forall|p: HexPoint|
            #[trigger] cand@.contains(p) <==> reached_from(dim, alive@.to_set(), p) && unseen(dim, seen@, p),
{
    let dirs = Dir::iter();
    let mut cand: Vec<HexPoint> = Vec::new();
    let mut i: usize = 0;
    while i < alive.len()
        invariant
            board_fits(dim),
            countable(dim),
            seen@.len() == cell_count(dim),
            forall|i: int| 0 <= i < alive@.len() ==> on_board(dim, #[trigger] alive@[i]),
            dirs@.len() == 6,
            forall|i: int| 0 <= i < 6 ==> #[trigger] dirs@[i] == dir_at(i),
            0 <= i <= alive@.len(),
            ascending(cand@),
            forall|j: int| 0 <= j < cand@.len() ==> on_board(dim, #[trigger] cand@[j]),
            forall|p: HexPoint|
                #[trigger] cand@.contains(p) <==> reached_before(dim, alive@, i as int, 0, p)
                    && unseen(dim, seen@, p),
        decreases alive@.len() - i,
    {
        let pos = alive[i];
        let mut k: usize = 0;
        while k < 6
            invariant
                board_fits(dim),
                countable(dim),
                seen@.len() == cell_count(dim),
                forall|i: int| 0 <= i < alive@.len() ==> on_board(dim, #[trigger] alive@[i]),
                dirs@.len() == 6,
                forall|i: int| 0 <= i < 6 ==> #[trigger] dirs@[i] == dir_at(i),
                0 <= i < alive@.len(),
                pos == alive@[i as int],
                0 <= k <= 6,
                ascending(cand@),
                forall|j: int| 0 <= j < cand@.len() ==> on_board(dim, #[trigger] cand@[j]),
                forall|p: HexPoint|
                    #[trigger] cand@.contains(p) <==> reached_before(dim, alive@, i as int, k as int, p)
                        && unseen(dim, seen@, p),
            decreases 6 - k,
        {
            let d = dirs[k];
            let (q, _) = pos.explicit_wrapping_translate(d, dim);
            let c = index_of_cell(dim, q);
            let ghost before = cand@;
            if !seen[c] && !contains_cell(&cand, q) {
                insert_ascending(&mut cand, q);
            }
            proof {
                lemma_cell_index(dim, q, q);
                assert(wrap_step(alive@[i as int], dir_at(k as int), dim).0 == q);
                assert(reached_before(dim, alive@, i as int, k + 1, q));
                assert(unseen(dim, seen@, q) == !seen@[c as int]);
                assert forall|p: HexPoint| before.contains(p) implies #[trigger] cand@.contains(p) by {
                    assert(before.to_set().contains(p));
                    assert(cand@.to_set().contains(p));
                }
                assert forall|p: HexPoint| #[trigger] cand@.contains(p) implies before.contains(p) || p == q by {
                    assert(cand@.to_set().contains(p));
                }
                if unseen(dim, seen@, q) {
                    assert(cand@.contains(q)) by {
                        if !before.contains(q) {
                            assert(cand@.to_set().contains(q));
                        }
                    }
                }
                assert forall|p: HexPoint| #[trigger] cand@.contains(p) <==> reached_before(dim, alive@, i as int, k + 1, p)
                    && unseen(dim, seen@, p) by {
                    if reached_before(dim, alive@, i as int, k + 1, p) {
                        let (i2, d2) = choose|i2: int, d2: Dir|
                            0 <= i2 < alive@.len() && (i2 < i || (i2 == i && dir_index(d2) < k + 1))
                                && #[trigger] wrap_step(alive@[i2], d2, dim).0 == p;
                        if !(i2 < i || (i2 == i && dir_index(d2) < k)) {
                            assert(d2 == dir_at(k as int));
                            assert(p == q);
                        } else {
                            assert(reached_before(dim, alive@, i as int, k as int, p));
                        }
                    }
                    if before.contains(p) {
                        assert(reached_before(dim, alive@, i as int, k as int, p));
                        let (i2, d2) = choose|i2: int, d2: Dir|
                            0 <= i2 < alive@.len() && (i2 < i || (i2 == i && dir_index(d2) < k))
                                && #[trigger] wrap_step(alive@[i2], d2, dim).0 == p;
                        assert(reached_before(dim, alive@, i as int, k + 1, p));
                    }
                }
                assert forall|j: int| 0 <= j < cand@.len() implies on_board(dim, #[trigger] cand@[j]) by {
                    let x = cand@[j];
                    assert(cand@.contains(x));
                    if x != q {
                        let j2 = choose|j2: int| 0 <= j2 < before.len() && before[j2] == x;
                    }
                }
            }
            k = k + 1;
        }
        proof {
            assert forall|p: HexPoint| #[trigger] cand@.contains(p) <==> reached_before(dim, alive@, i + 1, 0, p)
                && unseen(dim, seen@, p) by {
                if reached_before(dim, alive@, i + 1, 0, p) {
                    let (i2, d2) = choose|i2: int, d2: Dir|
                        0 <= i2 < alive@.len() && (i2 < i + 1 || (i2 == i + 1 && dir_index(d2) < 0))
                            && #[trigger] wrap_step(alive@[i2], d2, dim).0 == p;
                    assert(dir_index(d2) < 6);
                }
            }
        }
        i = i + 1;
    }
    proof {
        assert forall|p: HexPoint| #[trigger] cand@.contains(p) <==> reached_from(dim, alive@.to_set(), p)
            && unseen(dim, seen@, p) by {
            if reached_from(dim, alive@.to_set(), p) {
                let (q, d) = choose|q: HexPoint, d: Dir| alive@.to_set().contains(q) && #[trigger] wrap_step(q, d, dim).0 == p;
                let i2 = choose|i2: int| 0 <= i2 < alive@.len() && alive@[i2] == q;
                assert(wrap_step(alive@[i2], d, dim).0 == p);
                assert(reached_before(dim, alive@, i as int, 0, p));
            }
            if reached_before(dim, alive@, i as int, 0, p) {
                let (i2, d2) = choose|i2: int, d2: Dir|
                    0 <= i2 < alive@.len() && (i2 < i || (i2 == i && dir_index(d2) < 0))
                        && #[trigger] wrap_step(alive@[i2], d2, dim).0 == p;
                assert(alive@.to_set().contains(alive@[i2]));
            }
        }
    }
    cand
}

/// `p` is one of the first `j` cells of `s`.
spec fn among(s: Seq<HexPoint>, j: int, p: HexPoint) -> bool {
    exists|j2: int| 0 <= j2 < j && s[j2] == p
}

/// The cells `cand` split into the free ones and the occupied ones, each
/// part in the order of `cand`.
fn split_occupied(cand: &Vec<HexPoint>, occupied: &Vec<HexPoint>) -> (r: (Vec<HexPoint>, Vec<HexPoint>))
    requires
        ascending(cand@),
    ensures
        ascending(r.0@),
        ascending(r.1@),
        forall|p: HexPoint| #[trigger] r.0@.contains(p) <==> cand@.contains(p) && !occupied@.contains(p),
        forall|p: HexPoint| #[trigger] r.1@.contains(p) <==> cand@.contains(p) && occupied@.contains(p),
{
    let mut free: Vec<HexPoint> = Vec::new();
    let mut taken: Vec<HexPoint> = Vec::new();
    let mut j: usize = 0;
    while j < cand.len()
        invariant
            ascending(cand@),
            0 <= j <= cand@.len(),
            ascending(free@),
            ascending(taken@),
            forall|p: HexPoint| #[trigger] free@.contains(p) <==> among(cand@, j as int, p) && !occupied@.contains(p),
            forall|p: HexPoint| #[trigger] taken@.contains(p) <==> among(cand@, j as int, p) && occupied@.contains(p),
        decreases cand@.len() - j,
    {
        let x = cand[j];
        let ghost f0 = free@;
        let ghost t0 = taken@;
        proof {
            assert forall|p: HexPoint| among(cand@, j as int, p) implies point_lt(p, x) by {
                let j2 = choose|j2: int| 0 <= j2 < j && cand@[j2] == p;
            }
        }
        if contains_cell(occupied, x) {
            taken.push(x);
            proof {
                assert forall|a: int, b: int| 0 <= a < b < taken@.len() implies point_lt(#[trigger] taken@[a], #[trigger] taken@[b]) by {
                    if b == taken@.len() - 1 {
                        assert(t0.contains(taken@[a]));
                    }
                }
            }
        } else {
            free.push(x);
            proof {
                assert forall|a: int, b: int| 0 <= a < b < free@.len() implies point_lt(#[trigger] free@[a], #[trigger] free@[b]) by {
                    if b == free@.len() - 1 {
                        assert(f0.contains(free@[a]));
                    }
                }
            }
        }
        proof {
            assert forall|p: HexPoint| among(cand@, j + 1, p) <==> among(cand@, j as int, p) || p == x by {
                if among(cand@, j + 1, p) && p != x {
                    let j2 = choose|j2: int| 0 <= j2 < j + 1 && cand@[j2] == p;
                    assert(among(cand@, j as int, p));
                }
                if p == x {
                    assert(cand@[j as int] == p);
                }
                if among(cand@, j as int, p) {
                    let j2 = choose|j2: int| 0 <= j2 < j && cand@[j2] == p;
                    assert(cand@[j2] == p);
                }
            }
            assert forall|p: HexPoint| #[trigger] free@.contains(p) <==> among(cand@, j + 1, p) && !occupied@.contains(p) by {
                if free@ != f0 {
                    assert(free@ == f0.push(x));
                    if free@.contains(p) && p != x {
                        let a = choose|a: int| 0 <= a < free@.len() && free@[a] == p;
                        assert(f0[a] == p);
                    }
                    if f0.contains(p) {
                        let a = choose|a: int| 0 <= a < f0.len() && f0[a] == p;
                        assert(free@[a] == p);
                    }
                    assert(free@[free@.len() - 1] == x);
                }
            }
            assert forall|p: HexPoint| #[trigger] taken@.contains(p) <==> among(cand@, j + 1, p) && occupied@.contains(p) by {
                if taken@ != t0 {
                    assert(taken@ == t0.push(x));
                    if taken@.contains(p) && p != x {
                        let a = choose|a: int| 0 <= a < taken@.len() && taken@[a] == p;
                        assert(t0[a] == p);
                    }
                    if t0.contains(p) {
                        let a = choose|a: int| 0 <= a < t0.len() && t0[a] == p;
                        assert(taken@[a] == p);
                    }
                    assert(taken@[taken@.len() - 1] == x);
                }
            }
        }
        j = j + 1;
    }
    proof {
        assert forall|p: HexPoint| among(cand@, j as int, p) <==> #[trigger] cand@.contains(p) by {
            if cand@.contains(p) {
                let j2 = choose|j2: int| 0 <= j2 < cand@.len() && cand@[j2] == p;
            }
        }
    }
    (free, taken)
}

/// `p` is a cell of the board that `seen` marks.
pub open spec fn marked(dim: HexDim, seen: Seq<bool>, p: HexPoint) -> bool {
    on_board(dim, p) && seen[cell_index(dim, p)]
}

/// How many entries of `s` are not marked.
pub open spec fn unmarked(s: Seq<bool>) -> nat
    decreases s.len(),
{
    if s.len() == 0 {
        0
    } else {
        unmarked(s.drop_last()) + if s.last() {
            0nat
        } else {
            1nat
        }
    }
}

/// Marking an unmarked entry leaves one fewer unmarked; there are never more
/// unmarked entries than entries.
proof fn lemma_mark(s: Seq<bool>, c: int)
    requires
        0 <= c < s.len(),
    ensures
        unmarked(s.update(c, true)) + (if s[c] {
            0int
        } else {
            1int
        }) == unmarked(s),
        unmarked(s) <= s.len(),
    decreases s.len(),
{
    let t = s.update(c, true);
    if c == s.len() - 1 {
        assert(t.drop_last() =~= s.drop_last());
        lemma_unmarked_len(s.drop_last());
    } else {
        assert(t.drop_last() =~= s.drop_last().update(c, true));
        lemma_mark(s.drop_last(), c);
    }
}

proof fn lemma_unmarked_len(s: Seq<bool>)
    ensures
        unmarked(s) <= s.len(),
    decreases s.len(),
{
    if s.len() > 0 {
        lemma_unmarked_len(s.drop_last());
    }
}

/// Mark the cells `cells`, none of them marked yet.
fn mark_cells(seen: &mut Vec<bool>, cells: &Vec<HexPoint>, dim: HexDim)
    requires
        countable(dim),
        old(seen)@.len() == cell_count(dim),
        ascending(cells@),
        forall|i: int| 0 <= i < cells@.len() ==> unseen(dim, old(seen)@, #[trigger] cells@[i]),
    ensures
        final(seen)@.len() == cell_count(dim),
        forall|p: HexPoint| #[trigger] marked(dim, final(seen)@, p) <==> marked(dim, old(seen)@, p) || cells@.contains(p),
        unmarked(final(seen)@) + cells@.len() == unmarked(old(seen)@),
{
    let ghost s0 = seen@;
    let mut j: usize = 0;
    while j < cells.len()
        invariant
            countable(dim),
            s0.len() == cell_count(dim),
            seen@.len() == cell_count(dim),
            ascending(cells@),
            forall|i: int| 0 <= i < cells@.len() ==> unseen(dim, s0, #[trigger] cells@[i]),
            0 <= j <= cells@.len(),
            forall|p: HexPoint| #[trigger] marked(dim, seen@, p) <==> marked(dim, s0, p) || among(cells@, j as int, p),
            unmarked(seen@) + j == unmarked(s0),
        decreases cells@.len() - j,
    {
        let x = cells[j];
        assert(unseen(dim, s0, x));
        let c = index_of_cell(dim, x);
        let ghost before = seen@;
        proof {
            if among(cells@, j as int, x) {
                let j2 = choose|j2: int| 0 <= j2 < j && cells@[j2] == x;
                assert(point_lt(cells@[j2], cells@[j as int]));
            }
            assert(!marked(dim, before, x));
            lemma_mark(before, c as int);
        }
        seen.set(c, true);
        proof {
            assert forall|p: HexPoint| #[trigger] marked(dim, seen@, p) <==> marked(dim, s0, p) || among(cells@, j + 1, p) by {
                assert(marked(dim, before, p) <==> marked(dim, s0, p) || among(cells@, j as int, p));
                if on_board(dim, p) {
                    lemma_cell_index(dim, p, x);
                    assert(seen@[cell_index(dim, p)] == (cell_index(dim, p) == c || before[cell_index(dim, p)]));
                }
                assert(marked(dim, seen@, p) <==> marked(dim, before, p) || p == x);
                if among(cells@, j + 1, p) && p != x {
                    let j2 = choose|j2: int| 0 <= j2 < j + 1 && cells@[j2] == p;
                    assert(among(cells@, j as int, p));
                }
                if p == x {
                    assert(cells@[j as int] == p);
                }
                if among(cells@, j as int, p) {
                    let j2 = choose|j2: int| 0 <= j2 < j && cells@[j2] == p;
                    assert(cells@[j2] == p);
                }
            }
        }
        j = j + 1;
    }
    proof {
        assert forall|p: HexPoint| among(cells@, j as int, p) <==> #[trigger] cells@.contains(p) by {
            if cells@.contains(p) {
                let j2 = choose|j2: int| 0 <= j2 < cells@.len() && cells@[j2] == p;
            }
        }
    }
}

/// Append each of `cells` with the distance `dist`.
fn push_layer(out: &mut Vec<(HexPoint, usize)>, cells: &Vec<HexPoint>, dist: usize)
    ensures
        final(out)@.len() == old(out)@.len() + cells@.len(),
        forall|i: int| 0 <= i < old(out)@.len() ==> #[trigger] final(out)@[i] == old(out)@[i],
        forall|i: int| 0 <= i < cells@.len() ==> #[trigger] final(out)@[old(out)@.len() + i] == (cells@[i], dist),
{
    let ghost o0 = out@;
    let mut j: usize = 0;
    while j < cells.len()
        invariant
            0 <= j <= cells@.len(),
            out@.len() == o0.len() + j,
            forall|i: int| 0 <= i < o0.len() ==> #[trigger] out@[i] == o0[i],
            forall|i: int| 0 <= i < j ==> #[trigger] out@[o0.len() + i] == (cells@[i], dist),
        decreases cells@.len() - j,
    {
        out.push((cells[j], dist));
        proof {
            assert(out@[o0.len() + j] == (cells@[j as int], dist));
        }
        j = j + 1;
    }
}

/// One more step of the search: listing the cells it reached after those
/// listed so far keeps the listing exact, and every listed cell reached.
proof fn lemma_extend_listing(
    out0: Seq<(HexPoint, usize)>,
    out1: Seq<(HexPoint, usize)>,
    free: Seq<HexPoint>,
    taken: Seq<HexPoint>,
    head: HexPoint,
    occ: Seq<HexPoint>,
    dim: HexDim,
    k: nat,
    d1: usize,
)
    requires
        d1 == k + 1,
        distances_listed(out0, head, occ, dim, k),
        forall|i: int| 0 <= i < out0.len() ==> layer(head, occ, dim, k).2.contains(#[trigger] out0[i].0),
        out1.len() == out0.len() + free.len() + taken.len(),
        forall|i: int| 0 <= i < out0.len() ==> #[trigger] out1[i] == out0[i],
        forall|i: int| 0 <= i < free.len() ==> #[trigger] out1[out0.len() + i] == (free[i], d1),
        forall|i: int| 0 <= i < taken.len() ==> #[trigger] out1[out0.len() + free.len() + i] == (taken[i], d1),
        ascending(free),
        ascending(taken),
        forall|p: HexPoint| #[trigger] free.contains(p) <==> layer(head, occ, dim, k + 1).0.contains(p),
        forall|p: HexPoint| #[trigger] taken.contains(p) <==> layer(head, occ, dim, k + 1).1.contains(p),
    ensures
        distances_listed(out1, head, occ, dim, k + 1),
        forall|i: int| 0 <= i < out1.len() ==> layer(head, occ, dim, k + 1).2.contains(#[trigger] out1[i].0),
{
    let lay = layer(head, occ, dim, k);
    let next = layer(head, occ, dim, k + 1);
    assert(next.2 == lay.2.union(next.0).union(next.1));
    let n0 = out0.len() as int;
    let nf = free.len() as int;
    // where each entry of `out1` comes from
    assert forall|i: int| 0 <= i < out1.len() implies {
        &&& 1 <= (#[trigger] out1[i]).1 <= k + 1
        &&& in_layer(head, occ, dim, out1[i].1 as nat, out1[i].0)
        &&& next.2.contains(out1[i].0)
        &&& (i < n0 ==> lay.2.contains(out1[i].0))
        &&& (n0 <= i < n0 + nf ==> next.0.contains(out1[i].0) && out1[i].1 == d1)
        &&& (n0 + nf <= i ==> next.1.contains(out1[i].0) && out1[i].1 == d1)
    } by {
        if i < n0 {
            assert(out1[i] == out0[i]);
            assert(lay.2.contains(out0[i].0));
        } else if i < n0 + nf {
            let a = i - n0;
            assert(out1[n0 + a] == (free[a], d1));
            assert(free.contains(free[a]));
        } else {
            let a = i - n0 - nf;
            assert(out1[n0 + nf + a] == (taken[a], d1));
            assert(taken.contains(taken[a]));
        }
    }
    assert forall|kk: nat, p: HexPoint| 1 <= kk <= k + 1 && #[trigger] in_layer(head, occ, dim, kk, p) implies out1.contains(
        (p, kk as usize),
    ) by {
        if kk <= k {
            assert(out0.contains((p, kk as usize)));
            let i = choose|i: int| 0 <= i < out0.len() && out0[i] == (p, kk as usize);
            assert(out1[i] == out0[i]);
        } else if next.0.contains(p) {
            assert(free.contains(p));
            let a = choose|a: int| 0 <= a < free.len() && free[a] == p;
            assert(out1[n0 + a] == (free[a], d1));
        } else {
            assert(taken.contains(p));
            let a = choose|a: int| 0 <= a < taken.len() && taken[a] == p;
            assert(out1[n0 + nf + a] == (taken[a], d1));
        }
    }
    assert forall|i: int, j: int| 0 <= i < j < out1.len() implies (#[trigger] out1[i]).0 != (#[trigger] out1[j]).0 by {
        if j < n0 {
            assert(out1[i] == out0[i] && out1[j] == out0[j]);
        } else if i < n0 {
            assert(lay.2.contains(out1[i].0));
        } else if j < n0 + nf {
            assert(out1[n0 + (i - n0)] == (free[i - n0], d1));
            assert(out1[n0 + (j - n0)] == (free[j - n0], d1));
            assert(point_lt(free[i - n0], free[j - n0]));
        } else if i < n0 + nf {
        } else {
            assert(out1[n0 + nf + (i - n0 - nf)] == (taken[i - n0 - nf], d1));
            assert(out1[n0 + nf + (j - n0 - nf)] == (taken[j - n0 - nf], d1));
            assert(point_lt(taken[i - n0 - nf], taken[j - n0 - nf]));
        }
    }
}

/// The distance from `head` to each cell the search reaches, where the
/// search goes on only from cells that are not `occupied`: each cell once,
/// with the step that reached it. The search stops at the first step that
/// reaches no free cell, and the occupied cells of that step are not listed.
/// `head` itself is not reached at the start, so it can be listed later, at
/// distance 2.
pub fn find_distances(head: HexPoint, occupied: &Vec<HexPoint>, board_dim: HexDim) -> (out: Vec<(HexPoint, usize)>)
    requires
        board_fits(board_dim),
        countable(board_dim),
        on_board(board_dim, head),
    ensures
        exists|n: nat|
            #[trigger] search_length(head, occupied@, board_dim, n) && distances_listed(
                out@,
                head,
                occupied@,
                board_dim,
                n,
            ),
{
    let dim = board_dim;
    let ghost occ = occupied@;
    let total = (dim.h * dim.v) as usize;
    let mut seen: Vec<bool> = Vec::new();
    while seen.len() < total
        invariant
            seen@.len() <= total,
            total == cell_count(dim),
            forall|c: int| 0 <= c < seen@.len() ==> !(#[trigger] seen@[c]),
        decreases total - seen@.len(),
    {
        seen.push(false);
    }
    let mut alive: Vec<HexPoint> = Vec::new();
    alive.push(head);
    let mut out: Vec<(HexPoint, usize)> = Vec::new();
    let mut dist: usize = 0;
    proof {
        lemma_unmarked_len(seen@);
        assert(alive@.to_set() =~= set![head]) by {
            assert(alive@[0] == head);
        }
        assert forall|p: HexPoint| #[trigger] marked(dim, seen@, p) implies false by {
            lemma_cell_index(dim, p, p);
        }
    }
    loop
        invariant
            board_fits(dim),
            countable(dim),
            on_board(dim, head),
            occ == occupied@,
            dim == board_dim,
            seen@.len() == cell_count(dim),
            forall|p: HexPoint|
                #![trigger marked(dim, seen@, p)]
                #![trigger layer(head, occ, dim, dist as nat).2.contains(p)]
                layer(head, occ, dim, dist as nat).2.contains(p) <==> marked(dim, seen@, p),
            alive@.to_set() == layer(head, occ, dim, dist as nat).0,
            forall|i: int| 0 <= i < alive@.len() ==> on_board(dim, #[trigger] alive@[i]),
            dist + unmarked(seen@) <= cell_count(dim),
            forall|k: nat| 1 <= k <= dist ==> #[trigger] goes_on(head, occ, dim, k),
            distances_listed(out@, head, occ, dim, dist as nat),
            forall|i: int| 0 <= i < out@.len() ==> layer(head, occ, dim, dist as nat).2.contains(#[trigger] out@[i].0),
        decreases unmarked(seen@),
    {
        let cand = fresh_cells(&alive, &seen, dim);
        let (free, taken) = split_occupied(&cand, occupied);
        let ghost lay = layer(head, occ, dim, dist as nat);
        let ghost next = layer(head, occ, dim, (dist + 1) as nat);
        proof {
            assert(next.0 == Set::new(
                |p: HexPoint| !lay.2.contains(p) && reached_from(dim, lay.0, p) && !occ.contains(p),
            ));
            assert(next.1 == Set::new(
                |p: HexPoint| !lay.2.contains(p) && reached_from(dim, lay.0, p) && occ.contains(p),
            ));
            assert forall|p: HexPoint| reached_from(dim, lay.0, p) implies on_board(dim, p) by {
                let (q, d) = choose|q: HexPoint, d: Dir| lay.0.contains(q) && #[trigger] wrap_step(q, d, dim).0 == p;
                assert(alive@.to_set().contains(q));
                let i = choose|i: int| 0 <= i < alive@.len() && alive@[i] == q;
                assert(on_board(dim, alive@[i]));
                lemma_wrap_step_on_board(q, d, dim);
            }
            assert forall|p: HexPoint| #[trigger] cand@.contains(p) <==> !lay.2.contains(p) && reached_from(dim, lay.0, p) by {
                if reached_from(dim, lay.0, p) {
                    assert(on_board(dim, p));
                    assert(lay.2.contains(p) <==> marked(dim, seen@, p));
                }
            }
            assert forall|p: HexPoint| #[trigger] free@.contains(p) <==> next.0.contains(p) by {
                assert(cand@.contains(p) <==> !lay.2.contains(p) && reached_from(dim, lay.0, p));
            }
            assert forall|p: HexPoint| #[trigger] taken@.contains(p) <==> next.1.contains(p) by {
                assert(cand@.contains(p) <==> !lay.2.contains(p) && reached_from(dim, lay.0, p));
            }
        }
        if free.len() == 0 {
            proof {
                assert forall|p: HexPoint| !(#[trigger] next.0.contains(p)) by {
                    if next.0.contains(p) {
                        assert(free@.contains(p));
                    }
                }
                let n = dist as nat;
                assert(layer(head, occ, dim, n + 1) == next);
                assert(!goes_on(head, occ, dim, n + 1));
                assert(search_length(head, occupied@, dim, n));
                assert(distances_listed(out@, head, occupied@, dim, n));
            }
            return out;
        }
        proof {
            assert(free@.contains(free@[0]));
            assert(next.0.contains(free@[0]));
            assert(goes_on(head, occ, dim, (dist + 1) as nat));
            assert(cand@.contains(free@[0]));
            assert forall|i: int| 0 <= i < cand@.len() implies unseen(dim, seen@, #[trigger] cand@[i]) by {
                assert(cand@.contains(cand@[i]));
            }
        }
        let ghost seen0 = seen@;
        mark_cells(&mut seen, &cand, dim);
        let ghost out0 = out@;
        push_layer(&mut out, &free, dist + 1);
        let ghost out_mid = out@;
        push_layer(&mut out, &taken, dist + 1);
        proof {
            assert(next.2 == lay.2.union(next.0).union(next.1));
            assert forall|p: HexPoint|
                #![trigger marked(dim, seen@, p)]
                #![trigger next.2.contains(p)]
                next.2.contains(p) <==> marked(dim, seen@, p) by {
                assert(marked(dim, seen@, p) <==> marked(dim, seen0, p) || cand@.contains(p));
                assert(lay.2.contains(p) <==> marked(dim, seen0, p));
                assert(cand@.contains(p) <==> next.0.contains(p) || next.1.contains(p)) by {
                    assert(cand@.contains(p) <==> !lay.2.contains(p) && reached_from(dim, lay.0, p));
                }
            }
            assert forall|i: int| 0 <= i < free@.len() implies #[trigger] out@[out0.len() + i] == (free@[i], (dist + 1) as usize) by {
                assert(out@[out0.len() + i] == out_mid[out0.len() + i]);
            }
            assert forall|i: int| 0 <= i < out0.len() implies #[trigger] out@[i] == out0[i] by {
                assert(out@[i] == out_mid[i]);
            }
            assert forall|i: int| 0 <= i < taken@.len() implies #[trigger] out@[out0.len() + free@.len() + i] == (taken@[i], (dist + 1) as usize) by {
                assert(out@[out_mid.len() + i] == (taken@[i], (dist + 1) as usize));
            }
            lemma_extend_listing(out0, out@, free@, taken@, head, occ, dim, dist as nat, (dist + 1) as usize);
            assert(free@.to_set() =~= next.0) by {
                assert forall|p: HexPoint| free@.to_set().contains(p) <==> next.0.contains(p) by {
                    assert(free@.contains(p) <==> next.0.contains(p));
                }
            }
            assert forall|i: int| 0 <= i < free@.len() implies on_board(dim, #[trigger] free@[i]) by {
                assert(free@.contains(free@[i]));
                assert(next.0.contains(free@[i]));
                assert(reached_from(dim, lay.0, free@[i]));
            }
        }
        dist = dist + 1;
        alive = free;
    }
}

/// A path of `k` cells from `head` whose last cell is one step from `p`.
proof fn walk_to(head: HexPoint, occupied: Seq<HexPoint>, dim: HexDim, k: nat, p: HexPoint) -> (before: Seq<HexPoint>)
    requires
        1 <= k,
        in_layer(head, occupied, dim, k, p),
    ensures
        before.len() == k,
        path_valid(before, head, occupied, dim),
        is_step(dim, before.last(), p),
    decreases k,
{
    let prev = layer(head, occupied, dim, (k - 1) as nat);
    assert(reached_from(dim, prev.0, p));
    let (q, d) = choose|q: HexPoint, d: Dir| prev.0.contains(q) && #[trigger] wrap_step(q, d, dim).0 == p;
    assert(is_step(dim, q, p));
    if k == 1 {
        let before = seq![head];
        assert(before.last() == q);
        before
    } else {
        assert(in_layer(head, occupied, dim, (k - 1) as nat, q));
        let b = walk_to(head, occupied, dim, (k - 1) as nat, q);
        let before = b.push(q);
        assert(!occupied.contains(q));
        assert forall|i: int| 1 <= i < before.len() implies is_step(dim, before[i - 1], #[trigger] before[i])
            && !occupied.contains(before[i]) by {
            if i < b.len() {
                assert(before[i] == b[i] && before[i - 1] == b[i - 1]);
            } else {
                assert(before[i - 1] == b.last());
            }
        }
        before
    }
}

/// A cell that the search reaches in step `k` is `k` steps from `head`: a
/// path leads there from `head`, a step at a time, wrapping around the
/// board, whose cells in between are all free.
pub proof fn lemma_distance_is_walk(head: HexPoint, occupied: Seq<HexPoint>, dim: HexDim, k: nat, p: HexPoint)
    requires
        1 <= k,
        in_layer(head, occupied, dim, k, p),
    ensures
        exists|before: Seq<HexPoint>|
            before.len() == k && #[trigger] path_valid(before, head, occupied, dim) && is_step(
                dim,
                before.last(),
                p,
            ),
{
    let before = walk_to(head, occupied, dim, k, p);
}

/// What the search has reached after `k` steps is what its first `k` steps
/// reached.
proof fn lemma_seen_is_layers(head: HexPoint, occupied: Seq<HexPoint>, dim: HexDim, k: nat, p: HexPoint)
    requires
        layer(head, occupied, dim, k).2.contains(p),
    ensures
        exists|j: nat| 1 <= j <= k && #[trigger] in_layer(head, occupied, dim, j, p),
    decreases k,
{
    if k > 0 {
        let prev = layer(head, occupied, dim, (k - 1) as nat);
        if prev.2.contains(p) {
            lemma_seen_is_layers(head, occupied, dim, (k - 1) as nat, p);
            let j = choose|j: nat| 1 <= j <= k - 1 && #[trigger] in_layer(head, occupied, dim, j, p);
            assert(in_layer(head, occupied, dim, j, p));
        } else {
            assert(in_layer(head, occupied, dim, k, p));
        }
    }
}

/// The search finds the shortest way: a cell other than `head` that a path
/// of `m` steps from `head` leads to, its cells in between all free, is
/// reached in one of the first `m` steps.
pub proof fn lemma_distance_is_shortest(
    head: HexPoint,
    occupied: Seq<HexPoint>,
    dim: HexDim,
    before: Seq<HexPoint>,
    p: HexPoint,
)
    requires
        path_valid(before, head, occupied, dim),
        is_step(dim, before.last(), p),
        p != head,
    ensures
        exists|k: nat| 1 <= k <= before.len() && #[trigger] in_layer(head, occupied, dim, k, p),
    decreases before.len(),
{
    let m = before.len() as int;
    let q = before.last();
    let d = choose|d: Dir| #[trigger] wrap_step(q, d, dim).0 == p;
    if q == head {
        let start = layer(head, occupied, dim, 0);
        assert(start.0.contains(head));
        assert(reached_from(dim, start.0, p));
        assert(in_layer(head, occupied, dim, 1, p));
    } else {
        assert(m >= 2);
        let rest = before.drop_last();
        assert(before[m - 1] == q);
        assert(is_step(dim, before[m - 2], before[m - 1]) && !occupied.contains(before[m - 1]));
        assert(path_valid(rest, head, occupied, dim)) by {
            assert forall|i: int| 1 <= i < rest.len() implies is_step(dim, rest[i - 1], #[trigger] rest[i])
                && !occupied.contains(rest[i]) by {
                assert(rest[i] == before[i] && rest[i - 1] == before[i - 1]);
            }
        }
        assert(rest.last() == before[m - 2]);
        lemma_distance_is_shortest(head, occupied, dim, rest, q);
        let k1 = choose|k1: nat| 1 <= k1 <= rest.len() && #[trigger] in_layer(head, occupied, dim, k1, q);
        let lay = layer(head, occupied, dim, k1);
        assert(lay.0.contains(q));
        assert(reached_from(dim, lay.0, p));
        if lay.2.contains(p) {
            lemma_seen_is_layers(head, occupied, dim, k1, p);
            let j = choose|j: nat| 1 <= j <= k1 && #[trigger] in_layer(head, occupied, dim, j, p);
            assert(in_layer(head, occupied, dim, j, p));
        } else {
            assert(in_layer(head, occupied, dim, k1 + 1, p));
        }
    }
}

/// The distances from the player's head, kept from one game frame to the
/// next: the current ones, and the ones before them to fade from.
pub struct DistanceGrid {
    last: Option<Vec<(HexPoint, usize)>>,
    current: Option<Vec<(HexPoint, usize)>>,
    /// The game frame the current distances were found in
    last_update: usize,
}

pub struct DistanceGridView {
    pub last: Option<Seq<(HexPoint, usize)>>,
    pub current: Option<Seq<(HexPoint, usize)>>,
    pub last_update: usize,
}

pub open spec fn opt_view(v: Option<Vec<(HexPoint, usize)>>) -> Option<Seq<(HexPoint, usize)>> {
    match v {
        Some(v) => Some(v@),
        None => None,
    }
}

impl View for DistanceGrid {
    type V = DistanceGridView;

    closed spec fn view(&self) -> DistanceGridView {
        DistanceGridView {
            last: opt_view(self.last),
            current: opt_view(self.current),
            last_update: self.last_update,
        }
    }
}

impl DistanceGrid {
    pub fn new() -> (grid: Self)
        ensures
            grid@.last is None,
            grid@.current is None,
            grid@.last_update == 0,
    {
        DistanceGrid { last: None, current: None, last_update: 0 }
    }

    /// Forget the distances (the board changed).
    pub fn invalidate(&mut self)
        ensures
            final(self)@.last is None,
            final(self)@.current is None,
            final(self)@.last_update == old(self)@.last_update,
    {
        self.last = None;
        self.current = None;
    }

    /// Find the distances again if none are known or game frame `frame`
    /// is later than the one they were found in; the ones they replace are
    /// kept to fade from.
    pub fn update(&mut self, frame: usize, head: HexPoint, occupied: &Vec<HexPoint>, board_dim: HexDim)
        requires
            board_fits(board_dim),
            countable(board_dim),
            on_board(board_dim, head),
        ensures
            old(self)@.current is None || frame > old(self)@.last_update ==> {
                &&& final(self)@.last_update == frame
                &&& final(self)@.last == old(self)@.current
                &&& final(self)@.current is Some
                &&& exists|n: nat|
                    #[trigger] search_length(head, occupied@, board_dim, n) && distances_listed(
                        final(self)@.current->0,
                        head,
                        occupied@,
                        board_dim,
                        n,
                    )
            },
            !(old(self)@.current is None || frame > old(self)@.last_update) ==> final(self)@ == old(self)@,
    {
        if self.current.is_none() || frame > self.last_update {
            self.last_update = frame;
            let found = find_distances(head, occupied, board_dim);
            let previous = self.current.take();
            self.last = previous;
            self.current = Some(found);
        }
    }

    pub fn current(&self) -> (current: &Option<Vec<(HexPoint, usize)>>)
        ensures
            opt_view(*current) == self@.current,
    {
        &self.current
    }

    pub fn last(&self) -> (last: &Option<Vec<(HexPoint, usize)>>)
        ensures
            opt_view(*last) == self@.last,
    {
        &self.last
    }
}

} // verus!
