//! The autopilot's path finding: the cheapest way found to an apple, where
//! turning and wrapping around the board cost extra.

use vstd::prelude::*;

use crate::apple_spawn::{
    cell_at, cell_count, cell_index, countable, lemma_cell_at, lemma_cell_index,
};
use crate::hex::{
    board_fits, dir_at, dir_index, lemma_wrap_step_on_board, on_board, wrap_step, Dir, HexDim,
    HexPoint,
};

verus! {

pub const TURN_COST: usize = 5;

pub const TELEPORT_COST: usize = 15;

/// The longest path searched: its cost fits in `usize` with room to spare.
pub const MAX_LEN: usize = usize::MAX / 32;

/// A step of a path being searched: where it is, how it got there and what
/// it cost so far. `parent` is the index of the step before it among the
/// steps searched.
#[derive(Copy, Clone, PartialEq, Eq, Debug, Structural)]
pub struct SearchPoint {
    pub parent: Option<usize>,
    pub pos: HexPoint,
    pub dir: Dir,
    pub len: usize,
    pub num_turns: usize,
    pub num_teleports: usize,
}

pub open spec fn sp_cost(sp: SearchPoint) -> int {
    sp.len + sp.num_turns * TURN_COST + sp.num_teleports * TELEPORT_COST
}

impl SearchPoint {
    /// A path's cost: its length, plus a penalty for every turn and every
    /// wrap around the board.
    pub fn cost(&self) -> (c: usize)
        requires
            sp_cost(*self) <= usize::MAX,
        ensures
            c == sp_cost(*self),
    {
        self.len + self.num_turns * TURN_COST + self.num_teleports * TELEPORT_COST
    }
}

/// The path finders there are.
#[derive(Copy, Clone, PartialEq, Eq, Debug, Structural)]
pub enum PathFinderTemplate {
    Algorithm1,
}

/// Search generation by generation, keeping the cheapest path found to each
/// cell, until no live path can beat the cheapest one found to an apple.
#[derive(Copy, Clone, PartialEq, Eq, Debug, Structural)]
pub struct Algorithm1;

impl PathFinderTemplate {
    pub fn into_pathfinder(self, start_dir: Dir) -> (finder: Algorithm1) {
        match self {
            PathFinderTemplate::Algorithm1 => Algorithm1,
        }
    }
}

/// `b` is one step from `a`, wrapping around the board.
pub open spec fn is_step(dim: HexDim, a: HexPoint, b: HexPoint) -> bool {
    exists|d: Dir| #[trigger] wrap_step(a, d, dim).0 == b
}

/// A path from `head`: each cell a step from the one before, none of them
/// (after the head) off limits.
pub open spec fn path_valid(path: Seq<HexPoint>, head: HexPoint, off_limits: Seq<HexPoint>, dim: HexDim) -> bool {
    &&& path.len() >= 1
    &&& path[0] == head
    &&& forall|i: int|
        1 <= i < path.len() ==> is_step(dim, path[i - 1], #[trigger] path[i])
            && !off_limits.contains(path[i])
}

/// The steps searched so far each continue an earlier one (or are the
/// head), by a step onto a cell that is not off limits.
pub open spec fn point_wf(
    arena: Seq<SearchPoint>,
    i: int,
    head: HexPoint,
    off_limits: Seq<HexPoint>,
    dim: HexDim,
) -> bool {
    let sp = arena[i];
    &&& on_board(dim, sp.pos)
    &&& sp.num_turns <= sp.len
    &&& sp.num_teleports <= sp.len
    &&& 1 <= sp.len <= MAX_LEN
    &&& match sp.parent {
        None => sp.pos == head && sp.len == 1,
        Some(j) => {
            &&& 0 <= j < i
            &&& is_step(dim, arena[j as int].pos, sp.pos)
            &&& !off_limits.contains(sp.pos)
            &&& sp.len == arena[j as int].len + 1
            &&& sp.num_turns >= arena[j as int].num_turns
            &&& sp.num_teleports >= arena[j as int].num_teleports
        },
    }
}

pub open spec fn arena_wf(arena: Seq<SearchPoint>, head: HexPoint, off_limits: Seq<HexPoint>, dim: HexDim) -> bool {
    forall|i: int| 0 <= i < arena.len() ==> #[trigger] point_wf(arena, i, head, off_limits, dim)
}

/// The path that the step `i` ends, from the head.
pub open spec fn path_to(arena: Seq<SearchPoint>, i: int) -> Seq<HexPoint>
    decreases i,
{
    if 0 <= i < arena.len() {
        match arena[i].parent {
            None => seq![arena[i].pos],
            Some(j) => if 0 <= j < i {
                path_to(arena, j as int).push(arena[i].pos)
            } else {
                seq![]
            },
        }
    } else {
        seq![]
    }
}

proof fn lemma_path_to(
    arena: Seq<SearchPoint>,
    i: int,
    head: HexPoint,
    off_limits: Seq<HexPoint>,
    dim: HexDim,
)
    requires
        arena_wf(arena, head, off_limits, dim),
        0 <= i < arena.len(),
    ensures
        path_valid(path_to(arena, i), head, off_limits, dim),
        path_to(arena, i).last() == arena[i].pos,
        path_to(arena, i).len() == arena[i].len,
        forall|k: int| 0 <= k < path_to(arena, i).len() ==> on_board(dim, #[trigger] path_to(arena, i)[k]),
    decreases i,
{
    assert(point_wf(arena, i, head, off_limits, dim));
    match arena[i].parent {
        None => {},
        Some(j) => {
            let j = j as int;
            lemma_path_to(arena, j, head, off_limits, dim);
            let prev = path_to(arena, j);
            let path = path_to(arena, i);
            assert(path == prev.push(arena[i].pos));
            assert forall|k: int| 1 <= k < path.len() implies is_step(
                dim,
                path[k - 1],
                #[trigger] path[k],
            ) && !off_limits.contains(path[k]) by {
                if k < prev.len() {
                    assert(path[k] == prev[k] && path[k - 1] == prev[k - 1]);
                } else {
                    assert(path[k - 1] == prev.last());
                }
            }
            assert forall|k: int| 0 <= k < path.len() implies on_board(dim, #[trigger] path[k]) by {
                if k < prev.len() {
                    assert(path[k] == prev[k]);
                }
            }
        },
    }
}

/// Steps searched later leave the paths of earlier ones as they were.
proof fn lemma_path_to_push(arena: Seq<SearchPoint>, x: SearchPoint, i: int)
    requires
        0 <= i < arena.len(),
    ensures
        path_to(arena.push(x), i) == path_to(arena, i),
    decreases i,
{
    assert(arena.push(x)[i] == arena[i]);
    match arena[i].parent {
        Some(j) => {
            if 0 <= j < i {
                lemma_path_to_push(arena, x, j as int);
            }
        },
        None => {},
    }
}

/// A path costs more than the path it continues.
proof fn lemma_cost_grows(arena: Seq<SearchPoint>, i: int, head: HexPoint, off_limits: Seq<HexPoint>, dim: HexDim)
    requires
        arena_wf(arena, head, off_limits, dim),
        0 <= i < arena.len(),
        arena[i].parent is Some,
    ensures
        sp_cost(arena[i]) >= sp_cost(arena[arena[i].parent->0 as int]) + 1,
{
    assert(point_wf(arena, i, head, off_limits, dim));
}

/// Cells that are different, and on the board, are at most as many as the
/// board has.
proof fn lemma_distinct_cells_bound(dim: HexDim, s: Seq<HexPoint>)
    requires
        countable(dim),
        s.no_duplicates(),
        forall|k: int| 0 <= k < s.len() ==> on_board(dim, #[trigger] s[k]),
    ensures
        s.len() <= cell_count(dim),
{
    let idx = s.map_values(|p: HexPoint| cell_index(dim, p));
    assert forall|a: int, b: int| 0 <= a < idx.len() && 0 <= b < idx.len() && a != b implies idx[a] != idx[b] by {
        lemma_cell_index(dim, s[a], s[b]);
    }
    assert(idx.no_duplicates());
    idx.unique_seq_to_set();
    vstd::set_lib::lemma_int_range(0, cell_count(dim));
    assert forall|x: int| idx.to_set().contains(x) implies vstd::set_lib::set_int_range(0, cell_count(dim)).contains(x) by {
        let k = choose|k: int| 0 <= k < idx.len() && idx[k] == x;
        lemma_cell_index(dim, s[k], s[k]);
    }
    vstd::set_lib::lemma_len_subset(idx.to_set(), vstd::set_lib::set_int_range(0, cell_count(dim)));
}

/// The path that the step `i` ends, from the head.
fn path_of(arena: &Vec<SearchPoint>, i: usize, Ghost(head): Ghost<HexPoint>, Ghost(off_limits): Ghost<Seq<HexPoint>>, Ghost(dim): Ghost<HexDim>) -> (path: Vec<HexPoint>)
    requires
        arena_wf(arena@, head, off_limits, dim),
        i < arena@.len(),
    ensures
        path@ == path_to(arena@, i as int),
{
    let mut out: Vec<HexPoint> = Vec::new();
    let mut cur = i;
    assert(path_to(arena@, i as int) =~= path_to(arena@, cur as int) + out@);
    loop
        invariant
            arena_wf(arena@, head, off_limits, dim),
            cur < arena@.len(),
            path_to(arena@, i as int) == path_to(arena@, cur as int) + out@,
        decreases cur,
    {
        assert(point_wf(arena@, cur as int, head, off_limits, dim));
        let sp = arena[cur];
        let ghost before = out@;
        out.insert(0, sp.pos);
        match sp.parent {
            None => {
                assert(out@ =~= path_to(arena@, cur as int) + before);
                return out;
            },
            Some(j) => {
                assert(path_to(arena@, cur as int) == path_to(arena@, j as int).push(sp.pos));
                assert(path_to(arena@, j as int) + out@ =~= path_to(arena@, cur as int) + before);
                cur = j;
            },
        }
    }
}


/// The cells no path has reached yet.
pub open spec fn vacancies(table: Seq<Option<usize>>) -> nat
    decreases table.len(),
{
    if table.len() == 0 {
        0
    } else {
        vacancies(table.drop_last()) + if table.last() is None {
            1nat
        } else {
            0nat
        }
    }
}

/// The cost of a stored step, 0 for none.
pub open spec fn stored_cost(arena: Seq<SearchPoint>, entry: Option<usize>) -> nat {
    match entry {
        Some(i) => sp_cost(arena[i as int]) as nat,
        None => 0,
    }
}

/// The costs of the cheapest paths found to each cell, together.
pub open spec fn cost_sum(table: Seq<Option<usize>>, arena: Seq<SearchPoint>) -> nat
    decreases table.len(),
{
    if table.len() == 0 {
        0
    } else {
        cost_sum(table.drop_last(), arena) + stored_cost(arena, table.last())
    }
}

proof fn lemma_update_table(
    table: Seq<Option<usize>>,
    arena: Seq<SearchPoint>,
    c: int,
    x: Option<usize>,
)
    requires
        0 <= c < table.len(),
    ensures
        vacancies(table.update(c, x)) + (if table[c] is None {
            1int
        } else {
            0
        }) == vacancies(table) + (if x is None {
            1int
        } else {
            0
        }),
        cost_sum(table.update(c, x), arena) + stored_cost(arena, table[c]) == cost_sum(table, arena)
            + stored_cost(arena, x),
    decreases table.len(),
{
    let t2 = table.update(c, x);
    if c == table.len() - 1 {
        assert(t2.drop_last() =~= table.drop_last());
    } else {
        assert(t2.drop_last() =~= table.drop_last().update(c, x));
        lemma_update_table(table.drop_last(), arena, c, x);
    }
}

proof fn lemma_push_arena(table: Seq<Option<usize>>, arena: Seq<SearchPoint>, sp: SearchPoint)
    requires
        forall|c: int|
            0 <= c < table.len() && (#[trigger] table[c]) is Some ==> table[c]->0 < arena.len(),
    ensures
        cost_sum(table, arena.push(sp)) == cost_sum(table, arena),
    decreases table.len(),
{
    if table.len() > 0 {
        let init = table.drop_last();
        assert forall|c: int| 0 <= c < init.len() && (#[trigger] init[c]) is Some implies init[c]->0
            < arena.len() by {
            assert(init[c] == table[c]);
        }
        lemma_push_arena(init, arena, sp);
        assert(table.last() == table[table.len() - 1]);
        match table.last() {
            Some(i) => {
                assert(arena.push(sp)[i as int] == arena[i as int]);
            },
            None => {},
        }
    }
}

/// What the table of cheapest paths holds: for each cell of the board, the
/// step searched that is the cheapest path found to it, if any.
pub open spec fn table_wf(table: Seq<Option<usize>>, arena: Seq<SearchPoint>, dim: HexDim) -> bool {
    &&& table.len() == cell_count(dim)
    &&& forall|c: int|
        0 <= c < table.len() && (#[trigger] table[c]) is Some ==> table[c]->0 < arena.len()
            && arena[table[c]->0 as int].pos == cell_at(dim, c)
}

/// The best apple found, if any, has a path stored to it, and of all the
/// paths stored to apples it costs least.
pub open spec fn best_wf(
    best: Option<(HexPoint, usize)>,
    table: Seq<Option<usize>>,
    arena: Seq<SearchPoint>,
    apples: Seq<HexPoint>,
    dim: HexDim,
) -> bool {
    match best {
        Some((p, bc)) => {
            &&& on_board(dim, p)
            &&& table[cell_index(dim, p)] is Some
            &&& apples.contains(p)
            &&& bc >= 1
            &&& bc == sp_cost(arena[stored_at(table, dim, p)])
            &&& cheapest_apple(table, arena, apples, dim, bc as int)
        },
        None => true,
    }
}

/// Where the search starts: at `head`, heading `dir`, with nothing spent.
pub open spec fn start_point(head: HexPoint, dir: Dir) -> SearchPoint {
    SearchPoint { parent: None, pos: head, dir, len: 1, num_turns: 0, num_teleports: 0 }
}

/// `path` is the cheapest of the paths to apples that a search from `head`,
/// heading `dir`, keeps, once no path still searched can beat it: there are
/// steps searched (`arena`, starting from the head) and a table of the
/// cheapest path found to each cell (`table`), all as the search keeps
/// them, where `path` is the path stored for its last cell and no path
/// stored to an apple costs less (by length, turns and wraps, see
/// [`sp_cost`]); and the steps still to go on from (`gen`, the last ones
/// stored, every other stored step having been gone on from) all cost at
/// least the path's cost less one, so none of them can lead to a cheaper
/// apple.
pub open spec fn cheapest_found(
    path: Seq<HexPoint>,
    head: HexPoint,
    dir: Dir,
    off_limits: Seq<HexPoint>,
    apples: Seq<HexPoint>,
    dim: HexDim,
) -> bool {
    exists|arena: Seq<SearchPoint>, table: Seq<Option<usize>>, i: int, gen: Seq<usize>|
        #![trigger path_to(arena, i), table[cell_index(dim, path.last())], closed_but(table, arena, off_limits, dim, head, gen)]
        arena.len() >= 1 && arena[0] == start_point(head, dir) && 0 <= i < arena.len()
            && table[cell_index(dim, path.last())] == Some(i as usize) && path == path_to(arena, i)
            && search_ok(arena, table, head, off_limits, apples, dim, Some((path.last(), sp_cost(arena[i]) as usize)))
            && closed_but(table, arena, off_limits, dim, head, gen)
            && search_stopped(arena, gen, sp_cost(arena[i]))
}

/// The search stops: every step still to go on from costs at least `bc - 1`,
/// so no path from it reaches an apple for less than `bc`.
pub open spec fn search_stopped(arena: Seq<SearchPoint>, gen: Seq<usize>, bc: int) -> bool {
    forall|k: int|
        0 <= k < gen.len() ==> (#[trigger] gen[k]) < arena.len() && sp_cost(arena[gen[k] as int]) >= bc - 1
}

/// No path stored to an apple costs less than `bc`.
pub open spec fn cheapest_apple(
    table: Seq<Option<usize>>,
    arena: Seq<SearchPoint>,
    apples: Seq<HexPoint>,
    dim: HexDim,
    bc: int,
) -> bool {
    forall|c: int|
        0 <= c < table.len() && (#[trigger] table[c]) is Some && apples.contains(cell_at(dim, c))
            ==> sp_cost(arena[table[c]->0 as int]) >= bc
}

/// Every path stored is at least a step long.
pub open spec fn stored_steps(table: Seq<Option<usize>>, arena: Seq<SearchPoint>) -> bool {
    forall|c: int| 0 <= c < table.len() && (#[trigger] table[c]) is Some ==> arena[table[c]->0 as int].len >= 2
}

pub(crate) fn contains_cell(cells: &Vec<HexPoint>, p: HexPoint) -> (r: bool)
    ensures
        r == cells@.contains(p),
{
    let mut i: usize = 0;
    while i < cells.len()
        invariant
            0 <= i <= cells@.len(),
            forall|k: int| 0 <= k < i ==> cells@[k] != p,
        decreases cells@.len() - i,
    {
        if cells[i] == p {
            return true;
        }
        i = i + 1;
    }
    false
}

pub(crate) fn index_of_cell(dim: HexDim, p: HexPoint) -> (c: usize)
    requires
        countable(dim),
        on_board(dim, p),
    ensures
        c == cell_index(dim, p),
        c < cell_count(dim),
        cell_at(dim, c as int) == p,
{
    proof {
        lemma_cell_index(dim, p, p);
        assert(p.v * dim.h <= cell_index(dim, p));
    }
    (p.v * dim.h + p.h) as usize
}


/// The cost of every step searched fits in `usize`.
proof fn lemma_cost_fits(sp: SearchPoint)
    requires
        sp.num_turns <= sp.len,
        sp.num_teleports <= sp.len,
        sp.len <= MAX_LEN,
    ensures
        sp_cost(sp) <= usize::MAX,
{
    assert(21 * (usize::MAX / 32) <= usize::MAX);
}

/// Some path is stored to `q`.
pub open spec fn stored(table: Seq<Option<usize>>, dim: HexDim, q: HexPoint) -> bool {
    table[cell_index(dim, q)] is Some
}

/// The step searched that is stored for `q`.
pub open spec fn stored_at(table: Seq<Option<usize>>, dim: HexDim, q: HexPoint) -> int {
    table[cell_index(dim, q)]->0 as int
}

/// Along the path to step `i`, every cell after the head has a path stored
/// to it no dearer than `i`, and no cell comes twice.
pub open spec fn chain_ok(table: Seq<Option<usize>>, arena: Seq<SearchPoint>, dim: HexDim, i: int) -> bool {
    let path = path_to(arena, i);
    &&& path.skip(1).no_duplicates()
    &&& forall|k: int|
        1 <= k < path.len() ==> stored(table, dim, #[trigger] path[k]) && sp_cost(
            arena[stored_at(table, dim, path[k])],
        ) <= sp_cost(arena[i])
}

/// Every step from `p` leads off limits or to a cell with a path stored.
pub open spec fn nbrs_stored(table: Seq<Option<usize>>, off_limits: Seq<HexPoint>, dim: HexDim, p: HexPoint) -> bool {
    forall|d: Dir|
        #![trigger wrap_step(p, d, dim)]
        off_limits.contains(wrap_step(p, d, dim).0) || stored(table, dim, wrap_step(p, d, dim).0)
}

/// What holds throughout the search.
pub open spec fn search_ok(
    arena: Seq<SearchPoint>,
    table: Seq<Option<usize>>,
    head: HexPoint,
    off_limits: Seq<HexPoint>,
    apples: Seq<HexPoint>,
    dim: HexDim,
    best: Option<(HexPoint, usize)>,
) -> bool {
    &&& countable(dim)
    &&& board_fits(dim)
    &&& on_board(dim, head)
    &&& cell_count(dim) + 2 <= MAX_LEN
    &&& arena.len() >= 1
    &&& arena_wf(arena, head, off_limits, dim)
    &&& table_wf(table, arena, dim)
    &&& best_wf(best, table, arena, apples, dim)
    &&& stored_steps(table, arena)
    &&& (best is None ==> forall|c: int|
        0 <= c < table.len() && (#[trigger] table[c]) is Some ==> !apples.contains(cell_at(dim, c)))
    &&& forall|i: int| 0 <= i < arena.len() ==> #[trigger] chain_ok(table, arena, dim, i)
}

/// Storing a cheaper path to a cell keeps the paths searched in order.
proof fn lemma_store(
    arena: Seq<SearchPoint>,
    table: Seq<Option<usize>>,
    head: HexPoint,
    off_limits: Seq<HexPoint>,
    dim: HexDim,
    idx: usize,
    new_sp: SearchPoint,
    n: usize,
)
    requires
        countable(dim),
        arena_wf(arena, head, off_limits, dim),
        arena_wf(arena.push(new_sp), head, off_limits, dim),
        table_wf(table, arena, dim),
        forall|i: int| 0 <= i < arena.len() ==> #[trigger] chain_ok(table, arena, dim, i),
        idx < arena.len(),
        n == arena.len(),
        new_sp.parent == Some(idx),
        on_board(dim, new_sp.pos),
        ({
            let c = cell_index(dim, new_sp.pos);
            table[c] is None || sp_cost(new_sp) < sp_cost(arena[table[c]->0 as int])
        }),
    ensures
        ({
            let arena2 = arena.push(new_sp);
            let table2 = table.update(cell_index(dim, new_sp.pos), Some(n));
            &&& table_wf(table2, arena2, dim)
            &&& forall|i: int| 0 <= i < arena2.len() ==> #[trigger] chain_ok(table2, arena2, dim, i)
            &&& !path_to(arena, idx as int).skip(1).contains(new_sp.pos)
        }),
{
    let c = cell_index(dim, new_sp.pos);
    let arena2 = arena.push(new_sp);
    let table2 = table.update(c, Some(n));
    lemma_cell_index(dim, new_sp.pos, new_sp.pos);
    lemma_cost_grows(arena2, n as int, head, off_limits, dim);
    assert(arena2[idx as int] == arena[idx as int]);
    assert(arena2[n as int] == new_sp);
    // the table still says where each cell's path is
    assert forall|cc: int| 0 <= cc < table2.len() && (#[trigger] table2[cc]) is Some implies table2[cc]->0
        < arena2.len() && arena2[table2[cc]->0 as int].pos == cell_at(dim, cc) by {
        if cc != c {
            assert(table2[cc] == table[cc]);
            assert(arena2[table[cc]->0 as int] == arena[table[cc]->0 as int]);
        } else {
            lemma_cell_index(dim, new_sp.pos, new_sp.pos);
            assert(table2[c] == Some(n));
            assert(arena2[n as int].pos == new_sp.pos);
        }
    }
    // the paths searched before
    assert forall|i: int| 0 <= i < n as int implies #[trigger] chain_ok(table2, arena2, dim, i) by {
        lemma_path_to_push(arena, new_sp, i);
        lemma_path_to(arena, i, head, off_limits, dim);
        assert(chain_ok(table, arena, dim, i));
        let path = path_to(arena, i);
        assert(arena2[i] == arena[i]);
        assert forall|k: int| 1 <= k < path.len() implies stored(table2, dim, #[trigger] path[k])
            && sp_cost(arena2[stored_at(table2, dim, path[k])]) <= sp_cost(arena2[i]) by {
            let q = path[k];
            assert(stored(table, dim, q));
            lemma_cell_index(dim, q, new_sp.pos);
            if cell_index(dim, q) == c {
                assert(table[c] is Some);
            } else {
                assert(table2[cell_index(dim, q)] == table[cell_index(dim, q)]);
                assert(arena2[stored_at(table, dim, q)] == arena[stored_at(table, dim, q)]);
            }
        }
    }
    // the new path
    lemma_path_to(arena, idx as int, head, off_limits, dim);
    assert(chain_ok(table, arena, dim, idx as int));
    let prev = path_to(arena, idx as int);
    lemma_path_to_push(arena, new_sp, idx as int);
    let path = path_to(arena2, n as int);
    assert(path == prev.push(new_sp.pos));
    assert forall|k: int| 1 <= k < prev.len() implies prev[k] != new_sp.pos by {
        let q = prev[k];
        assert(stored(table, dim, q));
        if q == new_sp.pos {
            assert(sp_cost(arena[stored_at(table, dim, q)]) <= sp_cost(arena[idx as int]));
        }
    }
    assert(!prev.skip(1).contains(new_sp.pos)) by {
        if prev.skip(1).contains(new_sp.pos) {
            let k = choose|k: int| 0 <= k < prev.skip(1).len() && prev.skip(1)[k] == new_sp.pos;
            assert(prev[k + 1] == new_sp.pos);
        }
    }
    assert(path.skip(1) =~= prev.skip(1).push(new_sp.pos));
    assert(path.skip(1).no_duplicates()) by {
        let t = path.skip(1);
        assert forall|a: int, b: int| 0 <= a < t.len() && 0 <= b < t.len() && a != b implies t[a] != t[b] by {
            if a < prev.skip(1).len() && b < prev.skip(1).len() {
            } else if a < prev.skip(1).len() {
                assert(t[b] == new_sp.pos);
                assert(prev[a + 1] != new_sp.pos);
            } else {
                assert(t[a] == new_sp.pos);
                assert(prev[b + 1] != new_sp.pos);
            }
        }
    }
    assert forall|k: int| 1 <= k < path.len() implies stored(table2, dim, #[trigger] path[k])
        && sp_cost(arena2[stored_at(table2, dim, path[k])]) <= sp_cost(arena2[n as int]) by {
        if k < prev.len() {
            let q = prev[k];
            assert(path[k] == q);
            assert(q != new_sp.pos);
            lemma_cell_index(dim, q, new_sp.pos);
            assert(table2[cell_index(dim, q)] == table[cell_index(dim, q)]);
            assert(arena2[stored_at(table, dim, q)] == arena[stored_at(table, dim, q)]);
        } else {
            assert(path[k] == new_sp.pos);
        }
    }
    assert(chain_ok(table2, arena2, dim, n as int));
}

/// From a cell whose neighbors all have paths stored, so does every cell a
/// path leads to.
proof fn lemma_path_stored(
    path: Seq<HexPoint>,
    head: HexPoint,
    off_limits: Seq<HexPoint>,
    dim: HexDim,
    table: Seq<Option<usize>>,
    k: int,
)
    requires
        countable(dim),
        board_fits(dim),
        on_board(dim, head),
        table.len() == cell_count(dim),
        path_valid(path, head, off_limits, dim),
        1 <= k < path.len(),
        nbrs_stored(table, off_limits, dim, head),
        forall|c: int|
            0 <= c < table.len() && (#[trigger] table[c]) is Some ==> nbrs_stored(
                table,
                off_limits,
                dim,
                cell_at(dim, c),
            ),
    ensures
        on_board(dim, path[k]),
        stored(table, dim, path[k]),
    decreases k,
{
    let prev = path[k - 1];
    if k > 1 {
        lemma_path_stored(path, head, off_limits, dim, table, k - 1);
        lemma_cell_index(dim, prev, prev);
        assert(nbrs_stored(table, off_limits, dim, cell_at(dim, cell_index(dim, prev))));
    }
    assert(is_step(dim, prev, path[k]));
    let d = choose|d: Dir| #[trigger] wrap_step(prev, d, dim).0 == path[k];
    lemma_wrap_step_on_board(prev, d, dim);
    assert(!off_limits.contains(path[k]));
}

/// The cells one step from `p`, one per direction before the `k`-th, that
/// are off limits or have a path stored.
pub open spec fn dirs_done(
    table: Seq<Option<usize>>,
    off_limits: Seq<HexPoint>,
    dim: HexDim,
    p: HexPoint,
    k: int,
) -> bool {
    forall|d: Dir|
        #![trigger wrap_step(p, d, dim)]
        dir_index(d) < k ==> off_limits.contains(wrap_step(p, d, dim).0) || stored(
            table,
            dim,
            wrap_step(p, d, dim).0,
        )
}

/// Every cell with a path stored either waits to be searched on from, or
/// has every cell next to it stored or off limits; so has the head.
pub open spec fn closed_but(
    table: Seq<Option<usize>>,
    arena: Seq<SearchPoint>,
    off_limits: Seq<HexPoint>,
    dim: HexDim,
    head: HexPoint,
    pending: Seq<usize>,
) -> bool {
    &&& forall|c: int|
        0 <= c < table.len() && (#[trigger] table[c]) is Some ==> pending.contains(table[c]->0)
            || nbrs_stored(table, off_limits, dim, cell_at(dim, c))
    &&& pending.contains(0) || nbrs_stored(table, off_limits, dim, head)
}

/// Paths stored stay stored.
proof fn lemma_stored_grows(
    t0: Seq<Option<usize>>,
    t1: Seq<Option<usize>>,
    off_limits: Seq<HexPoint>,
    dim: HexDim,
    p: HexPoint,
)
    requires
        countable(dim),
        board_fits(dim),
        on_board(dim, p),
        t0.len() == cell_count(dim),
        t1.len() == cell_count(dim),
        forall|i: int| 0 <= i < t0.len() && (#[trigger] t0[i]) is Some ==> t1[i] is Some,
    ensures
        stored(t0, dim, p) ==> stored(t1, dim, p),
        nbrs_stored(t0, off_limits, dim, p) ==> nbrs_stored(t1, off_limits, dim, p),
        forall|k: int| dirs_done(t0, off_limits, dim, p, k) ==> #[trigger] dirs_done(t1, off_limits, dim, p, k),
{
    lemma_cell_index(dim, p, p);
    assert forall|d: Dir| stored(t0, dim, #[trigger] wrap_step(p, d, dim).0) implies stored(
        t1,
        dim,
        wrap_step(p, d, dim).0,
    ) by {
        lemma_wrap_step_on_board(p, d, dim);
        let q = wrap_step(p, d, dim).0;
        lemma_cell_index(dim, q, q);
        assert(t0[cell_index(dim, q)] is Some);
    }
}

/// Once every step from a cell has been tried, all cells next to it are off
/// limits or stored.
proof fn lemma_dirs_done(table: Seq<Option<usize>>, off_limits: Seq<HexPoint>, dim: HexDim, p: HexPoint)
    requires
        dirs_done(table, off_limits, dim, p, 6),
    ensures
        nbrs_stored(table, off_limits, dim, p),
{
    assert forall|d: Dir| #![trigger wrap_step(p, d, dim)] off_limits.contains(wrap_step(p, d, dim).0) || stored(
        table,
        dim,
        wrap_step(p, d, dim).0,
    ) by {
        assert(dir_index(d) < 6);
    }
}

/// Having searched on from step `idx`, it no longer waits.
proof fn lemma_closed_advance(
    table: Seq<Option<usize>>,
    arena: Seq<SearchPoint>,
    head: HexPoint,
    off_limits: Seq<HexPoint>,
    dim: HexDim,
    idx: usize,
    rest: Seq<usize>,
    next: Seq<usize>,
)
    requires
        arena_wf(arena, head, off_limits, dim),
        table_wf(table, arena, dim),
        idx < arena.len(),
        closed_but(table, arena, off_limits, dim, head, seq![idx] + rest + next),
        dirs_done(table, off_limits, dim, arena[idx as int].pos, 6),
    ensures
        closed_but(table, arena, off_limits, dim, head, rest + next),
{
    lemma_dirs_done(table, off_limits, dim, arena[idx as int].pos);
    let before = seq![idx] + rest + next;
    let after = rest + next;
    assert forall|x: usize| before.contains(x) && x != idx implies after.contains(x) by {
        let k = choose|k: int| 0 <= k < before.len() && before[k] == x;
        assert(k >= 1);
        assert(after[k - 1] == x);
    }
    assert forall|c: int| 0 <= c < table.len() && (#[trigger] table[c]) is Some implies after.contains(table[c]->0)
        || nbrs_stored(table, off_limits, dim, cell_at(dim, c)) by {
        if table[c]->0 == idx {
            assert(arena[idx as int].pos == cell_at(dim, c));
        }
    }
    if before.contains(0) && !after.contains(0) {
        assert(idx == 0);
        assert(point_wf(arena, 0, head, off_limits, dim));
    }
}

/// Storing more paths keeps what was closed closed.
proof fn lemma_closed_grows(
    t0: Seq<Option<usize>>,
    t1: Seq<Option<usize>>,
    arena0: Seq<SearchPoint>,
    arena1: Seq<SearchPoint>,
    off_limits: Seq<HexPoint>,
    dim: HexDim,
    head: HexPoint,
    p0: Seq<usize>,
    p1: Seq<usize>,
)
    requires
        countable(dim),
        board_fits(dim),
        on_board(dim, head),
        t0.len() == cell_count(dim),
        t1.len() == cell_count(dim),
        forall|i: int| 0 <= i < t0.len() && (#[trigger] t0[i]) is Some ==> t1[i] is Some,
        forall|i: int|
            0 <= i < t1.len() && (#[trigger] t1[i]) is Some ==> t1[i] == t0[i] || p1.contains(
                t1[i]->0,
            ),
        forall|x: usize| p0.contains(x) ==> p1.contains(x),
        closed_but(t0, arena0, off_limits, dim, head, p0),
    ensures
        closed_but(t1, arena1, off_limits, dim, head, p1),
{
    assert forall|c: int| 0 <= c < t1.len() && (#[trigger] t1[c]) is Some implies p1.contains(t1[c]->0)
        || nbrs_stored(t1, off_limits, dim, cell_at(dim, c)) by {
        if t1[c] == t0[c] && !p1.contains(t1[c]->0) {
            assert(t0[c] is Some);
            lemma_cell_at(dim, c);
            lemma_stored_grows(t0, t1, off_limits, dim, cell_at(dim, c));
        }
    }
    lemma_stored_grows(t0, t1, off_limits, dim, head);
}

impl Algorithm1 {
    /// The path the autopilot takes from `head`, heading `dir`, to an apple:
    /// the cheapest found, where a step costs 1, a turn 5 more and a wrap
    /// around the board 15 more, never entering a cell in `off_limits`.
    ///
    /// The search goes on generation by generation, keeping the cheapest
    /// path found to each cell, until no live path can beat the cheapest one
    /// found to an apple. `None` when no apple can be reached.
    #[verifier::rlimit(60)]
    pub fn get_path(
        &self,
        head: HexPoint,
        dir: Dir,
        off_limits: &Vec<HexPoint>,
        apples: &Vec<HexPoint>,
        board_dim: HexDim,
    ) -> (r: Option<Vec<HexPoint>>)
        requires
            countable(board_dim),
            board_fits(board_dim),
            on_board(board_dim, head),
            cell_count(board_dim) + 2 <= MAX_LEN,
        ensures
            r.is_some() ==> path_valid(r.unwrap()@, head, off_limits@, board_dim)
                && apples@.contains(r.unwrap()@.last()),
            r.is_some() ==> r.unwrap()@.len() >= 2,
            r.is_some() ==> cheapest_found(r.unwrap()@, head, dir, off_limits@, apples@, board_dim),
            r.is_none() ==> forall|path: Seq<HexPoint>|
                path_valid(path, head, off_limits@, board_dim) && path.len() >= 2
                    ==> !apples@.contains(#[trigger] path.last()),
    {
        let dim = board_dim;
        let total = (dim.h * dim.v) as usize;
        let mut table: Vec<Option<usize>> = Vec::new();
        while table.len() < total
            invariant
                table@.len() <= total,
                total == cell_count(dim),
                forall|c: int| 0 <= c < table@.len() ==> (#[trigger] table@[c]) is None,
            decreases total - table@.len(),
        {
            table.push(None);
        }
        let mut arena: Vec<SearchPoint> = Vec::new();
        arena.push(
            SearchPoint { parent: None, pos: head, dir, len: 1, num_turns: 0, num_teleports: 0 },
        );
        assert(arena@[0] == start_point(head, dir));
        let mut generation: Vec<usize> = Vec::new();
        generation.push(0);
        let mut best: Option<(HexPoint, usize)> = None;
        let dirs = Dir::iter();
        proof {
            assert(point_wf(arena@, 0, head, off_limits@, dim));
            assert(path_to(arena@, 0) == seq![head]);
            assert(path_to(arena@, 0).skip(1) =~= Seq::<HexPoint>::empty());
            assert(chain_ok(table@, arena@, dim, 0));
            assert(generation@[0] == 0);
        }
        loop
            invariant
                dim == board_dim,
                dirs@.len() == 6,
                forall|i: int| 0 <= i < 6 ==> #[trigger] dirs@[i] == dir_at(i),
                search_ok(arena@, table@, head, off_limits@, apples@, dim, best),
                arena@[0] == start_point(head, dir),
                forall|k: int| 0 <= k < generation@.len() ==> #[trigger] generation@[k] < arena@.len(),
                closed_but(table@, arena@, off_limits@, dim, head, generation@),
            decreases vacancies(table@), cost_sum(table@, arena@),
        {
            let ghost v0 = vacancies(table@);
            let ghost s0 = cost_sum(table@, arena@);
            let mut next: Vec<usize> = Vec::new();
            let mut g: usize = 0;
            proof {
                assert(generation@.subrange(0, generation@.len() as int) + next@ =~= generation@);
            }
            while g < generation.len()
                invariant
                    dim == board_dim,
                    dirs@.len() == 6,
                    forall|i: int| 0 <= i < 6 ==> #[trigger] dirs@[i] == dir_at(i),
                    search_ok(arena@, table@, head, off_limits@, apples@, dim, best),
                arena@[0] == start_point(head, dir),
                    0 <= g <= generation@.len(),
                    forall|k: int| 0 <= k < generation@.len() ==> #[trigger] generation@[k] < arena@.len(),
                    forall|k: int| 0 <= k < next@.len() ==> #[trigger] next@[k] < arena@.len() && next@[k] >= 1,
                    closed_but(table@, arena@, off_limits@, dim, head, generation@.subrange(g as int, generation@.len() as int) + next@),
                    vacancies(table@) < v0 || (vacancies(table@) == v0 && cost_sum(table@, arena@) < s0)
                        || (vacancies(table@) == v0 && cost_sum(table@, arena@) == s0 && next@.len() == 0),
                decreases generation@.len() - g,
            {
                let idx = generation[g];
                let sp = arena[idx];
                let ghost rest = generation@.subrange(g + 1, generation@.len() as int);
                proof {
                    assert(point_wf(arena@, idx as int, head, off_limits@, dim));
                    assert(generation@.subrange(g as int, generation@.len() as int) =~= seq![idx] + rest);
                    assert(chain_ok(table@, arena@, dim, idx as int));
                    lemma_path_to(arena@, idx as int, head, off_limits@, dim);
                    let cells = path_to(arena@, idx as int).skip(1);
                    assert forall|k: int| 0 <= k < cells.len() implies on_board(dim, #[trigger] cells[k]) by {
                        assert(cells[k] == path_to(arena@, idx as int)[k + 1]);
                    }
                    lemma_distinct_cells_bound(dim, cells);
                }
                let mut k: usize = 0;
                while k < 6
                    invariant
                        dim == board_dim,
                        dirs@.len() == 6,
                        forall|i: int| 0 <= i < 6 ==> #[trigger] dirs@[i] == dir_at(i),
                        search_ok(arena@, table@, head, off_limits@, apples@, dim, best),
                arena@[0] == start_point(head, dir),
                        0 <= k <= 6,
                        idx < arena@.len(),
                        sp == arena@[idx as int],
                        sp.len < MAX_LEN,
                        generation@.subrange(g as int, generation@.len() as int) == seq![idx] + rest,
                        forall|k: int| 0 <= k < generation@.len() ==> #[trigger] generation@[k] < arena@.len(),
                        forall|k: int| 0 <= k < next@.len() ==> #[trigger] next@[k] < arena@.len() && next@[k] >= 1,
                        closed_but(table@, arena@, off_limits@, dim, head, seq![idx] + rest + next@),
                        dirs_done(table@, off_limits@, dim, sp.pos, k as int),
                        vacancies(table@) < v0 || (vacancies(table@) == v0 && cost_sum(table@, arena@) < s0)
                            || (vacancies(table@) == v0 && cost_sum(table@, arena@) == s0 && next@.len() == 0),
                    decreases 6 - k,
                {
                    let ghost t_start = table@;
                    let ghost a_start = arena@;
                    let ghost next_start = next@;
                    let step_dir = dirs[k];
                    assert(point_wf(arena@, idx as int, head, off_limits@, dim));
                    let (new_pos, teleported) = sp.pos.explicit_wrapping_translate(step_dir, dim);
                    if !contains_cell(off_limits, new_pos) {
                        let new_sp = SearchPoint {
                            parent: Some(idx),
                            pos: new_pos,
                            dir: step_dir,
                            len: sp.len + 1,
                            num_turns: sp.num_turns + if step_dir != sp.dir {
                                1
                            } else {
                                0
                            },
                            num_teleports: sp.num_teleports + if teleported {
                                1
                            } else {
                                0
                            },
                        };
                        proof {
                            lemma_cost_fits(new_sp);
                        }
                        let c = index_of_cell(dim, new_pos);
                        let keep = match table[c] {
                            Some(other) => {
                                assert(table@[c as int] is Some);
                                assert(point_wf(arena@, other as int, head, off_limits@, dim));
                                proof {
                                    lemma_cost_fits(arena@[other as int]);
                                }
                                new_sp.cost() < arena[other].cost()
                            },
                            None => true,
                        };
                        if keep {
                            let ghost t0 = table@;
                            let ghost a0 = arena@;
                            let ghost b0 = best;
                            let new_idx = arena.len();
                            arena.push(new_sp);
                            proof {
                                assert(is_step(dim, sp.pos, new_pos)) by {
                                    assert(wrap_step(sp.pos, step_dir, dim).0 == new_pos);
                                }
                                assert forall|i: int| 0 <= i < arena@.len() implies #[trigger] point_wf(
                                    arena@,
                                    i,
                                    head,
                                    off_limits@,
                                    dim,
                                ) by {
                                    if i < a0.len() {
                                        assert(point_wf(a0, i, head, off_limits@, dim));
                                        assert(arena@[i] == a0[i]);
                                        match a0[i].parent {
                                            Some(j) => {
                                                assert(arena@[j as int] == a0[j as int]);
                                            },
                                            None => {},
                                        }
                                    } else {
                                        assert(arena@[i] == new_sp);
                                        assert(arena@[idx as int] == sp);
                                    }
                                }
                                lemma_store(a0, t0, head, off_limits@, dim, idx, new_sp, new_idx);
                                lemma_push_arena(t0, a0, new_sp);
                            }
                            table.set(c, Some(new_idx));
                            proof {
                                lemma_update_table(t0, arena@, c as int, Some(new_idx));
                                match t0[c as int] {
                                    Some(other) => {
                                        assert(arena@[other as int] == a0[other as int]);
                                    },
                                    None => {},
                                }
                                match best {
                                    Some((p, bc)) => {
                                        lemma_cell_index(dim, p, p);
                                        if cell_index(dim, p) != c {
                                            assert(table@[cell_index(dim, p)] == t0[cell_index(dim, p)]);
                                        }
                                    },
                                    None => {},
                                }
                            }
                            if contains_cell(apples, new_pos) {
                                let cost = new_sp.cost();
                                match best {
                                    Some((_, bc)) if bc <= cost => {},
                                    _ => {
                                        best = Some((new_pos, cost));
                                    },
                                }
                            }
                            next.push(new_idx);
                        }
                    }
                    proof {
                        assert forall|i: int| 0 <= i < t_start.len() && (#[trigger] t_start[i]) is Some implies table@[i] is Some by {
                            if table@[i] != t_start[i] {
                                assert(table@[i] == Some((arena@.len() - 1) as usize));
                            }
                        }
                        assert forall|i: int| 0 <= i < table@.len() && (#[trigger] table@[i]) is Some implies table@[i] == t_start[i]
                            || (seq![idx] + rest + next@).contains(table@[i]->0) by {
                            if table@[i] != t_start[i] {
                                assert(next@.len() > next_start.len());
                                assert(table@[i]->0 == next@[next@.len() - 1]);
                                assert((seq![idx] + rest + next@)[(1 + rest.len() + next@.len() - 1) as int] == next@[next@.len() - 1]);
                            }
                        }
                        assert forall|x: usize| (seq![idx] + rest + next_start).contains(x) implies (seq![idx] + rest + next@).contains(x) by {
                            let j = choose|j: int| 0 <= j < (seq![idx] + rest + next_start).len() && (seq![idx] + rest + next_start)[j] == x;
                            assert((seq![idx] + rest + next@)[j] == x);
                        }
                        lemma_closed_grows(t_start, table@, a_start, arena@, off_limits@, dim, head, seq![idx] + rest + next_start, seq![idx] + rest + next@);
                        lemma_stored_grows(t_start, table@, off_limits@, dim, sp.pos);
                        assert(dirs_done(table@, off_limits@, dim, sp.pos, k as int));
                        lemma_cell_index(dim, new_pos, new_pos);
                        assert(wrap_step(sp.pos, dir_at(k as int), dim).0 == new_pos);
                        assert(off_limits@.contains(new_pos) || stored(table@, dim, new_pos));
                        assert forall|d: Dir| #![trigger wrap_step(sp.pos, d, dim)] dir_index(d) < k + 1 implies off_limits@.contains(wrap_step(sp.pos, d, dim).0) || stored(
                            table@,
                            dim,
                            wrap_step(sp.pos, d, dim).0,
                        ) by {
                            if dir_index(d) == k {
                                assert(d == dir_at(k as int));
                            }
                        }
                    }
                    k = k + 1;
                }
                proof {
                    lemma_closed_advance(table@, arena@, head, off_limits@, dim, idx, rest, next@);
                    assert(rest =~= generation@.subrange(g + 1, generation@.len() as int));
                }
                g = g + 1;
            }
            proof {
                assert(generation@.subrange(g as int, generation@.len() as int) + next@ =~= next@);
            }
            generation = next;
            match best {
                Some((best_pos, best_cost)) => {
                    let mut min: Option<usize> = None;
                    let mut m: usize = 0;
                    while m < generation.len()
                        invariant
                            search_ok(arena@, table@, head, off_limits@, apples@, dim, best),
                arena@[0] == start_point(head, dir),
                            forall|k: int| 0 <= k < generation@.len() ==> #[trigger] generation@[k] < arena@.len(),
                            0 <= m <= generation@.len(),
                            min.is_some() <==> m > 0,
                            forall|k: int| 0 <= k < m ==> sp_cost(arena@[#[trigger] generation@[k] as int]) >= min->0,
                            closed_but(table@, arena@, off_limits@, dim, head, generation@),
                        decreases generation@.len() - m,
                    {
                        let gi = generation[m];
                        assert(point_wf(arena@, gi as int, head, off_limits@, dim));
                        proof {
                            lemma_cost_fits(arena@[gi as int]);
                        }
                        let cost = arena[gi].cost();
                        min = match min {
                            Some(prev) if prev <= cost => Some(prev),
                            _ => Some(cost),
                        };
                        m = m + 1;
                    }
                    let go_on = match min {
                        Some(lowest) => lowest < best_cost - 1,
                        None => false,
                    };
                    if !go_on {
                        let c = index_of_cell(dim, best_pos);
                        let found = table[c];
                        match found {
                            Some(i) => {
                                let path = path_of(&arena, i, Ghost(head), Ghost(off_limits@), Ghost(dim));
                                proof {
                                    lemma_path_to(arena@, i as int, head, off_limits@, dim);
                                    assert(table@[c as int] is Some);
                                    assert(arena@[i as int].pos == cell_at(dim, c as int));
                                    assert(path@.last() == best_pos);
                                    assert(search_stopped(arena@, generation@, sp_cost(arena@[i as int])));
                                }
                                return Some(path);
                            },
                            None => {
                                return None;
                            },
                        }
                    }
                },
                None => {},
            }
            if generation.len() == 0 {
                proof {
                    assert(best is None);
                    assert forall|path: Seq<HexPoint>| path_valid(path, head, off_limits@, board_dim) && path.len() >= 2
                        implies !apples@.contains(#[trigger] path.last()) by {
                        assert(!generation@.contains(0));
                        lemma_path_stored(path, head, off_limits@, dim, table@, path.len() - 1);
                        let q = path.last();
                        assert(q == path[path.len() - 1]);
                        lemma_cell_index(dim, q, q);
                        assert(table@[cell_index(dim, q)] is Some);
                    }
                }
                return None;
            }
        }
    }
}

} // verus!
