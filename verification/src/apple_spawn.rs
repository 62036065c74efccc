//! Where new apples appear: at random free cells, or following a schedule.

use vstd::prelude::*;

use crate::guidance::contains_cell;
use crate::hex::{board_fits, hex_distance, neighborhood_fits, on_board, HexDim, HexPoint};
use crate::prefs::Prefs;
use crate::random::gen_below;
use rand::rngs::ThreadRng;

verus! {

/// `a` comes before `b` in the row-by-row order of cells (the order
/// `HexPoint` derives).
pub open spec fn point_lt(a: HexPoint, b: HexPoint) -> bool {
    a.v < b.v || (a.v == b.v && a.h < b.h)
}

/// The cells `s` in strictly ascending order: sorted, with no cell twice.
pub open spec fn ascending(s: Seq<HexPoint>) -> bool {
    forall|i: int, j: int| 0 <= i < j < s.len() ==> point_lt(#[trigger] s[i], #[trigger] s[j])
}

pub open spec fn all_on_board(dim: HexDim, s: Seq<HexPoint>) -> bool {
    forall|i: int| 0 <= i < s.len() ==> on_board(dim, #[trigger] s[i])
}

/// The number of a cell when the board's cells are counted row by row.
pub open spec fn cell_index(dim: HexDim, p: HexPoint) -> int {
    p.v * dim.h + p.h
}

/// The cell numbered `i` when the cells are counted row by row.
pub open spec fn cell_at(dim: HexDim, i: int) -> HexPoint {
    HexPoint { h: (i % dim.h as int) as isize, v: (i / dim.h as int) as isize }
}

/// The number of cells on the board.
pub open spec fn cell_count(dim: HexDim) -> int {
    dim.h * dim.v
}

/// A board whose cells can be counted in `isize`.
pub open spec fn countable(dim: HexDim) -> bool {
    0 < dim.h && 0 <= dim.v && dim.h * dim.v <= isize::MAX
}

/// How many of the cells `s` are numbered below `r`.
pub open spec fn count_below(dim: HexDim, s: Seq<HexPoint>, r: int) -> nat
    decreases s.len(),
{
    if s.len() == 0 {
        0
    } else {
        count_below(dim, s.drop_last(), r) + if cell_index(dim, s.last()) < r {
            1nat
        } else {
            0nat
        }
    }
}

/// Counting row by row numbers the board's cells `0` to `cell_count - 1`,
/// each once, in the row-by-row order.
pub proof fn lemma_cell_index(dim: HexDim, a: HexPoint, b: HexPoint)
    requires
        countable(dim),
        on_board(dim, a),
        on_board(dim, b),
    ensures
        0 <= cell_index(dim, a) < cell_count(dim),
        point_lt(a, b) <==> cell_index(dim, a) < cell_index(dim, b),
        a == b <==> cell_index(dim, a) == cell_index(dim, b),
        cell_at(dim, cell_index(dim, a)) == a,
{
    let hh = dim.h as int;
    assert(0 <= a.v * hh) by (nonlinear_arith)
        requires
            0 <= a.v,
            0 < hh,
    ;
    assert(a.v * hh + hh <= dim.v * hh) by (nonlinear_arith)
        requires
            a.v < dim.v,
            0 < hh,
    ;
    assert(dim.v * hh == dim.h * dim.v) by (nonlinear_arith)
        requires
            hh == dim.h,
    ;
    if a.v < b.v {
        assert(a.v * hh + hh <= b.v * hh) by (nonlinear_arith)
            requires
                a.v < b.v,
                0 < hh,
        ;
    }
    if b.v < a.v {
        assert(b.v * hh + hh <= a.v * hh) by (nonlinear_arith)
            requires
                b.v < a.v,
                0 < hh,
        ;
    }
    let i = cell_index(dim, a);
    vstd::arithmetic::div_mod::lemma_fundamental_div_mod_converse(i, hh, a.v as int, a.h as int);
}

/// The cell numbered `i` lies on the board and is numbered `i`.
pub proof fn lemma_cell_at(dim: HexDim, i: int)
    requires
        countable(dim),
        0 <= i < cell_count(dim),
    ensures
        on_board(dim, cell_at(dim, i)),
        cell_index(dim, cell_at(dim, i)) == i,
{
    let hh = dim.h as int;
    vstd::arithmetic::div_mod::lemma_fundamental_div_mod(i, hh);
    assert(0 <= i / hh < dim.v) by (nonlinear_arith)
        requires
            0 <= i < hh * dim.v,
            0 < hh,
    ;
    assert(hh * (i / hh) == (i / hh) * hh) by (nonlinear_arith);
}

/// Strictly ascending cells on a board are at most as many as its cells.
pub proof fn lemma_ascending_len(dim: HexDim, s: Seq<HexPoint>)
    requires
        countable(dim),
        ascending(s),
        all_on_board(dim, s),
    ensures
        s.len() <= cell_count(dim),
        forall|j: int| 0 <= j < s.len() ==> j <= #[trigger] cell_index(dim, s[j]),
{
    assert forall|j: int| 0 <= j < s.len() implies j <= #[trigger] cell_index(dim, s[j]) by {
        lemma_index_at_least(dim, s, j);
    }
    if s.len() > 0 {
        let last = s.len() - 1;
        lemma_cell_index(dim, s[last], s[last]);
        assert(last <= cell_index(dim, s[last]));
    }
}

proof fn lemma_index_at_least(dim: HexDim, s: Seq<HexPoint>, j: int)
    requires
        countable(dim),
        ascending(s),
        all_on_board(dim, s),
        0 <= j < s.len(),
    ensures
        j <= cell_index(dim, s[j]),
    decreases j,
{
    lemma_cell_index(dim, s[j], s[j]);
    if j > 0 {
        lemma_index_at_least(dim, s, j - 1);
        lemma_cell_index(dim, s[j - 1], s[j]);
        assert(point_lt(s[j - 1], s[j]));
    }
}

/// Cells numbered below `r` up to position `c`, and above it after, are
/// `c` below `r`.
proof fn lemma_count_below_split(dim: HexDim, s: Seq<HexPoint>, r: int, c: int)
    requires
        0 <= c <= s.len(),
        forall|j: int| 0 <= j < c ==> cell_index(dim, #[trigger] s[j]) < r,
        forall|j: int| c <= j < s.len() ==> cell_index(dim, #[trigger] s[j]) > r,
    ensures
        count_below(dim, s, r) == c,
    decreases s.len(),
{
    if s.len() > 0 {
        let init = s.drop_last();
        let n = s.len() - 1;
        if c == s.len() {
            assert forall|j: int| 0 <= j < n implies cell_index(dim, #[trigger] init[j]) < r by {
                assert(init[j] == s[j]);
            }
            assert(cell_index(dim, s[n]) < r);
            lemma_count_below_split(dim, init, r, n);
        } else {
            assert forall|j: int| 0 <= j < c implies cell_index(dim, #[trigger] init[j]) < r by {
                assert(init[j] == s[j]);
            }
            assert forall|j: int| c <= j < n implies cell_index(dim, #[trigger] init[j]) > r by {
                assert(init[j] == s[j]);
            }
            assert(cell_index(dim, s[n]) > r);
            lemma_count_below_split(dim, init, r, c);
        }
    }
}

/// Whether `p` is the free cell numbered `k` among the free cells, counted
/// row by row: a free cell with `k` free cells before it.
pub open spec fn is_free_spot(dim: HexDim, occupied: Seq<HexPoint>, k: int, p: HexPoint) -> bool {
    &&& on_board(dim, p)
    &&& !occupied.contains(p)
    &&& cell_index(dim, p) - count_below(dim, occupied, cell_index(dim, p)) == k
}

/// The free cell numbered `k` among the free cells of the board, when
/// `occupied` holds the taken cells in ascending order.
pub fn free_spot_at(occupied: &Vec<HexPoint>, board_dim: HexDim, k: usize) -> (p: HexPoint)
    requires
        countable(board_dim),
        ascending(occupied@),
        all_on_board(board_dim, occupied@),
        k < cell_count(board_dim) - occupied@.len(),
    ensures
        is_free_spot(board_dim, occupied@, k as int, p),
{
    let ghost s = occupied@;
    let mut new_idx: usize = k;
    let mut i: usize = 0;
    let ghost mut c: int = 0;
    while i < occupied.len()
        invariant
            countable(board_dim),
            s == occupied@,
            ascending(s),
            all_on_board(board_dim, s),
            k < cell_count(board_dim) - s.len(),
            0 <= c <= i <= s.len(),
            new_idx == k + c,
            forall|j: int| 0 <= j < c ==> cell_index(board_dim, #[trigger] s[j]) < new_idx,
            forall|j: int| c <= j < i ==> cell_index(board_dim, #[trigger] s[j]) > new_idx,
        decreases s.len() - i,
    {
        let o = occupied[i];
        proof {
            lemma_cell_index(board_dim, o, o);
            assert(o.v * board_dim.h <= cell_index(board_dim, o));
        }
        let idx = (o.v * board_dim.h + o.h) as usize;
        if idx <= new_idx {
            proof {
                assert forall|j: int| 0 <= j < i implies cell_index(board_dim, #[trigger] s[j])
                    < new_idx + 1 by {
                    lemma_cell_index(board_dim, s[j], o);
                    assert(point_lt(s[j], s[i as int]));
                }
                if c < i {
                    lemma_cell_index(board_dim, s[c], o);
                    assert(point_lt(s[c], s[i as int]));
                }
                assert(c == i);
                c = i + 1;
            }
            new_idx = new_idx + 1;
        }
        i = i + 1;
    }
    proof {
        lemma_cell_at(board_dim, new_idx as int);
    }
    let h = board_dim.h;
    let p = HexPoint { h: (new_idx as isize) % h, v: (new_idx as isize) / h };
    proof {
        assert(p == cell_at(board_dim, new_idx as int));
        lemma_count_below_split(board_dim, s, new_idx as int, c);
        if s.contains(p) {
            let j = choose|j: int| 0 <= j < s.len() && s[j] == p;
            assert(cell_index(board_dim, s[j]) == new_idx);
        }
    }
    p
}

/// How many cells of the board are free, when `occupied` holds the taken
/// cells in ascending order.
pub fn free_cell_count(occupied: &Vec<HexPoint>, board_dim: HexDim) -> (n: usize)
    requires
        countable(board_dim),
        ascending(occupied@),
        all_on_board(board_dim, occupied@),
    ensures
        n == cell_count(board_dim) - occupied@.len(),
{
    proof {
        lemma_ascending_len(board_dim, occupied@);
    }
    let total = (board_dim.h * board_dim.v) as usize;
    assert(total as int == cell_count(board_dim));
    total - occupied.len()
}

/// The kind of a new apple: food, or a snake brought in for a while
#[derive(Copy, Clone, PartialEq, Eq, Debug, Structural)]
pub enum AppleType {
    /// Feeds this much, in thousandths of a cell
    Food(u64),
    /// Brings in a competitor snake
    SpawnCompetitor,
    /// Brings in a killer snake
    SpawnKiller,
}

/// The kind of a new apple for a draw of `draw` thousandths (a draw below
/// 1000, each as likely): with special apples on, a competitor, a killer or
/// food by the thousandths of each chance; with them off, food.
pub open spec fn apple_type_of(prefs: Prefs, draw: int) -> AppleType {
    if prefs.special_apples && draw < prefs.prob_spawn_competitor {
        AppleType::SpawnCompetitor
    } else if prefs.special_apples && draw < prefs.prob_spawn_competitor + prefs.prob_spawn_killer {
        AppleType::SpawnKiller
    } else {
        AppleType::Food(prefs.apple_food)
    }
}

/// The draws split into three runs: the first `prob_spawn_competitor`
/// thousandths bring in a competitor, the next `prob_spawn_killer` a killer,
/// and every other draw, or any draw with special apples off, is food
/// feeding as much as the preferences say.
pub proof fn lemma_apple_chances(prefs: Prefs, draw: int)
    requires
        0 <= draw,
    ensures
        !prefs.special_apples ==> apple_type_of(prefs, draw) == AppleType::Food(prefs.apple_food),
        prefs.special_apples && draw < prefs.prob_spawn_competitor ==> apple_type_of(prefs, draw)
            == AppleType::SpawnCompetitor,
        prefs.special_apples && prefs.prob_spawn_competitor <= draw < prefs.prob_spawn_competitor
            + prefs.prob_spawn_killer ==> apple_type_of(prefs, draw) == AppleType::SpawnKiller,
        draw >= prefs.prob_spawn_competitor + prefs.prob_spawn_killer ==> apple_type_of(prefs, draw)
            == AppleType::Food(prefs.apple_food),
{
}

/// The kind of a new apple for a draw of `draw` thousandths.
pub fn apple_type_for(prefs: &Prefs, draw: u64) -> (t: AppleType)
    ensures
        t == apple_type_of(*prefs, draw as int),
{
    if prefs.special_apples && draw < prefs.prob_spawn_competitor {
        AppleType::SpawnCompetitor
    } else if prefs.special_apples && draw - prefs.prob_spawn_competitor < prefs.prob_spawn_killer {
        AppleType::SpawnKiller
    } else {
        AppleType::Food(prefs.apple_food)
    }
}

/// The kind of a new apple, drawn at random (see [`apple_type_of`]).
pub fn generate_apple_type(prefs: &Prefs, rng: &mut ThreadRng) -> (t: AppleType)
    ensures
        exists|draw: int| 0 <= draw < 1000 && t == #[trigger] apple_type_of(*prefs, draw),
{
    let draw = gen_below(rng, 1000);
    apple_type_for(prefs, draw as u64)
}

/// A random free cell of the board, when `occupied` holds the taken cells in
/// ascending order; `None` if no cell is free.
pub fn random_free_spot(occupied: &Vec<HexPoint>, board_dim: HexDim, rng: &mut ThreadRng) -> (r:
    Option<HexPoint>)
    requires
        countable(board_dim),
        ascending(occupied@),
        all_on_board(board_dim, occupied@),
    ensures
        r.is_none() == (occupied@.len() == cell_count(board_dim)),
        r.is_some() ==> exists|k: int|
            0 <= k < cell_count(board_dim) - occupied@.len() && #[trigger] is_free_spot(
                board_dim,
                occupied@,
                k,
                r.unwrap(),
            ),
{
    let free_spaces = free_cell_count(occupied, board_dim);
    if free_spaces == 0 {
        return None;
    }
    // each free cell as likely
    let k = gen_below(rng, free_spaces);
    assert(k < cell_count(board_dim) - occupied@.len());
    let p = free_spot_at(occupied, board_dim, k);
    let r = Some(p);
    assert(is_free_spot(board_dim, occupied@, k as int, r.unwrap()));
    assert(0 <= k < cell_count(board_dim) - occupied@.len());
    r
}


/// Whether `a` comes before `b` in the row-by-row order of cells.
pub fn is_before(a: HexPoint, b: HexPoint) -> (r: bool)
    ensures
        r == point_lt(a, b),
{
    a.v < b.v || (a.v == b.v && a.h < b.h)
}

/// Add `p` to the ascending cells `cells` where it belongs in the order.
pub fn insert_ascending(cells: &mut Vec<HexPoint>, p: HexPoint)
    requires
        ascending(old(cells)@),
        !old(cells)@.contains(p),
    ensures
        ascending(final(cells)@),
        final(cells)@.len() == old(cells)@.len() + 1,
        final(cells)@.to_set() == old(cells)@.to_set().insert(p),
{
    let ghost s = cells@;
    let mut i: usize = 0;
    while i < cells.len() && is_before(cells[i], p)
        invariant
            s == cells@,
            0 <= i <= s.len(),
            forall|j: int| 0 <= j < i ==> point_lt(#[trigger] s[j], p),
        decreases s.len() - i,
    {
        i = i + 1;
    }
    cells.insert(i, p);
    proof {
        let t = cells@;
        assert(t == s.insert(i as int, p));
        if i < s.len() {
            assert(!point_lt(s[i as int], p));
            assert(s[i as int] != p);
        }
        assert forall|a: int, b: int| 0 <= a < b < t.len() implies point_lt(
            #[trigger] t[a],
            #[trigger] t[b],
        ) by {
            if b < i {
            } else if b == i {
            } else if a < i {
                assert(point_lt(s[a], p));
                assert(t[b] == s[b - 1]);
                if i < s.len() {
                    assert(point_lt(s[i as int], s[b - 1]) || i == b - 1);
                }
            } else if a == i {
                assert(t[b] == s[b - 1]);
                if i < b - 1 {
                    assert(point_lt(s[i as int], s[b - 1]));
                }
            } else {
                assert(t[a] == s[a - 1] && t[b] == s[b - 1]);
            }
        }
        assert(t.to_set() =~= s.to_set().insert(p)) by {
            assert forall|x: HexPoint| t.to_set().contains(x) implies s.to_set().insert(p).contains(
                x,
            ) by {
                let j = choose|j: int| 0 <= j < t.len() && t[j] == x;
                if j < i {
                    assert(s[j] == x);
                } else if j > i {
                    assert(s[j - 1] == x);
                }
            }
            assert forall|x: HexPoint| s.to_set().insert(p).contains(x) implies t.to_set().contains(
                x,
            ) by {
                if x == p {
                    assert(t[i as int] == p);
                } else {
                    let j = choose|j: int| 0 <= j < s.len() && s[j] == x;
                    if j < i {
                        assert(t[j] == x);
                    } else {
                        assert(t[j + 1] == x);
                    }
                }
            }
        }
    }
}

/// The cells taken by any of `groups` (apples, snake bodies), each once, in
/// ascending order.
pub fn occupied_cells(groups: &Vec<Vec<HexPoint>>) -> (cells: Vec<HexPoint>)
    ensures
        ascending(cells@),
        forall|p: HexPoint|
            cells@.contains(p) <==> exists|g: int|
                0 <= g < groups@.len() && #[trigger] groups@[g]@.contains(p),
{
    let mut cells: Vec<HexPoint> = Vec::new();
    let mut g: usize = 0;
    while g < groups.len()
        invariant
            0 <= g <= groups@.len(),
            ascending(cells@),
            forall|p: HexPoint|
                cells@.contains(p) <==> exists|k: int|
                    0 <= k < g && #[trigger] groups@[k]@.contains(p),
        decreases groups@.len() - g,
    {
        let group = &groups[g];
        let mut i: usize = 0;
        while i < group.len()
            invariant
                0 <= g < groups@.len(),
                group == groups@[g as int],
                0 <= i <= group@.len(),
                ascending(cells@),
                forall|p: HexPoint|
                    cells@.contains(p) <==> (exists|k: int|
                        0 <= k < g && #[trigger] groups@[k]@.contains(p)) || group@.take(
                        i as int,
                    ).contains(p),
            decreases group@.len() - i,
        {
            let p = group[i];
            let mut found = false;
            let mut j: usize = 0;
            while j < cells.len()
                invariant
                    0 <= j <= cells@.len(),
                    found == exists|k: int| 0 <= k < j && cells@[k] == p,
                decreases cells@.len() - j,
            {
                if cells[j] == p {
                    found = true;
                }
                j = j + 1;
            }
            let ghost before = cells@;
            if !found {
                insert_ascending(&mut cells, p);
            }
            proof {
                assert(group@.take(i + 1) =~= group@.take(i as int).push(p));
                assert forall|q: HexPoint| cells@.contains(q) <==> (exists|k: int|
                    0 <= k < g && #[trigger] groups@[k]@.contains(q)) || group@.take(
                    i + 1,
                ).contains(q) by {
                    if !found {
                        assert(cells@.to_set().contains(q) == before.to_set().insert(p).contains(
                            q,
                        ));
                    } else {
                        if q == p {
                            let k = choose|k: int| 0 <= k < before.len() && before[k] == p;
                            assert(before.contains(p));
                        }
                    }
                    if group@.take(i + 1).contains(q) && q != p {
                        let t1 = group@.take(i + 1);
                        let k = choose|k: int| 0 <= k < t1.len() && #[trigger] t1[k] == q;
                        assert(group@.take(i as int)[k] == q);
                    }
                    if q == p {
                        assert(group@.take(i + 1)[i as int] == p);
                    }
                }
            }
            i = i + 1;
        }
        proof {
            assert(group@.take(group@.len() as int) =~= group@);
            assert forall|q: HexPoint| cells@.contains(q) <==> exists|k: int|
                0 <= k < g + 1 && #[trigger] groups@[k]@.contains(q) by {
                if groups@[g as int]@.contains(q) {
                    assert(exists|k: int| 0 <= k < g + 1 && #[trigger] groups@[k]@.contains(q));
                }
                if exists|k: int| 0 <= k < g + 1 && #[trigger] groups@[k]@.contains(q) {
                    let k = choose|k: int| 0 <= k < g + 1 && #[trigger] groups@[k]@.contains(q);
                    if k < g {
                        assert(exists|k2: int| 0 <= k2 < g && #[trigger] groups@[k2]@.contains(q));
                    }
                }
            }
        }
        g = g + 1;
    }
    cells
}


/// A step of a spawn schedule: an apple at a cell, or a number of eaten
/// apples to wait for.
#[derive(Copy, Clone, PartialEq, Eq, Debug, Structural)]
pub enum ScheduledSpawn {
    Spawn(HexPoint),
    Wait { total: usize, current: usize },
}

/// How apples are spawned.
#[derive(Debug)]
pub enum SpawnPolicy {
    /// No apples
    NoApples,
    /// Keep `apple_count` apples on the board, at random free cells
    Random { apple_count: usize },
    /// A new apple each time there are fewer than `apple_count` on the
    /// board, where the schedule says, the schedule going round
    ScheduledOnEat { apple_count: usize, spawns: Vec<ScheduledSpawn>, next_index: usize },
}

/// The same schedule steps, as the game's apple strategy knows them.
#[derive(Copy, Clone, PartialEq, Eq, Debug, Structural)]
pub enum AppleSpawn {
    Spawn(HexPoint),
    Wait { total: usize, current: usize },
}

/// How the game spawns apples: at random, or following a schedule.
#[derive(Debug)]
pub enum AppleSpawnStrategy {
    Random { apple_count: usize },
    /// A new apple each time there are fewer than `apple_count` on the
    /// board
    ScheduledOnEat { apple_count: usize, spawns: Vec<AppleSpawn>, next_index: usize },
}

/// A schedule that can run: a step to go to, and every wait at least one
/// apple long with fewer apples waited for than it waits.
pub open spec fn schedule_valid(spawns: Seq<ScheduledSpawn>, next: int) -> bool {
    &&& 0 <= next < spawns.len()
    &&& forall|i: int|
        0 <= i < spawns.len() ==> (#[trigger] spawns[i] matches ScheduledSpawn::Wait {
            total,
            current,
        } ==> current < total)
}

/// One step of a schedule: a spawn gives its cell and moves on; a wait
/// counts one more apple and moves on once it has waited for all of them.
pub open spec fn schedule_step(spawns: Seq<ScheduledSpawn>, next: int) -> (
    Seq<ScheduledSpawn>,
    int,
    Option<HexPoint>,
) {
    let len = spawns.len() as int;
    match spawns[next] {
        ScheduledSpawn::Wait { total, current } => if current == total - 1 {
            (
                spawns.update(next, ScheduledSpawn::Wait { total, current: 0 }),
                (next + 1) % len,
                None,
            )
        } else {
            (
                spawns.update(next, ScheduledSpawn::Wait { total, current: (current + 1) as usize }),
                next,
                None,
            )
        },
        ScheduledSpawn::Spawn(pos) => (spawns, (next + 1) % len, Some(pos)),
    }
}

/// Up to `need` spawns from a schedule: it stops at the first wait.
pub open spec fn schedule_run(spawns: Seq<ScheduledSpawn>, next: int, need: nat) -> (
    Seq<ScheduledSpawn>,
    int,
    Seq<HexPoint>,
)
    decreases need,
{
    if need == 0 {
        (spawns, next, seq![])
    } else {
        let (s1, n1, out) = schedule_step(spawns, next);
        match out {
            None => (s1, n1, seq![]),
            Some(p) => {
                let (s2, n2, ps) = schedule_run(s1, n1, (need - 1) as nat);
                (s2, n2, seq![p] + ps)
            },
        }
    }
}

/// A step keeps the schedule valid.
pub proof fn lemma_schedule_step_valid(spawns: Seq<ScheduledSpawn>, next: int)
    requires
        schedule_valid(spawns, next),
    ensures
        schedule_valid(schedule_step(spawns, next).0, schedule_step(spawns, next).1),
{
    let (s1, n1, _) = schedule_step(spawns, next);
    assert forall|i: int|
        0 <= i < s1.len() implies (#[trigger] s1[i] matches ScheduledSpawn::Wait {
        total,
        current,
    } ==> current < total) by {
        if i != next {
            assert(s1[i] == spawns[i]);
        }
    }
}

/// Take one step of the schedule `spawns` at `next_index`.
fn step_schedule(spawns: &mut Vec<ScheduledSpawn>, next_index: &mut usize) -> (r: Option<HexPoint>)
    requires
        schedule_valid(old(spawns)@, *old(next_index) as int),
    ensures
        (final(spawns)@, *final(next_index) as int, r) == schedule_step(
            old(spawns)@,
            *old(next_index) as int,
        ),
        schedule_valid(final(spawns)@, *final(next_index) as int),
{
    proof {
        lemma_schedule_step_valid(spawns@, *next_index as int);
    }
    let len = spawns.len();
    let i = *next_index;
    match spawns[i] {
        ScheduledSpawn::Wait { total, current } => {
            if current == total - 1 {
                spawns.set(i, ScheduledSpawn::Wait { total, current: 0 });
                *next_index = (i + 1) % len;
            } else {
                spawns.set(i, ScheduledSpawn::Wait { total, current: current + 1 });
            }
            None
        },
        ScheduledSpawn::Spawn(pos) => {
            *next_index = (i + 1) % len;
            Some(pos)
        },
    }
}

/// How many more apples a policy wants, given `apples` on the board.
pub open spec fn apples_wanted(policy: SpawnPolicy, apples: int) -> nat {
    match policy {
        SpawnPolicy::NoApples => 0,
        SpawnPolicy::Random { apple_count } => if apples < apple_count {
            (apple_count - apples) as nat
        } else {
            0
        },
        SpawnPolicy::ScheduledOnEat { apple_count, .. } => if apples < apple_count {
            (apple_count - apples) as nat
        } else {
            0
        },
    }
}

/// A policy that can run: a scheduled one has a valid schedule.
pub open spec fn policy_valid(policy: SpawnPolicy) -> bool {
    policy matches SpawnPolicy::ScheduledOnEat { spawns, next_index, .. } ==> schedule_valid(
        spawns@,
        next_index as int,
    )
}

/// The cells of the new apples (see [`spawn_apples`]).
fn spawn_cells(
    policy: &mut SpawnPolicy,
    board_dim: HexDim,
    occupied: Vec<HexPoint>,
    apples: usize,
    rng: &mut ThreadRng,
) -> (spawn: Vec<HexPoint>)
    requires
        countable(board_dim),
        ascending(occupied@),
        all_on_board(board_dim, occupied@),
        policy_valid(*old(policy)),
    ensures
        policy_valid(*final(policy)),
        match *old(policy) {
            SpawnPolicy::NoApples => spawn@.len() == 0 && *final(policy) == *old(policy),
            SpawnPolicy::Random { apple_count } => {
                &&& *final(policy) == *old(policy)
                &&& spawn@.len() == vstd::math::min(
                    apples_wanted(*old(policy), apples as int) as int,
                    cell_count(board_dim) - occupied@.len(),
                )
                &&& forall|i: int|
                    0 <= i < spawn@.len() ==> on_board(board_dim, #[trigger] spawn@[i])
                        && !occupied@.contains(spawn@[i])
                &&& forall|i: int, j: int|
                    0 <= i < j < spawn@.len() ==> #[trigger] spawn@[i] != #[trigger] spawn@[j]
            },
            SpawnPolicy::ScheduledOnEat { apple_count, spawns, next_index } => {
                let (s, n, ps) = schedule_run(
                    spawns@,
                    next_index as int,
                    apples_wanted(*old(policy), apples as int),
                );
                &&& spawn@ == ps
                &&& *final(policy) matches SpawnPolicy::ScheduledOnEat {
                    apple_count: c2,
                    spawns: s2,
                    next_index: n2,
                }
                &&& c2 == apple_count && s2@ == s && n2 == n
            },
        },
{
    let mut spawn: Vec<HexPoint> = Vec::new();
    match policy {
        SpawnPolicy::NoApples => spawn,
        SpawnPolicy::Random { apple_count } => {
            let need: usize = if apples < *apple_count {
                *apple_count - apples
            } else {
                0
            };
            let mut taken = occupied;
            proof {
                lemma_ascending_len(board_dim, taken@);
            }
            while spawn.len() < need
                invariant
                    countable(board_dim),
                    ascending(taken@),
                    all_on_board(board_dim, taken@),
                    taken@.len() == occupied@.len() + spawn@.len(),
                    taken@.len() <= cell_count(board_dim),
                    spawn@.len() <= need,
                    forall|p: HexPoint|
                        taken@.contains(p) <==> occupied@.contains(p) || spawn@.contains(p),
                    forall|i: int|
                        0 <= i < spawn@.len() ==> on_board(board_dim, #[trigger] spawn@[i])
                            && !occupied@.contains(spawn@[i]),
                    forall|i: int, j: int|
                        0 <= i < j < spawn@.len() ==> #[trigger] spawn@[i] != #[trigger] spawn@[j],
                ensures
                    spawn@.len() == vstd::math::min(
                        need as int,
                        cell_count(board_dim) - occupied@.len(),
                    ),
                    forall|i: int|
                        0 <= i < spawn@.len() ==> on_board(board_dim, #[trigger] spawn@[i])
                            && !occupied@.contains(spawn@[i]),
                    forall|i: int, j: int|
                        0 <= i < j < spawn@.len() ==> #[trigger] spawn@[i] != #[trigger] spawn@[j],
                decreases need - spawn@.len(),
            {
                let pos = match random_free_spot(&taken, board_dim, rng) {
                    Some(pos) => pos,
                    None => {
                        break;
                    },
                };
                let ghost before = spawn@;
                let ghost taken_before = taken@;
                proof {
                    lemma_ascending_len(board_dim, taken@);
                }
                insert_ascending(&mut taken, pos);
                spawn.push(pos);
                proof {
                    assert forall|p: HexPoint| taken@.contains(p) <==> occupied@.contains(p)
                        || spawn@.contains(p) by {
                        assert(taken@.to_set().contains(p) == taken_before.to_set().insert(
                            pos,
                        ).contains(p));
                        if spawn@.contains(p) && p != pos {
                            let k = choose|k: int| 0 <= k < spawn@.len() && spawn@[k] == p;
                            assert(before[k] == p);
                        }
                        if before.contains(p) {
                            let k = choose|k: int| 0 <= k < before.len() && before[k] == p;
                            assert(spawn@[k] == p);
                        }
                        assert(spawn@[before.len() as int] == pos);
                    }
                    assert forall|i: int, j: int| 0 <= i < j < spawn@.len() implies #[trigger] spawn@[i]
                        != #[trigger] spawn@[j] by {
                        if j == before.len() {
                            assert(taken_before.contains(before[i]));
                        }
                    }
                    assert(all_on_board(board_dim, taken@)) by {
                        assert forall|i: int| 0 <= i < taken@.len() implies on_board(
                            board_dim,
                            #[trigger] taken@[i],
                        ) by {
                            assert(taken@.to_set().contains(taken@[i]));
                            assert(taken_before.to_set().insert(pos).contains(taken@[i]));
                            if taken@[i] != pos {
                                let k = choose|k: int|
                                    0 <= k < taken_before.len() && taken_before[k] == taken@[i];
                            }
                        }
                    }
                    lemma_ascending_len(board_dim, taken@);
                }
            }
            spawn
        },
        SpawnPolicy::ScheduledOnEat { apple_count, spawns, next_index } => {
            let need: usize = if apples < *apple_count {
                *apple_count - apples
            } else {
                0
            };
            let ghost s0 = spawns@;
            let ghost n0 = *next_index as int;
            while spawn.len() < need
                invariant_except_break
                    ({
                        let (s, n, ps) = schedule_run(s0, n0, need as nat);
                        let (s1, n1, ps1) = schedule_run(
                            spawns@,
                            *next_index as int,
                            (need - spawn@.len()) as nat,
                        );
                        s == s1 && n == n1 && ps == spawn@ + ps1
                    }),
                invariant
                    spawn@.len() <= need,
                    schedule_valid(spawns@, *next_index as int),
                ensures
                    schedule_valid(spawns@, *next_index as int),
                    ({
                        let (s, n, ps) = schedule_run(s0, n0, need as nat);
                        s == spawns@ && n == *next_index && ps == spawn@
                    }),
                decreases need - spawn@.len(),
            {
                let ghost s_before = spawns@;
                let ghost n_before = *next_index as int;
                let ghost out_before = spawn@;
                let ghost left = (need - spawn.len()) as nat;
                match step_schedule(spawns, next_index) {
                    Some(pos) => {
                        spawn.push(pos);
                        proof {
                            let (_, _, rest) = schedule_run(
                                spawns@,
                                *next_index as int,
                                (left - 1) as nat,
                            );
                            assert(out_before + (seq![pos] + rest) =~= spawn@ + rest);
                        }
                    },
                    None => {
                        proof {
                            assert(schedule_run(s_before, n_before, left) == (
                                spawns@,
                                *next_index as int,
                                Seq::<HexPoint>::empty(),
                            ));
                            assert(out_before + Seq::<HexPoint>::empty() =~= out_before);
                        }
                        break;
                    },
                }
            }
            proof {
                if spawn@.len() == need {
                    let (_, _, rest) = schedule_run(spawns@, *next_index as int, 0);
                    assert(spawn@ + rest =~= spawn@);
                }
            }
            spawn
        },
    }
}

/// The cells of new apples.
pub open spec fn cells_of(spawn: Seq<(HexPoint, AppleType)>) -> Seq<HexPoint> {
    spawn.map_values(|a: (HexPoint, AppleType)| a.0)
}

/// The cells that new apples go to, with `apples` apples on the board and
/// the taken cells `occupied` in ascending order.
///
/// A random policy spawns at random free cells, each one a different cell,
/// until there are enough apples or no cell is free. A scheduled policy
/// spawns where its schedule says until there are enough apples or the
/// schedule waits.
pub fn spawn_apples(
    policy: &mut SpawnPolicy,
    board_dim: HexDim,
    occupied: Vec<HexPoint>,
    apples: usize,
    prefs: &Prefs,
    rng: &mut ThreadRng,
) -> (spawn: Vec<(HexPoint, AppleType)>)
    requires
        countable(board_dim),
        ascending(occupied@),
        all_on_board(board_dim, occupied@),
        policy_valid(*old(policy)),
    ensures
        policy_valid(*final(policy)),
        match *old(policy) {
            SpawnPolicy::NoApples => cells_of(spawn@).len() == 0 && *final(policy) == *old(policy),
            SpawnPolicy::Random { apple_count } => {
                &&& *final(policy) == *old(policy)
                &&& cells_of(spawn@).len() == vstd::math::min(
                    apples_wanted(*old(policy), apples as int) as int,
                    cell_count(board_dim) - occupied@.len(),
                )
                &&& forall|i: int|
                    0 <= i < cells_of(spawn@).len() ==> on_board(board_dim, #[trigger] cells_of(spawn@)[i])
                        && !occupied@.contains(cells_of(spawn@)[i])
                &&& forall|i: int, j: int|
                    0 <= i < j < cells_of(spawn@).len() ==> #[trigger] cells_of(spawn@)[i] != #[trigger] cells_of(spawn@)[j]
            },
            SpawnPolicy::ScheduledOnEat { apple_count, spawns, next_index } => {
                let (s, n, ps) = schedule_run(
                    spawns@,
                    next_index as int,
                    apples_wanted(*old(policy), apples as int),
                );
                &&& cells_of(spawn@) == ps
                &&& *final(policy) matches SpawnPolicy::ScheduledOnEat {
                    apple_count: c2,
                    spawns: s2,
                    next_index: n2,
                }
                &&& c2 == apple_count && s2@ == s && n2 == n
            },
        },
        forall|i: int|
            0 <= i < spawn@.len() ==> exists|draw: int|
                0 <= draw < 1000 && (#[trigger] spawn@[i]).1 == apple_type_of(*prefs, draw),
{
    let cells = spawn_cells(policy, board_dim, occupied, apples, rng);
    let mut spawn: Vec<(HexPoint, AppleType)> = Vec::new();
    let mut i: usize = 0;
    while i < cells.len()
        invariant
            0 <= i <= cells@.len(),
            cells_of(spawn@) == cells@.take(i as int),
            forall|j: int|
                0 <= j < spawn@.len() ==> exists|draw: int|
                    0 <= draw < 1000 && (#[trigger] spawn@[j]).1 == apple_type_of(*prefs, draw),
        decreases cells@.len() - i,
    {
        let t = generate_apple_type(prefs, rng);
        let ghost before = spawn@;
        assert(cells_of(before).len() == before.len());
        assert(before.len() == i);
        spawn.push((cells[i], t));
        proof {
            assert(spawn@.len() == i + 1);
            assert(cells_of(spawn@).len() == i + 1);
            assert forall|j: int| 0 <= j < spawn@.len() implies cells_of(spawn@)[j] == cells@.take(i + 1)[j] by {
                if j < before.len() {
                    assert(spawn@[j] == before[j]);
                    assert(cells_of(before)[j] == cells@.take(i as int)[j]);
                }
            }
            assert(cells_of(spawn@) =~= cells@.take(i + 1));
            assert forall|j: int| 0 <= j < spawn@.len() implies exists|draw: int|
                0 <= draw < 1000 && (#[trigger] spawn@[j]).1 == apple_type_of(*prefs, draw) by {
                if j < before.len() {
                    assert(spawn@[j] == before[j]);
                }
            }
        }
        i = i + 1;
    }
    proof {
        assert(cells@.take(i as int) =~= cells@);
        assert forall|j: int| 0 <= j < spawn@.len() implies exists|draw: int|
            0 <= draw < 1000 && (#[trigger] spawn@[j]).1 == apple_type_of(*prefs, draw) by {
            assert(exists|draw: int| 0 <= draw < 1000 && spawn@[j].1 == apple_type_of(*prefs, draw));
        }
    }
    spawn
}

/// How near a player's head no snake is brought in, in steps.
pub const PLAYER_HEAD_NO_SPAWN_RADIUS: usize = 7;

/// `q` is within [`PLAYER_HEAD_NO_SPAWN_RADIUS`] steps of one of the first
/// `n` heads.
pub open spec fn near_head(heads: Seq<HexPoint>, n: int, q: HexPoint) -> bool {
    exists|i: int| 0 <= i < n && hex_distance(#[trigger] heads[i], q) <= PLAYER_HEAD_NO_SPAWN_RADIUS
}

/// Where no snake brought in by an apple may start: the cells of the board
/// that are `occupied` or near a player's head, each once, in ascending
/// order.
pub fn spawn_blocked_cells(occupied: &Vec<HexPoint>, player_heads: &Vec<HexPoint>, board_dim: HexDim) -> (cells: Vec<HexPoint>)
    requires
        countable(board_dim),
        board_fits(board_dim),
        ascending(occupied@),
        all_on_board(board_dim, occupied@),
        all_on_board(board_dim, player_heads@),
    ensures
        ascending(cells@),
        all_on_board(board_dim, cells@),
        forall|q: HexPoint|
            #[trigger] cells@.contains(q) <==> occupied@.contains(q) || (on_board(board_dim, q)
                && near_head(player_heads@, player_heads@.len() as int, q)),
{
    let mut cells: Vec<HexPoint> = Vec::new();
    let mut k: usize = 0;
    while k < occupied.len()
        invariant
            0 <= k <= occupied@.len(),
            cells@ == occupied@.take(k as int),
        decreases occupied@.len() - k,
    {
        cells.push(occupied[k]);
        proof {
            assert(occupied@.take(k + 1) =~= occupied@.take(k as int).push(occupied@[k as int]));
        }
        k = k + 1;
    }
    proof {
        assert(occupied@.take(k as int) =~= occupied@);
    }
    let mut i: usize = 0;
    while i < player_heads.len()
        invariant
            countable(board_dim),
            board_fits(board_dim),
            all_on_board(board_dim, player_heads@),
            0 <= i <= player_heads@.len(),
            ascending(cells@),
            all_on_board(board_dim, cells@),
            forall|q: HexPoint|
                #[trigger] cells@.contains(q) <==> occupied@.contains(q) || (on_board(board_dim, q)
                    && near_head(player_heads@, i as int, q)),
        decreases player_heads@.len() - i,
    {
        let head = player_heads[i];
        assert(on_board(board_dim, player_heads@[i as int]));
        let near = head.neighborhood(PLAYER_HEAD_NO_SPAWN_RADIUS);
        let mut j: usize = 0;
        while j < near.len()
            invariant
                countable(board_dim),
                0 <= i < player_heads@.len(),
                head == player_heads@[i as int],
                forall|q: HexPoint| near@.contains(q) <==> q == head || hex_distance(head, q) <= PLAYER_HEAD_NO_SPAWN_RADIUS,
                0 <= j <= near@.len(),
                ascending(cells@),
                all_on_board(board_dim, cells@),
                forall|q: HexPoint|
                    #[trigger] cells@.contains(q) <==> occupied@.contains(q) || (on_board(board_dim, q)
                        && (near_head(player_heads@, i as int, q) || near@.take(j as int).contains(q))),
            decreases near@.len() - j,
        {
            let q = near[j];
            let ghost before = cells@;
            if board_dim.contains(q) && !contains_cell(&cells, q) {
                insert_ascending(&mut cells, q);
            }
            proof {
                assert forall|x: HexPoint| #[trigger] cells@.contains(x) <==> occupied@.contains(x) || (on_board(board_dim, x)
                    && (near_head(player_heads@, i as int, x) || near@.take(j + 1).contains(x))) by {
                    assert(cells@.contains(x) <==> cells@.to_set().contains(x));
                    assert(before.contains(x) <==> before.to_set().contains(x));
                    if near@.take(j + 1).contains(x) && x != q {
                        let t = choose|t: int| 0 <= t < j + 1 && #[trigger] near@.take(j + 1)[t] == x;
                        assert(near@.take(j as int)[t] == x);
                    }
                    if near@.take(j as int).contains(x) {
                        let t = choose|t: int| 0 <= t < j && #[trigger] near@.take(j as int)[t] == x;
                        assert(near@.take(j + 1)[t] == x);
                    }
                    assert(near@.take(j + 1)[j as int] == q);
                }
                assert forall|t: int| 0 <= t < cells@.len() implies on_board(board_dim, #[trigger] cells@[t]) by {
                    assert(cells@.contains(cells@[t]));
                    if cells@[t] != q {
                        assert(before.to_set().contains(cells@[t]));
                        let u = choose|u: int| 0 <= u < before.len() && before[u] == cells@[t];
                    }
                }
            }
            j = j + 1;
        }
        proof {
            assert(near@.take(j as int) =~= near@);
            assert forall|x: HexPoint| #[trigger] cells@.contains(x) <==> occupied@.contains(x) || (on_board(board_dim, x)
                && near_head(player_heads@, i + 1, x)) by {
                if near_head(player_heads@, i + 1, x) && !near_head(player_heads@, i as int, x) {
                    let t = choose|t: int| 0 <= t < i + 1 && hex_distance(#[trigger] player_heads@[t], x) <= PLAYER_HEAD_NO_SPAWN_RADIUS;
                    assert(t == i);
                    assert(near@.contains(x));
                }
                if near@.contains(x) {
                    assert(hex_distance(player_heads@[i as int], x) <= PLAYER_HEAD_NO_SPAWN_RADIUS);
                }
                if near_head(player_heads@, i as int, x) {
                    let t = choose|t: int| 0 <= t < i && hex_distance(#[trigger] player_heads@[t], x) <= PLAYER_HEAD_NO_SPAWN_RADIUS;
                    assert(hex_distance(player_heads@[t], x) <= PLAYER_HEAD_NO_SPAWN_RADIUS);
                }
            }
        }
        i = i + 1;
    }
    cells
}

/// Where a snake brought in by an apple starts: a random free cell of the
/// board that is not `occupied` and not near a player's head; `None` if
/// there is none.
pub fn snake_spawn_spot(
    occupied: &Vec<HexPoint>,
    player_heads: &Vec<HexPoint>,
    board_dim: HexDim,
    rng: &mut ThreadRng,
) -> (r: Option<HexPoint>)
    requires
        countable(board_dim),
        board_fits(board_dim),
        ascending(occupied@),
        all_on_board(board_dim, occupied@),
        all_on_board(board_dim, player_heads@),
    ensures
        r.is_none() <==> forall|q: HexPoint| on_board(board_dim, q) ==> occupied@.contains(q) || near_head(
            player_heads@,
            player_heads@.len() as int,
            q,
        ),
        r matches Some(q) ==> on_board(board_dim, q) && !occupied@.contains(q) && !near_head(
            player_heads@,
            player_heads@.len() as int,
            q,
        ),
{
    let blocked = spawn_blocked_cells(occupied, player_heads, board_dim);
    let r = random_free_spot(&blocked, board_dim, rng);
    proof {
        lemma_ascending_len(board_dim, blocked@);
        if r.is_none() {
            assert forall|q: HexPoint| on_board(board_dim, q) implies occupied@.contains(q) || near_head(
                player_heads@,
                player_heads@.len() as int,
                q,
            ) by {
                lemma_full_board(board_dim, blocked@, q);
            }
        } else {
            let k = choose|k: int| 0 <= k < cell_count(board_dim) - blocked@.len() && #[trigger] is_free_spot(board_dim, blocked@, k, r.unwrap());
            assert(!blocked@.contains(r.unwrap()));
            assert(!(forall|q: HexPoint| on_board(board_dim, q) ==> occupied@.contains(q) || near_head(
                player_heads@,
                player_heads@.len() as int,
                q,
            )));
        }
    }
    r
}

/// Ascending cells of the board as many as its cells are all of them.
proof fn lemma_full_board(dim: HexDim, s: Seq<HexPoint>, q: HexPoint)
    requires
        countable(dim),
        ascending(s),
        all_on_board(dim, s),
        s.len() == cell_count(dim),
        on_board(dim, q),
    ensures
        s.contains(q),
{
    lemma_ascending_len(dim, s);
    lemma_cell_index(dim, q, q);
    // the j-th cell is numbered at least j; with as many cells as the board
    // has, the j-th is numbered exactly j
    assert forall|j: int| 0 <= j < s.len() implies cell_index(dim, #[trigger] s[j]) == j by {
        lemma_index_at_most(dim, s, j);
    }
    let c = cell_index(dim, q);
    assert(cell_index(dim, s[c]) == c);
    lemma_cell_index(dim, s[c], q);
}

/// The `j`-th of ascending cells of the board is numbered at most
/// `j + cell_count - len`.
proof fn lemma_index_at_most(dim: HexDim, s: Seq<HexPoint>, j: int)
    requires
        countable(dim),
        ascending(s),
        all_on_board(dim, s),
        0 <= j < s.len(),
    ensures
        cell_index(dim, s[j]) <= j + cell_count(dim) - s.len(),
        j <= cell_index(dim, s[j]),
    decreases s.len() - j,
{
    lemma_ascending_len(dim, s);
    lemma_cell_index(dim, s[j], s[j]);
    if j + 1 < s.len() {
        lemma_index_at_most(dim, s, j + 1);
        lemma_cell_index(dim, s[j], s[j + 1]);
    }
}

} // verus!
