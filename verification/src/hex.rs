//! Directions on a board of flat-topped hexagons and cell coordinates.
//!
//! Cells are addressed by column `h` and row `v`; odd columns sit half a cell
//! lower than even ones. Along a column a step changes `v` by one; a diagonal
//! step changes `h` by one and `v` by zero or one depending on the column.

use vstd::prelude::*;

use crate::random::gen_below;
use rand::rngs::ThreadRng;

verus! {

/// The six directions, in clockwise order starting at `U`.
#[derive(Copy, Clone, PartialEq, Eq, Debug, Hash, Structural)]
pub enum Dir {
    U,
    UR,
    DR,
    D,
    DL,
    UL,
}

/// The three lines through a cell: `|`, `\` and `/`.
#[derive(Copy, Clone, PartialEq, Eq, Debug, Structural)]
pub enum Axis {
    UD,
    ULDR,
    URDL,
}

#[derive(Copy, Clone, PartialEq, Eq, Debug, Structural)]
pub enum TurnDirection {
    Clockwise,
    CounterClockwise,
}

#[derive(Copy, Clone, PartialEq, Eq, Debug, Structural)]
pub enum TurnType {
    Straight,
    Blunt(TurnDirection),
    Sharp(TurnDirection),
}

/// The position of a direction in clockwise order from `U`.
pub open spec fn dir_index(d: Dir) -> int {
    match d {
        Dir::U => 0,
        Dir::UR => 1,
        Dir::DR => 2,
        Dir::D => 3,
        Dir::DL => 4,
        Dir::UL => 5,
    }
}

/// The direction at position `i` (taken modulo 6) in clockwise order from `U`.
pub open spec fn dir_at(i: int) -> Dir {
    let j = i % 6;
    if j == 0 {
        Dir::U
    } else if j == 1 {
        Dir::UR
    } else if j == 2 {
        Dir::DR
    } else if j == 3 {
        Dir::D
    } else if j == 4 {
        Dir::DL
    } else {
        Dir::UL
    }
}

/// The opposite direction: half a turn away.
pub open spec fn opposite(d: Dir) -> Dir {
    dir_at(dir_index(d) + 3)
}

/// The axis a direction lies on.
pub open spec fn axis_of(d: Dir) -> Axis {
    match d {
        Dir::U | Dir::D => Axis::UD,
        Dir::UL | Dir::DR => Axis::ULDR,
        Dir::UR | Dir::DL => Axis::URDL,
    }
}

/// How many sixths of a turn clockwise lead from `from` to `to` (0 to 5).
pub open spec fn clockwise_distance(from: Dir, to: Dir) -> int {
    (dir_index(to) - dir_index(from) + 6) % 6
}

/// The turn a path makes when it comes in going `from` and leaves going `to`,
/// where `from` and `to` are the sides of the cell it passes (so a straight
/// path leaves through the side opposite the one it came in through).
pub open spec fn turn_of(from: Dir, to: Dir) -> Option<TurnType> {
    let k = clockwise_distance(from, to);
    if k == 1 {
        Some(TurnType::Sharp(TurnDirection::Clockwise))
    } else if k == 5 {
        Some(TurnType::Sharp(TurnDirection::CounterClockwise))
    } else if k == 2 {
        Some(TurnType::Blunt(TurnDirection::Clockwise))
    } else if k == 4 {
        Some(TurnType::Blunt(TurnDirection::CounterClockwise))
    } else if k == 3 {
        Some(TurnType::Straight)
    } else {
        None
    }
}

impl Dir {
    /// All six directions in clockwise order starting from `U`.
    pub fn iter() -> (dirs: Vec<Dir>)
        ensures
            dirs@.len() == 6,
            forall|i: int| 0 <= i < 6 ==> #[trigger] dirs@[i] == dir_at(i),
    {
        vec![Dir::U, Dir::UR, Dir::DR, Dir::D, Dir::DL, Dir::UL]
    }

    pub fn axis(self) -> (a: Axis)
        ensures
            a == axis_of(self),
    {
        match self {
            Dir::U | Dir::D => Axis::UD,
            Dir::UL | Dir::DR => Axis::ULDR,
            Dir::UR | Dir::DL => Axis::URDL,
        }
    }

    /// The direction a sixth of a turn clockwise from this one.
    pub fn next_clockwise(self) -> (d: Dir)
        ensures
            d == dir_at(dir_index(self) + 1),
    {
        match self {
            Dir::U => Dir::UR,
            Dir::UR => Dir::DR,
            Dir::DR => Dir::D,
            Dir::D => Dir::DL,
            Dir::DL => Dir::UL,
            Dir::UL => Dir::U,
        }
    }

    /// The direction half a turn away.
    pub fn opposite(self) -> (d: Dir)
        ensures
            d == opposite(self),
    {
        match self {
            Dir::U => Dir::D,
            Dir::D => Dir::U,
            Dir::UL => Dir::DR,
            Dir::UR => Dir::DL,
            Dir::DL => Dir::UR,
            Dir::DR => Dir::UL,
        }
    }

    /// The turn made going `self` into a cell and leaving it going `other`.
    /// A path cannot leave through the side it came in through, so `other`
    /// may not be `self` itself.
    pub fn turn_type(self, other: Dir) -> (t: TurnType)
        requires
            self != other,
        ensures
            turn_of(self, other) == Some(t),
    {
        let mut dir = self;
        let mut steps: u8 = 0;
        while dir != other
            invariant
                0 <= steps <= 5,
                dir == dir_at(dir_index(self) + steps),
                steps <= clockwise_distance(self, other),
                self != other,
            decreases 6 - steps,
        {
            steps = steps + 1;
            dir = dir.next_clockwise();
        }
        assert(steps == clockwise_distance(self, other));
        match steps {
            1 => TurnType::Sharp(TurnDirection::Clockwise),
            5 => TurnType::Sharp(TurnDirection::CounterClockwise),
            2 => TurnType::Blunt(TurnDirection::Clockwise),
            4 => TurnType::Blunt(TurnDirection::CounterClockwise),
            _ => TurnType::Straight,
        }
    }

    /// The two directions a blunt turn can take from this one.
    pub fn blunt_turns(self) -> (dirs: [Dir; 2])
        ensures
            dirs[0] == dir_at(dir_index(self) + 5),
            dirs[1] == dir_at(dir_index(self) + 1),
    {
        match self {
            Dir::UL => [Dir::DL, Dir::U],
            Dir::U => [Dir::UL, Dir::UR],
            Dir::UR => [Dir::U, Dir::DR],
            Dir::DR => [Dir::UR, Dir::D],
            Dir::D => [Dir::DR, Dir::DL],
            Dir::DL => [Dir::D, Dir::UL],
        }
    }

    /// The two directions a sharp turn can take from this one.
    pub fn sharp_turns(self) -> (dirs: [Dir; 2])
        ensures
            dirs[0] == dir_at(dir_index(self) + 4),
            dirs[1] == dir_at(dir_index(self) + 2),
    {
        match self {
            Dir::UL => [Dir::D, Dir::UR],
            Dir::U => [Dir::DL, Dir::DR],
            Dir::UR => [Dir::UL, Dir::D],
            Dir::DR => [Dir::U, Dir::DL],
            Dir::D => [Dir::UR, Dir::UL],
            Dir::DL => [Dir::DR, Dir::U],
        }
    }
}


impl core::ops::Neg for Dir {
    type Output = Dir;

    fn neg(self) -> (d: Dir) {
        self.opposite()
    }
}

impl vstd::std_specs::ops::NegSpecImpl for Dir {
    open spec fn obeys_neg_spec() -> bool {
        true
    }

    open spec fn neg_req(self) -> bool {
        true
    }

    open spec fn neg_spec(self) -> Dir {
        opposite(self)
    }
}

/// A cell, or a board's dimensions (`h` columns by `v` rows).
///
/// Cells order row by row: by `v` first, then by `h`.
#[derive(Copy, Clone, PartialEq, Eq, PartialOrd, Ord, Debug, Hash, Structural)]
pub struct HexPoint {
    pub v: isize,
    pub h: isize,
}

/// A board's dimensions: `h` columns by `v` rows.
pub type HexDim = HexPoint;

/// The change of column of `n` steps in `d`.
pub open spec fn steps_h(d: Dir, n: int) -> int {
    match d {
        Dir::U | Dir::D => 0,
        Dir::UR | Dir::DR => n,
        Dir::UL | Dir::DL => -n,
    }
}

/// The change of `n` steps in `d` of a cell's [`skew`]: its row relative to
/// the diagonals, the coordinate that, together with `h`, makes every
/// direction a fixed vector.
pub open spec fn steps_r(d: Dir, n: int) -> int {
    match d {
        Dir::U | Dir::UR => -n,
        Dir::D | Dir::DL => n,
        Dir::UL | Dir::DR => 0,
    }
}

/// `v - floor(h / 2)`: in these coordinates a step in any direction adds a
/// constant vector (see [`steps_h`], [`steps_r`]).
pub open spec fn skew(h: int, v: int) -> int {
    v - h / 2
}

/// The column reached from column `h` after `n` steps in `d`.
pub open spec fn moved_h(h: int, d: Dir, n: int) -> int {
    h + steps_h(d, n)
}

/// The row reached from `(h, v)` after `n` steps in `d`.
pub open spec fn moved_v(h: int, v: int, d: Dir, n: int) -> int {
    skew(h, v) + steps_r(d, n) + moved_h(h, d, n) / 2
}

/// Whether `n` steps from `p` in `d` can be computed in `isize`, intermediate
/// values included.
pub open spec fn translate_fits(p: HexPoint, d: Dir, n: int) -> bool {
    &&& 0 <= n <= isize::MAX
    &&& match d {
        Dir::U => p.v - n >= isize::MIN,
        Dir::D => p.v + n <= isize::MAX,
        Dir::UL => p.h - n >= isize::MIN && p.v - n >= isize::MIN && (n < isize::MAX || p.h % 2 == 0),
        Dir::UR => p.h + n <= isize::MAX && p.v - n >= isize::MIN && (n < isize::MAX || p.h % 2 == 0),
        Dir::DL => p.h - n >= isize::MIN && p.v + n <= isize::MAX && (n < isize::MAX || p.h % 2 == 1),
        Dir::DR => p.h + n <= isize::MAX && p.v + n <= isize::MAX && (n < isize::MAX || p.h % 2 == 1),
    }
}

/// Whether `pos` lies on a board of dimensions `dim`.
pub open spec fn on_board(dim: HexDim, pos: HexPoint) -> bool {
    0 <= pos.h < dim.h && 0 <= pos.v < dim.v
}

/// Whether a column index is odd.
pub fn is_odd(h: isize) -> (b: bool)
    ensures
        b == (h as int % 2 == 1),
{
    h % 2 != 0
}

impl HexPoint {
    /// The cell `dist` steps away in direction `dir`.
    pub fn translate(self, dir: Dir, dist: usize) -> (p: HexPoint)
        requires
            translate_fits(self, dir, dist as int),
        ensures
            p.h == moved_h(self.h as int, dir, dist as int),
            p.v == moved_v(self.h as int, self.v as int, dir, dist as int),
    {
        let dist = dist as isize;
        let mut new_pos = self;
        match dir {
            Dir::U => new_pos.v = new_pos.v - dist,
            Dir::D => new_pos.v = new_pos.v + dist,
            // positive adjustment going up, negative adjustment going down
            Dir::UL => {
                // number of odd columns in range (excluding arrival column)
                let adjustment = if is_odd(new_pos.h) {
                    (dist + 1) / 2
                } else {
                    dist / 2
                };
                new_pos.h = new_pos.h - dist;
                new_pos.v = new_pos.v - dist;
                new_pos.v = new_pos.v + adjustment;
            },
            Dir::UR => {
                let adjustment = if is_odd(new_pos.h) {
                    (dist + 1) / 2
                } else {
                    dist / 2
                };
                new_pos.h = new_pos.h + dist;
                new_pos.v = new_pos.v - dist;
                new_pos.v = new_pos.v + adjustment;
            },
            Dir::DL => {
                // number of even columns in range (excluding arrival column)
                let adjustment = if !is_odd(new_pos.h) {
                    (dist + 1) / 2
                } else {
                    dist / 2
                };
                new_pos.h = new_pos.h - dist;
                new_pos.v = new_pos.v + dist;
                new_pos.v = new_pos.v - adjustment;
            },
            Dir::DR => {
                let adjustment = if !is_odd(new_pos.h) {
                    (dist + 1) / 2
                } else {
                    dist / 2
                };
                new_pos.h = new_pos.h + dist;
                new_pos.v = new_pos.v + dist;
                new_pos.v = new_pos.v - adjustment;
            },
        }
        new_pos
    }

    /// Whether `pos` lies on a board of these dimensions.
    pub fn contains(self, pos: HexPoint) -> (b: bool)
        ensures
            b == on_board(self, pos),
    {
        0 <= pos.h && pos.h < self.h && 0 <= pos.v && pos.v < self.v
    }
}

/// The absolute value of an integer.
pub open spec fn abs(x: int) -> int {
    if x < 0 {
        -x
    } else {
        x
    }
}

/// The direction a point that has left a board was heading in, judged by
/// where it is and the axis it was moving along: wrapping brings it back in
/// the opposite direction.
pub open spec fn wrap_dir(p: HexPoint, dim: HexDim, axis: Axis) -> Dir {
    match axis {
        Axis::UD => if p.v < 0 {
            Dir::U
        } else {
            Dir::D
        },
        Axis::ULDR => if p.v < 0 || p.h < 0 {
            Dir::UL
        } else {
            Dir::DR
        },
        Axis::URDL => if p.v < 0 || p.h >= dim.h {
            Dir::UR
        } else {
            Dir::DL
        },
    }
}

/// Which of the board's four limits `(h, v)` lies beyond: above, below, left,
/// right.
pub open spec fn problems(h: int, v: int, dim: HexDim) -> (bool, bool, bool, bool) {
    (v < 0, v >= dim.v, h < 0, h >= dim.h)
}

/// Column of the cell `i` steps back from `p` along its line of travel.
pub open spec fn walk_h(p: HexPoint, dim: HexDim, axis: Axis, i: int) -> int {
    moved_h(p.h as int, opposite(wrap_dir(p, dim, axis)), i)
}

/// Row of the cell `i` steps back from `p` along its line of travel.
pub open spec fn walk_v(p: HexPoint, dim: HexDim, axis: Axis, i: int) -> int {
    moved_v(p.h as int, p.v as int, opposite(wrap_dir(p, dim, axis)), i)
}

pub open spec fn walk_on_board(p: HexPoint, dim: HexDim, axis: Axis, i: int) -> bool {
    0 <= walk_h(p, dim, axis, i) < dim.h && 0 <= walk_v(p, dim, axis, i) < dim.v
}

/// Whether the cell `i` steps back lies beyond the same limits as `p`.
pub open spec fn walk_same_problems(p: HexPoint, dim: HexDim, axis: Axis, i: int) -> bool {
    problems(walk_h(p, dim, axis, i), walk_v(p, dim, axis, i), dim) == problems(
        p.h as int,
        p.v as int,
        dim,
    )
}

/// Walking back from `p`, the board is first reached after `j` steps, and
/// every cell passed before that lies beyond the same limits as `p`.
pub open spec fn is_entry(p: HexPoint, dim: HexDim, axis: Axis, j: int) -> bool {
    &&& 0 <= j
    &&& walk_on_board(p, dim, axis, j)
    &&& forall|k: int|
        0 <= k < j ==> !#[trigger] walk_on_board(p, dim, axis, k) && walk_same_problems(
            p,
            dim,
            axis,
            k,
        )
}

/// Walking back from `p`, the `s` cells from step `j` on lie on the board and
/// the next one does not: `s` is the length of the board along that line.
pub open spec fn is_run(p: HexPoint, dim: HexDim, axis: Axis, j: int, s: int) -> bool {
    &&& 1 <= s
    &&& forall|t: int| j <= t < j + s ==> #[trigger] walk_on_board(p, dim, axis, t)
    &&& !walk_on_board(p, dim, axis, j + s)
}

/// The least multiple of `s` that is at least `j`.
pub open spec fn round_up(j: int, s: int) -> int {
    ((j + s - 1) / s) * s
}

/// Where `p` lands when wrapped around a board of dimensions `dim` along
/// `axis`: a point on the board is left as it is; one off the board is moved
/// back along its line by a whole number of board lengths, the fewest that
/// bring it onto the board. `None` if the walk back changes which of the
/// board's limits it lies beyond before it reaches the board (it would never
/// come back in by the way it left).
#[verifier::opaque]
pub open spec fn wrapped(p: HexPoint, dim: HexDim, axis: Axis) -> Option<(int, int)> {
    if on_board(dim, p) {
        Some((p.h as int, p.v as int))
    } else if exists|j: int, s: int| is_entry(p, dim, axis, j) && is_run(p, dim, axis, j, s) {
        let (j, s) = choose|j: int, s: int|
            is_entry(p, dim, axis, j) && is_run(p, dim, axis, j, s);
        let m = round_up(j, s);
        Some((walk_h(p, dim, axis, m), walk_v(p, dim, axis, m)))
    } else {
        None
    }
}

/// How many steps back from `p` are enough to be past every limit of the
/// board that the walk can cross.
pub open spec fn wrap_bound(p: HexPoint, dim: HexDim) -> int {
    2 * (abs(p.h as int) + abs(p.v as int) + abs(dim.h as int) + abs(dim.v as int)) + 4
}

/// Coordinates small enough that wrapping cannot overflow.
pub open spec fn wrap_fits(p: HexPoint, dim: HexDim) -> bool {
    &&& abs(p.h as int) <= isize::MAX / 16
    &&& abs(p.v as int) <= isize::MAX / 16
    &&& abs(dim.h as int) <= isize::MAX / 16
    &&& abs(dim.v as int) <= isize::MAX / 16
}

pub open spec fn point_of(r: Option<HexPoint>) -> Option<(int, int)> {
    match r {
        Some(q) => Some((q.h as int, q.v as int)),
        None => None,
    }
}

/// Steps compose: `a` steps and then `b` more are `a + b` steps.
pub proof fn lemma_moved_add(h: int, v: int, d: Dir, a: int, b: int)
    ensures
        moved_h(moved_h(h, d, a), d, b) == moved_h(h, d, a + b),
        moved_v(moved_h(h, d, a), moved_v(h, v, d, a), d, b) == moved_v(h, v, d, a + b),
{
}

/// Walking back `i` steps moves each coordinate by at most `i`.
pub proof fn lemma_walk_bounds(p: HexPoint, dim: HexDim, axis: Axis, i: int)
    requires
        0 <= i,
    ensures
        abs(walk_h(p, dim, axis, i) - p.h) <= i,
        abs(walk_v(p, dim, axis, i) - p.v) <= i,
{
}

/// Far enough back, the walk is off the board and beyond other limits than
/// where it started (if it started off the board).
pub proof fn lemma_walk_far(p: HexPoint, dim: HexDim, axis: Axis, i: int)
    requires
        !on_board(dim, p),
        i >= wrap_bound(p, dim),
    ensures
        !walk_on_board(p, dim, axis, i),
        !walk_same_problems(p, dim, axis, i),
{
}

/// The least multiple of `s` at least `j` lies in `[j, j + s)`, and no smaller
/// multiple of `s` is at least `j`.
pub proof fn lemma_round_up(j: int, s: int, k: int)
    requires
        0 <= j,
        1 <= s,
        0 <= k,
    ensures
        j <= round_up(j, s) < j + s,
        round_up(j, s) >= 0,
        k * s >= j ==> k * s >= round_up(j, s),
        k * s < round_up(j, s) ==> (k + 1) * s <= round_up(j, s),
{
    let c = (j + s - 1) / s;
    let r = (j + s - 1) % s;
    assert(j + s - 1 == c * s + r && 0 <= r < s) by {
        vstd::arithmetic::div_mod::lemma_fundamental_div_mod(j + s - 1, s);
    }
    assert(c >= 0) by (nonlinear_arith)
        requires
            j + s - 1 == c * s + r,
            0 <= r < s,
            0 <= j,
            1 <= s,
    ;
    assert(k * s >= j ==> k >= c) by (nonlinear_arith)
        requires
            j + s - 1 == c * s + r,
            0 <= r < s,
            1 <= s,
    ;
    assert(k >= c ==> k * s >= c * s) by (nonlinear_arith)
        requires
            1 <= s,
    ;
    assert(k * s < c * s ==> k + 1 <= c) by (nonlinear_arith)
        requires
            1 <= s,
    ;
    assert((k + 1) * s == k * s + s) by (nonlinear_arith);
    assert(k + 1 <= c ==> (k + 1) * s <= c * s) by (nonlinear_arith)
        requires
            1 <= s,
    ;
}

/// Whether two points lie beyond the same limits of a board.
fn same_problems(a: HexPoint, b: HexPoint, dim: HexDim) -> (same: bool)
    ensures
        same == (problems(a.h as int, a.v as int, dim) == problems(b.h as int, b.v as int, dim)),
{
    (a.v < 0) == (b.v < 0) && (a.v >= dim.v) == (b.v >= dim.v) && (a.h < 0) == (b.h < 0) && (
    a.h >= dim.h) == (b.h >= dim.h)
}

impl HexPoint {
    /// Wrap a point that has left the board back onto it: if it is `n` cells
    /// out of bounds along `axis`, it ends up `n` cells from the opposite
    /// edge. See [`wrapped`]; `None` if the point cannot be brought back along
    /// that axis.
    pub fn wrap_around(self, board_dim: HexDim, axis: Axis) -> (r: Option<HexPoint>)
        requires
            wrap_fits(self, board_dim),
        ensures
            point_of(r) == wrapped(self, board_dim, axis),
    {
        if board_dim.contains(self) {
            proof {
                reveal(wrapped);
            }
            return Some(self);
        }
        let ghost p = self;
        let ghost n = wrap_bound(p, board_dim);
        // opposite of the adjustment direction (the direction the snake was going)
        let dir = match axis {
            Axis::UD => if self.v < 0 {
                Dir::U
            } else {
                Dir::D
            },
            Axis::ULDR => if self.v < 0 || self.h < 0 {
                Dir::UL
            } else {
                Dir::DR
            },
            Axis::URDL => if self.v < 0 || self.h >= board_dim.h {
                Dir::UR
            } else {
                Dir::DL
            },
        };
        assert(dir == wrap_dir(p, board_dim, axis));
        let back = dir.opposite();

        // walk back to the board, giving up if the point turns out not to be
        // salvageable
        let mut x = self;
        let ghost mut i: int = 0;
        while !board_dim.contains(x)
            invariant
                p == self,
                !on_board(board_dim, p),
                wrap_fits(p, board_dim),
                n == wrap_bound(p, board_dim),
                back == opposite(wrap_dir(p, board_dim, axis)),
                0 <= i <= n,
                x.h == walk_h(p, board_dim, axis, i),
                x.v == walk_v(p, board_dim, axis, i),
                forall|k: int|
                    0 <= k < i ==> !#[trigger] walk_on_board(p, board_dim, axis, k)
                        && walk_same_problems(p, board_dim, axis, k),
            decreases n - i,
        {
            if !same_problems(x, self, board_dim) {
                proof {
                    reveal(wrapped);
                    assert(wrapped(p, board_dim, axis) is None) by {
                        if exists|j: int, s: int|
                            is_entry(p, board_dim, axis, j) && is_run(p, board_dim, axis, j, s) {
                            let (j, s) = choose|j: int, s: int|
                                is_entry(p, board_dim, axis, j) && is_run(
                                    p,
                                    board_dim,
                                    axis,
                                    j,
                                    s,
                                );
                            assert(!walk_same_problems(p, board_dim, axis, i));
                            assert(!walk_on_board(p, board_dim, axis, i));
                            if j > i {
                                assert(false);
                            } else if j < i {
                                assert(!walk_on_board(p, board_dim, axis, j));
                            }
                        }
                    }
                }
                return None;
            }
            proof {
                assert(!walk_on_board(p, board_dim, axis, i));
                assert(walk_same_problems(p, board_dim, axis, i));
                if i == n {
                    lemma_walk_far(p, board_dim, axis, i);
                }
                lemma_walk_bounds(p, board_dim, axis, i);
                lemma_moved_add(p.h as int, p.v as int, back, i, 1);
            }
            x = x.translate(back, 1);
            proof {
                i = i + 1;
            }
        }
        let ghost j = i;
        assert(is_entry(p, board_dim, axis, j));

        // the length of the board along that line at that location, e.g.
        // small in corners, constant for U/D
        let mut size: usize = 0;
        while board_dim.contains(x)
            invariant
                !on_board(board_dim, p),
                wrap_fits(p, board_dim),
                n == wrap_bound(p, board_dim),
                back == opposite(wrap_dir(p, board_dim, axis)),
                0 <= j <= n,
                0 <= j + size <= n,
                x.h == walk_h(p, board_dim, axis, j + size),
                x.v == walk_v(p, board_dim, axis, j + size),
                forall|t: int| j <= t < j + size ==> #[trigger] walk_on_board(p, board_dim, axis, t),
            decreases n - j - size,
        {
            proof {
                if j + size == n {
                    lemma_walk_far(p, board_dim, axis, n);
                }
                lemma_walk_bounds(p, board_dim, axis, j + size);
                lemma_moved_add(p.h as int, p.v as int, back, j + size, 1);
            }
            x = x.translate(back, 1);
            size = size + 1;
        }
        let ghost s = size as int;
        assert(is_run(p, board_dim, axis, j, s));
        let ghost m = round_up(j, s);
        proof {
            lemma_round_up(j, s, 0);
            assert(walk_on_board(p, board_dim, axis, m));
        }

        // jump back a board length at a time until on the board again
        let mut q = self;
        let ghost mut k: int = 0;
        while !board_dim.contains(q)
            invariant
                p == self,
                !on_board(board_dim, p),
                wrap_fits(p, board_dim),
                n == wrap_bound(p, board_dim),
                back == opposite(wrap_dir(p, board_dim, axis)),
                is_entry(p, board_dim, axis, j),
                is_run(p, board_dim, axis, j, s),
                s == size,
                1 <= s,
                0 <= j,
                j + s <= n,
                m == round_up(j, s),
                walk_on_board(p, board_dim, axis, m),
                0 <= k,
                k * s <= m,
                q.h == walk_h(p, board_dim, axis, k * s),
                q.v == walk_v(p, board_dim, axis, k * s),
            decreases m - k * s,
        {
            proof {
                lemma_round_up(j, s, k);
                lemma_walk_bounds(p, board_dim, axis, k * s);
                lemma_moved_add(p.h as int, p.v as int, back, k * s, s);
                assert(k * s + s == (k + 1) * s) by (nonlinear_arith);
            }
            q = q.translate(back, size);
            proof {
                k = k + 1;
            }
        }
        proof {
            lemma_round_up(j, s, k);
            if k * s < m {
                assert(k * s < j);
                assert(!walk_on_board(p, board_dim, axis, k * s));
            }
            assert(k * s == m);
            lemma_wrapped_is(p, board_dim, axis, j, s);
        }
        Some(q)
    }
}

/// The point `n` steps from `p` in `d` (where that fits in `isize`).
pub open spec fn translated(p: HexPoint, d: Dir, n: int) -> HexPoint {
    HexPoint {
        h: moved_h(p.h as int, d, n) as isize,
        v: moved_v(p.h as int, p.v as int, d, n) as isize,
    }
}

/// Where a step from `p` in `d` wraps to: `None` if the step stays on the
/// board (or cannot be wrapped back onto it).
pub open spec fn wrap_destination_of(p: HexPoint, d: Dir, dim: HexDim) -> Option<(int, int)> {
    let next = translated(p, d, 1);
    if on_board(dim, next) {
        None
    } else {
        wrapped(next, dim, axis_of(d))
    }
}

impl HexPoint {
    /// Translate, wrapping around the board's edges.
    pub fn wrapping_translate(self, dir: Dir, dist: usize, board_dim: HexDim) -> (p: HexPoint)
        requires
            translate_fits(self, dir, dist as int),
            wrap_fits(translated(self, dir, dist as int), board_dim),
            wrapped(translated(self, dir, dist as int), board_dim, axis_of(dir)) is Some,
        ensures
            Some((p.h as int, p.v as int)) == wrapped(
                translated(self, dir, dist as int),
                board_dim,
                axis_of(dir),
            ),
    {
        let moved = self.translate(dir, dist);
        assert(moved == translated(self, dir, dist as int));
        moved.wrap_around(board_dim, dir.axis()).unwrap()
    }

    /// Where a step from here in `dir` lands if it leaves the board and wraps
    /// around; `None` if the step stays on the board.
    pub fn wrap_destination(self, dir: Dir, board_dim: HexDim) -> (r: Option<HexPoint>)
        requires
            translate_fits(self, dir, 1),
            wrap_fits(translated(self, dir, 1), board_dim),
        ensures
            point_of(r) == wrap_destination_of(self, dir, board_dim),
    {
        let next = self.translate(dir, 1);
        assert(next == translated(self, dir, 1));
        if board_dim.contains(next) {
            None
        } else {
            next.wrap_around(board_dim, dir.axis())
        }
    }
}

/// Board dimensions small enough that wrapping anywhere near the board cannot
/// overflow.
pub open spec fn board_fits(dim: HexDim) -> bool {
    0 <= dim.h <= isize::MAX / 64 && 0 <= dim.v <= isize::MAX / 64
}

/// The cell `t` steps from `p` in direction `d` (any integer `t`: negative
/// steps go the other way), as column and row.
pub open spec fn line_h(p: HexPoint, d: Dir, t: int) -> int {
    moved_h(p.h as int, d, t)
}

pub open spec fn line_v(p: HexPoint, d: Dir, t: int) -> int {
    moved_v(p.h as int, p.v as int, d, t)
}

pub open spec fn line_on_board(dim: HexDim, p: HexPoint, d: Dir, t: int) -> bool {
    0 <= line_h(p, d, t) < dim.h && 0 <= line_v(p, d, t) < dim.v
}

/// Stepping the other way undoes steps: `b` steps in the opposite direction
/// after `a` steps in `d` are `a - b` steps in `d`.
pub proof fn lemma_moved_back(h: int, v: int, d: Dir, a: int, b: int)
    ensures
        moved_h(moved_h(h, d, a), opposite(d), b) == moved_h(h, d, a - b),
        moved_v(moved_h(h, d, a), moved_v(h, v, d, a), opposite(d), b) == moved_v(h, v, d, a - b),
{
}

/// Wherever `translate` can compute `n` steps, the cell they reach is exactly
/// the one that [`moved_h`] and [`moved_v`] give.
pub proof fn lemma_translated_exact(p: HexPoint, d: Dir, n: int)
    requires
        translate_fits(p, d, n),
    ensures
        translated(p, d, n).h == moved_h(p.h as int, d, n),
        translated(p, d, n).v == moved_v(p.h as int, p.v as int, d, n),
{
}

/// Translating `n` steps one way and then `n` steps the opposite way comes
/// back to the start.
pub proof fn lemma_translate_round_trip(p: HexPoint, d: Dir, n: int)
    requires
        translate_fits(p, d, n),
    ensures
        translated(translated(p, d, n), opposite(d), n) == p,
{
    lemma_translated_exact(p, d, n);
    lemma_moved_back(p.h as int, p.v as int, d, n, n);
}

/// Translating `a` steps and then `b` more the same way is translating
/// `a + b` steps; no steps stay put; up and down keep the column and move
/// the row by the distance; the four diagonals move the column by exactly
/// the distance.
pub proof fn lemma_translate_adds(p: HexPoint, d: Dir, a: int, b: int)
    requires
        translate_fits(p, d, a),
        translate_fits(translated(p, d, a), d, b),
    ensures
        translated(translated(p, d, a), d, b) == translated(p, d, a + b),
        translated(p, d, 0) == p,
        d == Dir::U ==> translated(p, d, a) == (HexPoint { h: p.h, v: (p.v - a) as isize }),
        d == Dir::D ==> translated(p, d, a) == (HexPoint { h: p.h, v: (p.v + a) as isize }),
        d != Dir::U && d != Dir::D ==> abs(translated(p, d, a).h - p.h) == a,
{
    lemma_translated_exact(p, d, a);
    lemma_moved_add(p.h as int, p.v as int, d, a, b);
}

/// A step off the board from a cell on it is judged to have been heading in
/// the direction it took.
pub proof fn lemma_step_off_dir(p: HexPoint, d: Dir, dim: HexDim)
    requires
        board_fits(dim),
        on_board(dim, p),
        !on_board(dim, translated(p, d, 1)),
    ensures
        wrap_dir(translated(p, d, 1), dim, axis_of(d)) == d,
{
}

/// The walk back from the cell one step off the board along `d` retraces the
/// line through `p`.
pub proof fn lemma_walk_is_line(p: HexPoint, d: Dir, dim: HexDim, i: int)
    requires
        board_fits(dim),
        on_board(dim, p),
        !on_board(dim, translated(p, d, 1)),
    ensures
        walk_h(translated(p, d, 1), dim, axis_of(d), i) == line_h(p, d, 1 - i),
        walk_v(translated(p, d, 1), dim, axis_of(d), i) == line_v(p, d, 1 - i),
{
    lemma_step_off_dir(p, d, dim);
    lemma_moved_back(p.h as int, p.v as int, d, 1, i);
}

/// `wrapped` names the point its one entry and run lead to.
pub proof fn lemma_wrapped_is(p: HexPoint, dim: HexDim, axis: Axis, j: int, s: int)
    requires
        !on_board(dim, p),
        is_entry(p, dim, axis, j),
        is_run(p, dim, axis, j, s),
    ensures
        wrapped(p, dim, axis) == Some(
            (walk_h(p, dim, axis, round_up(j, s)), walk_v(p, dim, axis, round_up(j, s))),
        ),
{
    reveal(wrapped);
    let (j2, s2) = choose|j2: int, s2: int|
        is_entry(p, dim, axis, j2) && is_run(p, dim, axis, j2, s2);
    if j2 < j {
        assert(!walk_on_board(p, dim, axis, j2));
    } else if j < j2 {
        assert(!walk_on_board(p, dim, axis, j));
    }
    if s2 < s {
        assert(walk_on_board(p, dim, axis, j + s2));
    } else if s < s2 {
        assert(walk_on_board(p, dim, axis, j + s));
    }
}

/// Whether the cell `u` steps from `p` against `d` lies on the board.
pub open spec fn back_on_board(dim: HexDim, p: HexPoint, d: Dir, u: int) -> bool {
    line_on_board(dim, p, d, -u)
}

/// Going back from `p` (on the board) against `d`, the board ends somewhere:
/// the cells `0, 1, …, s - 1` steps back are on it and `s` steps back is not.
pub proof fn lemma_line_run(p: HexPoint, d: Dir, dim: HexDim, t: int) -> (s: int)
    requires
        board_fits(dim),
        1 <= t <= dim.h + dim.v + 2,
        forall|u: int| 0 <= u < t ==> #[trigger] back_on_board(dim, p, d, u),
    ensures
        t <= s,
        forall|u: int| 0 <= u < s ==> #[trigger] back_on_board(dim, p, d, u),
        !back_on_board(dim, p, d, s),
    decreases dim.h + dim.v + 2 - t,
{
    if !back_on_board(dim, p, d, t) {
        t
    } else {
        if t == dim.h + dim.v + 2 {
            assert(back_on_board(dim, p, d, 0));
            assert(line_h(p, d, 0) == p.h);
            assert(line_v(p, d, 0) == p.v);
            match d {
                Dir::U => {
                    assert(line_h(p, d, -t) == p.h);
                    assert(line_v(p, d, -t) == p.v + t);
                },
                Dir::D => {
                    assert(line_h(p, d, -t) == p.h);
                    assert(line_v(p, d, -t) == p.v - t);
                },
                Dir::UR | Dir::DR => assert(line_h(p, d, -t) == p.h - t),
                Dir::UL | Dir::DL => assert(line_h(p, d, -t) == p.h + t),
            }
        }
        lemma_line_run(p, d, dim, t + 1)
    }
}

/// A step off the board from `p` wraps to the far end of the board along the
/// line through `p`: `s - 1` steps back, where `s` is the board's length
/// along that line.
pub proof fn lemma_wrap_from_line(p: HexPoint, d: Dir, dim: HexDim, s: int)
    requires
        board_fits(dim),
        1 <= s,
        forall|u: int| 0 <= u < s ==> #[trigger] back_on_board(dim, p, d, u),
        !back_on_board(dim, p, d, s),
        !on_board(dim, translated(p, d, 1)),
    ensures
        wrap_destination_of(p, d, dim) == Some((line_h(p, d, 1 - s), line_v(p, d, 1 - s))),
{
    let n = translated(p, d, 1);
    let axis = axis_of(d);
    assert(back_on_board(dim, p, d, 0));
    assert(on_board(dim, p));
    assert forall|i: int|
        walk_h(n, dim, axis, i) == line_h(p, d, 1 - i) && walk_v(n, dim, axis, i) == line_v(
            p,
            d,
            1 - i,
        ) by {
        lemma_walk_is_line(p, d, dim, i);
    }
    assert(is_entry(n, dim, axis, 1)) by {
        assert(walk_on_board(n, dim, axis, 1) == back_on_board(dim, p, d, 0));
        assert forall|k: int| 0 <= k < 1 implies !#[trigger] walk_on_board(n, dim, axis, k)
            && walk_same_problems(n, dim, axis, k) by {
            lemma_moved_back(p.h as int, p.v as int, d, 1, 0);
        }
    }
    assert(is_run(n, dim, axis, 1, s)) by {
        assert forall|t: int| 1 <= t < 1 + s implies #[trigger] walk_on_board(
            n,
            dim,
            axis,
            t,
        ) by {
            assert(back_on_board(dim, p, d, t - 1));
        }
        assert(walk_on_board(n, dim, axis, 1 + s) == back_on_board(dim, p, d, s));
    }
    assert(round_up(1, s) == s) by {
        assert((1 + s - 1) / s == 1) by (nonlinear_arith)
            requires
                s >= 1,
        ;
    }
    lemma_wrapped_is(n, dim, axis, 1, s);
}

/// Wrapping is undone by wrapping back: if a step from `p` in `d` leaves the
/// board, it wraps to a cell `q` on the board (it always wraps somewhere),
/// and a step from `q` in the opposite direction leaves the board and wraps
/// back to `p`.
#[verifier::rlimit(40)]
pub proof fn lemma_wrap_destination_symmetric(p: HexPoint, d: Dir, dim: HexDim)
    requires
        board_fits(dim),
        on_board(dim, p),
        !on_board(dim, translated(p, d, 1)),
    ensures
        wrap_destination_of(p, d, dim) is Some,
        ({
            let (qh, qv) = wrap_destination_of(p, d, dim)->0;
            let q = HexPoint { h: qh as isize, v: qv as isize };
            &&& on_board(dim, q)
            &&& !on_board(dim, translated(q, opposite(d), 1))
            &&& wrap_destination_of(q, opposite(d), dim) == Some((p.h as int, p.v as int))
        }),
{
    assert(back_on_board(dim, p, d, 0));
    let s = lemma_line_run(p, d, dim, 1);
    lemma_wrap_from_line(p, d, dim, s);
    let qh = line_h(p, d, 1 - s);
    let qv = line_v(p, d, 1 - s);
    assert(back_on_board(dim, p, d, s - 1));
    let q = HexPoint { h: qh as isize, v: qv as isize };
    assert(on_board(dim, q));
    let e = opposite(d);
    assert forall|c: int|
        line_h(q, e, c) == line_h(p, d, 1 - s - c) && line_v(q, e, c) == line_v(p, d, 1 - s - c)
        by {
        lemma_moved_back(p.h as int, p.v as int, d, 1 - s, c);
    }
    assert forall|u: int| 0 <= u < s implies #[trigger] back_on_board(dim, q, e, u) by {
        assert(back_on_board(dim, p, d, s - 1 - u));
    }
    assert(!back_on_board(dim, q, e, s)) by {
        assert(line_h(q, e, -s) == line_h(p, d, 1));
        assert(line_v(q, e, -s) == line_v(p, d, 1));
    }
    assert(!on_board(dim, translated(q, e, 1))) by {
        assert(line_h(q, e, 1) == line_h(p, d, -s));
        assert(line_v(q, e, 1) == line_v(p, d, -s));
        assert(!back_on_board(dim, p, d, s));
    }
    lemma_wrap_from_line(q, e, dim, s);
    assert(line_h(q, e, 1 - s) == line_h(p, d, 0));
    assert(line_v(q, e, 1 - s) == line_v(p, d, 0));
}


/// The distance between two cells in steps: with `h` and [`skew`] as the
/// coordinates, the largest of the changes of `h`, of `skew` and of their
/// sum.
pub open spec fn hex_distance(p: HexPoint, q: HexPoint) -> int {
    let dq = q.h - p.h;
    let dr = skew(q.h as int, q.v as int) - skew(p.h as int, p.v as int);
    vstd::math::max3(abs(dq), abs(dr), abs(dq + dr))
}

/// A cell and radius small enough that every cell of the neighborhood can
/// be computed in `isize`.
pub open spec fn neighborhood_fits(p: HexPoint, radius: int) -> bool {
    &&& -(isize::MAX / 8) <= p.h <= isize::MAX / 8
    &&& -(isize::MAX / 8) <= p.v <= isize::MAX / 8
    &&& 0 <= radius <= isize::MAX / 8
}

/// The cell `a` steps from `p` in the direction at position `k`, then `b`
/// steps in the next direction clockwise: walking the sector between the two.
pub open spec fn sector_cell(p: HexPoint, k: int, a: int, b: int) -> HexPoint {
    translated(translated(p, dir_at(k), a), dir_at(k + 1), b)
}

/// A sector walk of the neighborhood of `radius`: at least one step in the
/// first direction, and fewer than `radius` in all.
pub open spec fn sector_valid(radius: int, k: int, a: int, b: int) -> bool {
    0 <= k < 6 && 1 <= a && 0 <= b && a + b < radius
}

/// `(k2, a2, b2)` is walked before `(k, a, b)`.
pub open spec fn walked_before(k2: int, a2: int, b2: int, k: int, a: int, b: int) -> bool {
    k2 < k || (k2 == k && (a2 < a || (a2 == a && b2 < b)))
}

/// The change of `h` of a sector walk.
spec fn sector_dh(k: int, a: int, b: int) -> int {
    if k == 0 {
        b
    } else if k == 1 {
        a + b
    } else if k == 2 {
        a
    } else if k == 3 {
        -b
    } else if k == 4 {
        -a - b
    } else {
        -a
    }
}

/// The change of [`skew`] of a sector walk.
spec fn sector_dr(k: int, a: int, b: int) -> int {
    if k == 0 {
        -a - b
    } else if k == 1 {
        -a
    } else if k == 2 {
        b
    } else if k == 3 {
        a + b
    } else if k == 4 {
        a
    } else {
        -b
    }
}

/// A cell is its column and its [`skew`].
proof fn lemma_skew_determines(p: HexPoint, q: HexPoint)
    requires
        p.h == q.h,
        skew(p.h as int, p.v as int) == skew(q.h as int, q.v as int),
    ensures
        p == q,
{
}

/// Where a sector walk leads, in `h` and [`skew`].
proof fn lemma_sector_cell(p: HexPoint, k: int, a: int, b: int)
    requires
        neighborhood_fits(p, a + b + 1),
        0 <= k < 6,
        0 <= a,
        0 <= b,
    ensures
        sector_cell(p, k, a, b).h == p.h + sector_dh(k, a, b),
        skew(sector_cell(p, k, a, b).h as int, sector_cell(p, k, a, b).v as int) == skew(
            p.h as int,
            p.v as int,
        ) + sector_dr(k, a, b),
        translate_fits(p, dir_at(k), a),
        translate_fits(translated(p, dir_at(k), a), dir_at(k + 1), b),
{
    let branch = translated(p, dir_at(k), a);
    assert(moved_h(p.h as int, dir_at(k), a) / 2 <= isize::MAX / 4);
    assert(moved_h(p.h as int, dir_at(k), a) / 2 >= -(isize::MAX / 4) - 1);
    assert(-(isize::MAX / 4) - 2 <= skew(p.h as int, p.v as int) <= isize::MAX / 4 + 1);
    assert(-(isize::MAX / 2) <= branch.v <= isize::MAX / 2);
    assert(moved_h(branch.h as int, dir_at(k + 1), b) / 2 <= isize::MAX / 4);
    assert(moved_h(branch.h as int, dir_at(k + 1), b) / 2 >= -(isize::MAX / 4) - 1);
}

/// Distinct sector walks lead to distinct cells, none of them the center.
proof fn lemma_sector_distinct(p: HexPoint, radius: int, k: int, a: int, b: int, k2: int, a2: int, b2: int)
    requires
        neighborhood_fits(p, radius),
        sector_valid(radius, k, a, b),
        sector_valid(radius, k2, a2, b2),
    ensures
        sector_cell(p, k, a, b) != p,
        sector_cell(p, k, a, b) == sector_cell(p, k2, a2, b2) ==> k == k2 && a == a2 && b == b2,
{
    lemma_sector_cell(p, k, a, b);
    lemma_sector_cell(p, k2, a2, b2);
}

/// A sector walk leads to a cell at the distance of its steps; every other
/// cell than the center is led to by one.
proof fn lemma_sector_distance(p: HexPoint, q: HexPoint, radius: int)
    requires
        neighborhood_fits(p, radius),
        q != p,
        hex_distance(p, q) < radius,
    ensures
        exists|k: int, a: int, b: int|
            sector_valid(radius, k, a, b) && q == #[trigger] sector_cell(p, k, a, b),
{
    let dq = q.h - p.h;
    let dr = skew(q.h as int, q.v as int) - skew(p.h as int, p.v as int);
    let (k, a, b) = if dq >= 0 && dr < 0 && dq + dr < 0 {
        (0int, -(dq + dr), dq)
    } else if dq > 0 && dr < 0 {
        (1int, -dr, dq + dr)
    } else if dq > 0 {
        (2int, dq, dr)
    } else if dr > 0 && dq + dr > 0 {
        (3int, dq + dr, -dq)
    } else if dq < 0 && dr > 0 {
        (4int, dr, -(dq + dr))
    } else {
        (5int, -dq, -dr)
    };
    if dq == 0 && dr == 0 {
        lemma_skew_determines(p, q);
    }
    assert(sector_valid(radius, k, a, b));
    lemma_sector_cell(p, k, a, b);
    lemma_skew_determines(q, sector_cell(p, k, a, b));
}

/// The cells a sector walk leads to are closer than `radius`.
proof fn lemma_sector_close(p: HexPoint, radius: int, k: int, a: int, b: int)
    requires
        neighborhood_fits(p, radius),
        sector_valid(radius, k, a, b),
    ensures
        hex_distance(p, sector_cell(p, k, a, b)) == a + b,
{
    lemma_sector_cell(p, k, a, b);
}

/// `q` is a cell that a sector walk before `(k, a, b)` leads to.
pub open spec fn walked_cell(p: HexPoint, radius: int, q: HexPoint, k: int, a: int, b: int) -> bool {
    exists|k2: int, a2: int, b2: int|
        sector_valid(radius, k2, a2, b2) && walked_before(k2, a2, b2, k, a, b) && q
            == #[trigger] sector_cell(p, k2, a2, b2)
}

/// What was walked before a walk is walked before a later one too, and the
/// walks past the end of a row or of a sector are no walks at all.
proof fn lemma_walked_later(
    p: HexPoint,
    radius: int,
    q: HexPoint,
    k: int,
    a: int,
    b: int,
    k3: int,
    a3: int,
    b3: int,
)
    requires
        walked_cell(p, radius, q, k, a, b),
        walked_before(k, a, b, k3, a3, b3) || (k == k3 && a == a3 && b == b3) || (k3 == k && a3
            == a + 1 && b3 == 0 && b >= radius - a) || (k3 == k + 1 && a3 == 1 && b3 == 0 && a
            >= radius - 1),
    ensures
        walked_cell(p, radius, q, k3, a3, b3),
{
    let (k2, a2, b2) = choose|k2: int, a2: int, b2: int|
        sector_valid(radius, k2, a2, b2) && walked_before(k2, a2, b2, k, a, b) && q
            == #[trigger] sector_cell(p, k2, a2, b2);
    assert(walked_before(k2, a2, b2, k3, a3, b3));
}

impl HexPoint {
    /// All cells within `radius` steps, this one included, each once, in no
    /// particular order.
    #[verifier::rlimit(60)]
    pub fn neighborhood(self, radius: usize) -> (cells: Vec<HexPoint>)
        requires
            neighborhood_fits(self, radius as int + 1),
        ensures
            cells@.len() > 0 && cells@[0] == self,
            forall|i: int, j: int| 0 <= i < j < cells@.len() ==> #[trigger] cells@[i] != #[trigger] cells@[j],
            forall|q: HexPoint| cells@.contains(q) <==> q == self || hex_distance(self, q) <= radius,
    {
        let p = self;
        // the steps in each direction run up to `radius` inclusive
        let bound = radius + 1;
        let mut out: Vec<HexPoint> = Vec::new();
        out.push(p);
        let dirs = Dir::iter();
        let mut k: usize = 0;
        while k < 6
            invariant
                neighborhood_fits(p, bound as int),
                dirs@.len() == 6,
                forall|i: int| 0 <= i < 6 ==> #[trigger] dirs@[i] == dir_at(i),
                0 <= k <= 6,
                out@.len() > 0 && out@[0] == p,
                forall|i: int, j: int| 0 <= i < j < out@.len() ==> #[trigger] out@[i] != #[trigger] out@[j],
                forall|i: int| 0 < i < out@.len() ==> walked_cell(p, bound as int, #[trigger] out@[i], k as int, 1, 0),
                forall|k2: int, a2: int, b2: int|
                    sector_valid(bound as int, k2, a2, b2) && walked_before(k2, a2, b2, k as int, 1, 0)
                        ==> out@.contains(#[trigger] sector_cell(p, k2, a2, b2)),
            decreases 6 - k,
        {
            let dir = dirs[k];
            let dir2 = dir.next_clockwise();
            assert(dir2 == dir_at(k + 1));
            let mut r: usize = 1;
            while r < bound
                invariant
                    neighborhood_fits(p, bound as int),
                    0 <= k < 6,
                    dir == dir_at(k as int),
                    dir2 == dir_at(k + 1),
                    1 <= r,
                    r <= bound || r == 1,
                    out@.len() > 0 && out@[0] == p,
                    forall|i: int, j: int| 0 <= i < j < out@.len() ==> #[trigger] out@[i] != #[trigger] out@[j],
                    forall|i: int| 0 < i < out@.len() ==> walked_cell(p, bound as int, #[trigger] out@[i], k as int, r as int, 0),
                    forall|k2: int, a2: int, b2: int|
                        sector_valid(bound as int, k2, a2, b2) && walked_before(k2, a2, b2, k as int, r as int, 0)
                            ==> out@.contains(#[trigger] sector_cell(p, k2, a2, b2)),
                decreases bound - r,
            {
                proof {
                    lemma_sector_cell(p, k as int, r as int, 0);
                }
                let branch = p.translate(dir, r);
                let mut r2: usize = 0;
                while r2 < bound - r
                    invariant
                        neighborhood_fits(p, bound as int),
                        0 <= k < 6,
                        dir2 == dir_at(k + 1),
                        1 <= r < bound,
                        0 <= r2 <= bound - r,
                        branch == translated(p, dir_at(k as int), r as int),
                        out@.len() > 0 && out@[0] == p,
                        forall|i: int, j: int| 0 <= i < j < out@.len() ==> #[trigger] out@[i] != #[trigger] out@[j],
                        forall|i: int| 0 < i < out@.len() ==> walked_cell(p, bound as int, #[trigger] out@[i], k as int, r as int, r2 as int),
                        forall|k2: int, a2: int, b2: int|
                            sector_valid(bound as int, k2, a2, b2) && walked_before(k2, a2, b2, k as int, r as int, r2 as int)
                                ==> out@.contains(#[trigger] sector_cell(p, k2, a2, b2)),
                    decreases bound - r - r2,
                {
                    proof {
                        lemma_sector_cell(p, k as int, r as int, r2 as int);
                    }
                    let cell = if r2 == 0 {
                        branch
                    } else {
                        branch.translate(dir2, r2)
                    };
                    assert(cell == sector_cell(p, k as int, r as int, r2 as int));
                    let ghost before = out@;
                    proof {
                        lemma_sector_distinct(p, bound as int, k as int, r as int, r2 as int, k as int, r as int, r2 as int);
                        assert forall|i: int| 0 <= i < before.len() implies before[i] != cell by {
                            if i > 0 {
                                assert(walked_cell(p, bound as int, before[i], k as int, r as int, r2 as int));
                                let (k2, a2, b2) = choose|k2: int, a2: int, b2: int|
                                    sector_valid(bound as int, k2, a2, b2) && walked_before(k2, a2, b2, k as int, r as int, r2 as int)
                                        && before[i] == #[trigger] sector_cell(p, k2, a2, b2);
                                lemma_sector_distinct(p, bound as int, k as int, r as int, r2 as int, k2, a2, b2);
                            }
                        }
                    }
                    out.push(cell);
                    proof {
                        assert forall|i: int| 0 < i < out@.len() implies walked_cell(p, bound as int, #[trigger] out@[i], k as int, r as int, r2 + 1) by {
                            if i < before.len() {
                                assert(out@[i] == before[i]);
                                assert(walked_cell(p, bound as int, before[i], k as int, r as int, r2 as int));
                                lemma_walked_later(p, bound as int, before[i], k as int, r as int, r2 as int, k as int, r as int, r2 + 1);
                            } else {
                                assert(out@[i] == sector_cell(p, k as int, r as int, r2 as int));
                                assert(walked_before(k as int, r as int, r2 as int, k as int, r as int, r2 + 1));
                            }
                        }
                        assert forall|k2: int, a2: int, b2: int|
                            sector_valid(bound as int, k2, a2, b2) && walked_before(k2, a2, b2, k as int, r as int, r2 + 1)
                                implies out@.contains(#[trigger] sector_cell(p, k2, a2, b2)) by {
                            if k2 == k && a2 == r && b2 == r2 {
                                assert(out@[before.len() as int] == cell);
                            } else {
                                assert(before.contains(sector_cell(p, k2, a2, b2)));
                                let t = choose|t: int| 0 <= t < before.len() && before[t] == sector_cell(p, k2, a2, b2);
                                assert(out@[t] == before[t]);
                            }
                        }
                    }
                    r2 = r2 + 1;
                }
                proof {
                    assert forall|i: int| 0 < i < out@.len() implies walked_cell(p, bound as int, #[trigger] out@[i], k as int, r + 1, 0) by {
                        lemma_walked_later(p, bound as int, out@[i], k as int, r as int, r2 as int, k as int, r + 1, 0);
                    }
                }
                r = r + 1;
            }
            proof {
                assert forall|i: int| 0 < i < out@.len() implies walked_cell(p, bound as int, #[trigger] out@[i], k + 1, 1, 0) by {
                    lemma_walked_later(p, bound as int, out@[i], k as int, r as int, 0, k + 1, 1, 0);
                }
            }
            k = k + 1;
        }
        proof {
            assert forall|q: HexPoint| out@.contains(q) <==> q == p || hex_distance(p, q) < bound by {
                if out@.contains(q) && q != p {
                    let i = choose|i: int| 0 <= i < out@.len() && out@[i] == q;
                    assert(i != 0);
                    assert(walked_cell(p, bound as int, out@[i], 6, 1, 0));
                    let (k2, a2, b2) = choose|k2: int, a2: int, b2: int|
                        sector_valid(bound as int, k2, a2, b2) && walked_before(k2, a2, b2, 6, 1, 0)
                            && out@[i] == #[trigger] sector_cell(p, k2, a2, b2);
                    lemma_sector_close(p, bound as int, k2, a2, b2);
                }
                if q == p {
                    assert(out@[0] == p);
                } else if hex_distance(p, q) < bound {
                    lemma_sector_distance(p, q, bound as int);
                    let (k2, a2, b2) = choose|k2: int, a2: int, b2: int|
                        sector_valid(bound as int, k2, a2, b2) && q == #[trigger] sector_cell(p, k2, a2, b2);
                    assert(walked_before(k2, a2, b2, 6, 1, 0));
                }
            }
        }
        out
    }
}


/// The direction a random number from 0 to 5 stands for.
pub open spec fn dir_numbered(n: int) -> Dir {
    if n == 0 {
        Dir::U
    } else if n == 1 {
        Dir::D
    } else if n == 2 {
        Dir::UL
    } else if n == 3 {
        Dir::UR
    } else if n == 4 {
        Dir::DL
    } else {
        Dir::DR
    }
}

impl Dir {
    /// The direction that the random number `n` (0 to 5) stands for.
    pub fn numbered(n: usize) -> (d: Dir)
        requires
            n < 6,
        ensures
            d == dir_numbered(n as int),
    {
        match n {
            0 => Dir::U,
            1 => Dir::D,
            2 => Dir::UL,
            3 => Dir::UR,
            4 => Dir::DL,
            _ => Dir::DR,
        }
    }

    /// A random direction, each as likely.
    pub fn random(rng: &mut ThreadRng) -> (d: Dir)
        ensures
            exists|n: int| 0 <= n < 6 && d == #[trigger] dir_numbered(n),
    {
        let n = gen_below(rng, 6);
        let d = Dir::numbered(n);
        assert(d == dir_numbered(n as int));
        d
    }
}


/// One step from `p` in `d`, wrapping around the board: the cell it leads
/// to, and whether it wrapped.
pub open spec fn wrap_step(p: HexPoint, d: Dir, dim: HexDim) -> (HexPoint, bool) {
    let next = translated(p, d, 1);
    if on_board(dim, next) {
        (next, false)
    } else {
        let (h, v) = wrap_destination_of(p, d, dim)->0;
        (HexPoint { h: h as isize, v: v as isize }, true)
    }
}

/// A step from a cell on the board stays on the board.
pub proof fn lemma_wrap_step_on_board(p: HexPoint, d: Dir, dim: HexDim)
    requires
        board_fits(dim),
        on_board(dim, p),
    ensures
        on_board(dim, wrap_step(p, d, dim).0),
{
    if !on_board(dim, translated(p, d, 1)) {
        lemma_wrap_destination_symmetric(p, d, dim);
    }
}

impl HexPoint {
    /// One step in `dir`, wrapping around the board's edges: the cell it
    /// leads to, and whether it wrapped.
    pub fn explicit_wrapping_translate(self, dir: Dir, board_dim: HexDim) -> (r: (HexPoint, bool))
        requires
            board_fits(board_dim),
            on_board(board_dim, self),
        ensures
            r == wrap_step(self, dir, board_dim),
            on_board(board_dim, r.0),
    {
        proof {
            lemma_wrap_step_on_board(self, dir, board_dim);
        }
        let next = self.translate(dir, 1);
        assert(next == translated(self, dir, 1));
        if board_dim.contains(next) {
            (next, false)
        } else {
            proof {
                lemma_wrap_destination_symmetric(self, dir, board_dim);
            }
            match self.wrap_destination(dir, board_dim) {
                Some(q) => (q, true),
                None => (next, false),
            }
        }
    }
}


/// Half a turn twice is no turn; six sixths of a turn clockwise are a full
/// turn; and the opposite of a direction is the one three sixths on.
pub proof fn lemma_dir_cycles(d: Dir)
    ensures
        opposite(opposite(d)) == d,
        dir_at(dir_index(d) + 6) == d,
        dir_at(dir_index(d)) == d,
        opposite(d) != d,
{
}

/// The turns a heading allows agree with the turns a path makes: leaving a
/// cell in one of the blunt turns of the heading it came in with is a blunt
/// turn, one of the sharp turns a sharp turn, and going on is straight.
#[verifier::rlimit(40)]
pub proof fn lemma_turns_agree(d: Dir)
    ensures
        turn_of(opposite(d), dir_at(dir_index(d) + 5)) is Some && turn_of(opposite(d), dir_at(dir_index(d) + 5))->0 is Blunt,
        turn_of(opposite(d), dir_at(dir_index(d) + 1)) is Some && turn_of(opposite(d), dir_at(dir_index(d) + 1))->0 is Blunt,
        turn_of(opposite(d), dir_at(dir_index(d) + 4)) is Some && turn_of(opposite(d), dir_at(dir_index(d) + 4))->0 is Sharp,
        turn_of(opposite(d), dir_at(dir_index(d) + 2)) is Some && turn_of(opposite(d), dir_at(dir_index(d) + 2))->0 is Sharp,
        turn_of(opposite(d), d) == Some(TurnType::Straight),
        turn_of(d, d) is None,
{
    match d {
        Dir::U => {},
        Dir::UR => {},
        Dir::DR => {},
        Dir::D => {},
        Dir::DL => {},
        Dir::UL => {},
    }
}

} // verus!
