//! Portals: edges between two cells that do something other than let a
//! snake pass, such as teleporting it elsewhere.

use vstd::prelude::*;

use crate::hex::{
    board_fits, moved_h, moved_v, on_board, opposite, translated, Dir, HexDim, HexPoint,
};

verus! {

/// What happens to a snake crossing an edge.
#[derive(Copy, Clone, PartialEq, Eq, Debug, Structural)]
pub enum Behavior {
    Die,
    TeleportTo(HexPoint, Dir),
    WrapAround,
    PassThrough,
    Nothing,
    Unreachable,
}

/// An edge is uniquely identified by the two hexagons it touches.
#[derive(Copy, Clone, PartialEq, Eq, Debug, Structural)]
pub struct Edge {
    pub a: HexPoint,
    pub b: HexPoint,
    /// when passing from a to b
    pub behavior_ab: Behavior,
    /// when passing from b to a
    pub behavior_ba: Behavior,
}

/// The built-in ways a portal lays its edges out on a board of given
/// dimensions (a closure can lay out any other, see [`EdgeSource`]).
#[derive(Copy, Clone, PartialEq, Eq, Debug, Structural)]
pub enum EdgeLayout {
    /// Entering `pos` from any side teleports to the same side of `dest`,
    /// heading on in the same direction.
    Cell { pos: HexPoint, dest: HexPoint },
    /// Entering `pos` from any side teleports to the same side of `dest`,
    /// heading back out through that side.
    CellInverse { pos: HexPoint, dest: HexPoint },
    /// The center cell's sides lead to the board's borders and back.
    Sun,
}

/// A point one step from which in every direction fits in `isize`.
pub open spec fn step_fits(p: HexPoint) -> bool {
    isize::MIN < p.h < isize::MAX && isize::MIN < p.v < isize::MAX
}

/// The center of a board: half its dimensions, rounded towards zero.
pub open spec fn center_of(dim: HexDim) -> HexPoint {
    HexPoint { h: (dim.h / 2) as isize, v: (dim.v / 2) as isize }
}

/// The last cell on the board going from `p` in `d`.
pub open spec fn is_border_from(dim: HexDim, p: HexPoint, d: Dir, q: HexPoint) -> bool {
    exists|n: int|
        #![trigger translated(p, d, n)]
        0 <= n && q == translated(p, d, n) && !on_board(dim, translated(p, d, n + 1)) && forall|
            k: int,
        |
            0 <= k <= n ==> #[trigger] on_board(dim, translated(p, d, k))
}

pub open spec fn dir_seq() -> Seq<Dir> {
    seq![Dir::U, Dir::UR, Dir::DR, Dir::D, Dir::DL, Dir::UL]
}

/// The edges of a [`EdgeLayout::Cell`] portal: for each direction, in
/// clockwise order, the edge into `pos` from that side.
pub open spec fn cell_edges(pos: HexPoint, dest: HexPoint) -> Seq<Edge> {
    dir_seq().map_values(
        |d: Dir|
            Edge {
                a: translated(pos, opposite(d), 1),
                b: pos,
                behavior_ab: Behavior::TeleportTo(translated(dest, d, 1), d),
                behavior_ba: Behavior::Nothing,
            },
    )
}

/// The edges of a [`EdgeLayout::CellInverse`] portal: for each direction,
/// in clockwise order, the edge into `pos` from the neighbor that way.
pub open spec fn cell_inverse_edges(pos: HexPoint, dest: HexPoint) -> Seq<Edge> {
    dir_seq().map_values(
        |d: Dir|
            Edge {
                a: translated(pos, d, 1),
                b: pos,
                behavior_ab: Behavior::TeleportTo(translated(dest, d, 1), d),
                behavior_ba: Behavior::Nothing,
            },
    )
}

/// The behavior of the first edge between `from` and `to`, in the direction
/// from `from` to `to`.
pub open spec fn check_edges(edges: Seq<Edge>, from: HexPoint, to: HexPoint) -> Option<Behavior>
    decreases edges.len(),
{
    if edges.len() == 0 {
        None
    } else if edges[0].a == from && edges[0].b == to {
        Some(edges[0].behavior_ab)
    } else if edges[0].b == from && edges[0].a == to {
        Some(edges[0].behavior_ba)
    } else {
        check_edges(edges.drop_first(), from, to)
    }
}

/// What lays a portal's edges out on a board of given dimensions: one of the
/// built-in [`EdgeLayout`]s, or any closure from dimensions to edges.
pub trait EdgeSource {
    /// Whether the edges can be laid out on a board of dimensions `dim`.
    spec fn can_lay_out(&self, dim: HexDim) -> bool;

    /// Whether `edges` is what laying out on a board of dimensions `dim` may
    /// give.
    spec fn lays_out(&self, dim: HexDim, edges: Seq<Edge>) -> bool;

    /// The edges on a board of dimensions `dim`.
    fn lay_out(&self, dim: HexDim) -> (edges: Vec<Edge>)
        requires
            self.can_lay_out(dim),
        ensures
            self.lays_out(dim, edges@),
    ;
}

impl<F: Fn(HexDim) -> Vec<Edge>> EdgeSource for F {
    open spec fn can_lay_out(&self, dim: HexDim) -> bool {
        self.requires((dim,))
    }

    open spec fn lays_out(&self, dim: HexDim, edges: Seq<Edge>) -> bool {
        exists|e: Vec<Edge>| e@ == edges && #[trigger] self.ensures((dim,), e)
    }

    fn lay_out(&self, dim: HexDim) -> (edges: Vec<Edge>) {
        (self)(dim)
    }
}

pub struct Portal<L: EdgeSource> {
    /// the board dimension that current edges are adapted to
    pub board_dim: HexDim,
    /// lays the edges out for a board of given dimensions
    pub get_edges: L,
    pub edges: Vec<Edge>,
}

impl<L: EdgeSource> Portal<L> {
    /// The behavior of crossing from `from` to `to`, if this portal has an
    /// edge there (the first one listed, where it has several).
    pub fn check(&self, from: HexPoint, to: HexPoint) -> (r: Option<Behavior>)
        ensures
            r == check_edges(self.edges@, from, to),
    {
        let mut i: usize = 0;
        assert(self.edges@.skip(0) =~= self.edges@);
        while i < self.edges.len()
            invariant
                0 <= i <= self.edges@.len(),
                check_edges(self.edges@, from, to) == check_edges(
                    self.edges@.skip(i as int),
                    from,
                    to,
                ),
            decreases self.edges@.len() - i,
        {
            let edge = self.edges[i];
            assert(self.edges@.skip(i as int)[0] == edge);
            assert(self.edges@.skip(i as int).drop_first() =~= self.edges@.skip(i + 1));
            if edge.a == from && edge.b == to {
                return Some(edge.behavior_ab);
            } else if edge.b == from && edge.a == to {
                return Some(edge.behavior_ba);
            }
            i = i + 1;
        }
        assert(self.edges@.skip(i as int).len() == 0);
        None
    }
}

/// The last cell on the board going from `p` in `d`.
pub open spec fn border_from(dim: HexDim, p: HexPoint, d: Dir) -> HexPoint {
    choose|q: HexPoint| is_border_from(dim, p, d, q)
}

/// The edges of the [`EdgeLayout::Sun`] portal: for each direction, in
/// clockwise order, an edge from the center's side teleporting to the border
/// cell in that direction, and one leaving that border cell teleporting
/// back next to the center.
pub open spec fn sun_edges(dim: HexDim) -> Seq<Edge> {
    let center = center_of(dim);
    Seq::new(
        12,
        |i: int|
            {
                let d = dir_seq()[i / 2];
                let outer = border_from(dim, center, d);
                if i % 2 == 0 {
                    Edge {
                        a: translated(center, d, 1),
                        b: center,
                        behavior_ab: Behavior::TeleportTo(outer, opposite(d)),
                        behavior_ba: Behavior::Nothing,
                    }
                } else {
                    Edge {
                        a: outer,
                        b: translated(outer, d, 1),
                        behavior_ab: Behavior::TeleportTo(translated(center, d, 1), d),
                        behavior_ba: Behavior::Unreachable,
                    }
                }
            },
    )
}

/// Whether the layout's edges can be computed for a board: the cells of a
/// [`EdgeLayout::Cell`] portal are not at the very limits of `isize`; the
/// [`EdgeLayout::Sun`] needs a non-empty board of reasonable size.
pub open spec fn layout_fits(layout: EdgeLayout, dim: HexDim) -> bool {
    match layout {
        EdgeLayout::Cell { pos, dest } => step_fits(pos) && step_fits(dest),
        EdgeLayout::CellInverse { pos, dest } => step_fits(pos) && step_fits(dest),
        EdgeLayout::Sun => board_fits(dim) && dim.h >= 1 && dim.v >= 1,
    }
}

/// The edges a layout has on a board of dimensions `dim`.
pub open spec fn layout_edges(layout: EdgeLayout, dim: HexDim) -> Seq<Edge> {
    match layout {
        EdgeLayout::Cell { pos, dest } => cell_edges(pos, dest),
        EdgeLayout::CellInverse { pos, dest } => cell_inverse_edges(pos, dest),
        EdgeLayout::Sun => sun_edges(dim),
    }
}

/// Steps taken along a line from a cell on the board to another cell on the
/// board are fewer than the board's width plus its height.
proof fn lemma_steps_on_board(dim: HexDim, p: HexPoint, d: Dir, n: int)
    requires
        board_fits(dim),
        on_board(dim, p),
        0 <= n <= dim.h + dim.v + 1,
        on_board(dim, translated(p, d, n)),
    ensures
        n < dim.h + dim.v,
{
    assert(translated(p, d, n).h == moved_h(p.h as int, d, n));
    assert(translated(p, d, n).v == moved_v(p.h as int, p.v as int, d, n));
}

impl HexPoint {
    /// The last cell on the board going from this cell (on the board) in
    /// `dir`.
    pub fn find_border(self, dir: Dir, board_dim: HexDim) -> (q: HexPoint)
        requires
            board_fits(board_dim),
            on_board(board_dim, self),
        ensures
            is_border_from(board_dim, self, dir, q),
            on_board(board_dim, q),
    {
        let mut x = self;
        let ghost mut n: int = 0;
        assert(x == translated(self, dir, 0));
        while board_dim.contains(x.translate(dir, 1))
            invariant
                board_fits(board_dim),
                on_board(board_dim, self),
                0 <= n < board_dim.h + board_dim.v,
                x == translated(self, dir, n),
                forall|k: int| 0 <= k <= n ==> #[trigger] on_board(board_dim, translated(self, dir, k)),
            decreases board_dim.h + board_dim.v - n,
        {
            proof {
                crate::hex::lemma_moved_add(self.h as int, self.v as int, dir, n, 1);
            }
            x = x.translate(dir, 1);
            proof {
                n = n + 1;
                lemma_steps_on_board(board_dim, self, dir, n);
            }
        }
        proof {
            crate::hex::lemma_moved_add(self.h as int, self.v as int, dir, n, 1);
            assert(translated(self, dir, n) == x);
        }
        x
    }
}

/// There is only one last cell on the board in a direction.
proof fn lemma_border_unique(dim: HexDim, p: HexPoint, d: Dir, q: HexPoint)
    requires
        is_border_from(dim, p, d, q),
    ensures
        border_from(dim, p, d) == q,
{
    let q2 = border_from(dim, p, d);
    assert(is_border_from(dim, p, d, q2));
    let n = choose|n: int|
        #![trigger translated(p, d, n)]
        0 <= n && q == translated(p, d, n) && !on_board(dim, translated(p, d, n + 1)) && forall|
            k: int,
        |
            0 <= k <= n ==> #[trigger] on_board(dim, translated(p, d, k));
    let n2 = choose|n: int|
        #![trigger translated(p, d, n)]
        0 <= n && q2 == translated(p, d, n) && !on_board(dim, translated(p, d, n + 1)) && forall|
            k: int,
        |
            0 <= k <= n ==> #[trigger] on_board(dim, translated(p, d, k));
    if n < n2 {
        assert(on_board(dim, translated(p, d, n + 1)));
    } else if n2 < n {
        assert(on_board(dim, translated(p, d, n2 + 1)));
    }
}

/// The edges of a layout on a board of dimensions `board_dim`.
pub fn layout_edges_on(layout: EdgeLayout, board_dim: HexDim) -> (edges: Vec<Edge>)
    requires
        layout_fits(layout, board_dim),
    ensures
        edges@ == layout_edges(layout, board_dim),
{
    let dirs = Dir::iter();
    let mut edges: Vec<Edge> = Vec::new();
    match layout {
        EdgeLayout::Cell { pos, dest } => {
            let mut k: usize = 0;
            while k < 6
                invariant
                    step_fits(pos),
                    step_fits(dest),
                    0 <= k <= 6,
                    dirs@ == dir_seq(),
                    edges@ == cell_edges(pos, dest).subrange(0, k as int),
                decreases 6 - k,
            {
                let dir = dirs[k];
                edges.push(
                    Edge {
                        a: pos.translate(dir.opposite(), 1),
                        b: pos,
                        behavior_ab: Behavior::TeleportTo(dest.translate(dir, 1), dir),
                        behavior_ba: Behavior::Nothing,
                    },
                );
                k = k + 1;
                assert(edges@ =~= cell_edges(pos, dest).subrange(0, k as int));
            }
            assert(cell_edges(pos, dest).subrange(0, 6) =~= cell_edges(pos, dest));
        },
        EdgeLayout::CellInverse { pos, dest } => {
            let mut k: usize = 0;
            while k < 6
                invariant
                    step_fits(pos),
                    step_fits(dest),
                    0 <= k <= 6,
                    dirs@ == dir_seq(),
                    edges@ == cell_inverse_edges(pos, dest).subrange(0, k as int),
                decreases 6 - k,
            {
                let dir = dirs[k];
                edges.push(
                    Edge {
                        a: pos.translate(dir, 1),
                        b: pos,
                        behavior_ab: Behavior::TeleportTo(dest.translate(dir, 1), dir),
                        behavior_ba: Behavior::Nothing,
                    },
                );
                k = k + 1;
                assert(edges@ =~= cell_inverse_edges(pos, dest).subrange(0, k as int));
            }
            assert(cell_inverse_edges(pos, dest).subrange(0, 6) =~= cell_inverse_edges(pos, dest));
        },
        EdgeLayout::Sun => {
            let center = HexPoint { h: board_dim.h / 2, v: board_dim.v / 2 };
            assert(center == center_of(board_dim));
            let mut k: usize = 0;
            while k < 6
                invariant
                    board_fits(board_dim),
                    board_dim.h >= 1,
                    board_dim.v >= 1,
                    center == center_of(board_dim),
                    0 <= k <= 6,
                    dirs@ == dir_seq(),
                    edges@ == sun_edges(board_dim).subrange(0, 2 * k),
                decreases 6 - k,
            {
                let dir = dirs[k];
                let outer = center.find_border(dir, board_dim);
                proof {
                    lemma_border_unique(board_dim, center, dir, outer);
                }
                let next_to_center = center.translate(dir, 1);
                edges.push(
                    Edge {
                        a: next_to_center,
                        b: center,
                        behavior_ab: Behavior::TeleportTo(outer, dir.opposite()),
                        behavior_ba: Behavior::Nothing,
                    },
                );
                edges.push(
                    Edge {
                        a: outer,
                        b: outer.translate(dir, 1),
                        behavior_ab: Behavior::TeleportTo(next_to_center, dir),
                        behavior_ba: Behavior::Unreachable,
                    },
                );
                proof {
                    let e = sun_edges(board_dim);
                    assert((2 * k) / 2 == k);
                    assert((2 * k + 1) / 2 == k);
                    assert(edges@[2 * k as int] == e[2 * k as int]);
                    assert(edges@[2 * k + 1] == e[2 * k + 1]);
                }
                k = k + 1;
                assert(edges@ =~= sun_edges(board_dim).subrange(0, 2 * k));
            }
            assert(sun_edges(board_dim).subrange(0, 12) =~= sun_edges(board_dim));
        },
    }
    edges
}

impl EdgeSource for EdgeLayout {
    open spec fn can_lay_out(&self, dim: HexDim) -> bool {
        layout_fits(*self, dim)
    }

    open spec fn lays_out(&self, dim: HexDim, edges: Seq<Edge>) -> bool {
        edges == layout_edges(*self, dim)
    }

    fn lay_out(&self, dim: HexDim) -> (edges: Vec<Edge>) {
        layout_edges_on(*self, dim)
    }
}

/// What [`Portal::update`] leaves of `before` for a board of dimensions
/// `board_dim`: the same way of laying edges out and the new dimensions; the
/// edges as they were where the dimensions did not change, else laid out
/// again for the new ones.
pub open spec fn updated<L: EdgeSource>(before: Portal<L>, board_dim: HexDim, after: Portal<L>) -> bool {
    &&& after.get_edges == before.get_edges
    &&& after.board_dim == board_dim
    &&& board_dim == before.board_dim ==> after.edges@ == before.edges@
    &&& board_dim != before.board_dim ==> before.get_edges.lays_out(board_dim, after.edges@)
}

/// Updating twice for the same board is updating once: the second update
/// changes nothing.
pub proof fn lemma_update_twice<L: EdgeSource>(
    p0: Portal<L>,
    p1: Portal<L>,
    p2: Portal<L>,
    board_dim: HexDim,
)
    requires
        updated(p0, board_dim, p1),
        updated(p1, board_dim, p2),
    ensures
        p2.get_edges == p1.get_edges,
        p2.board_dim == p1.board_dim,
        p2.edges@ == p1.edges@,
{
}

impl<L: EdgeSource> Portal<L> {
    /// A portal laid out for a 10 by 10 board until it learns the real one.
    pub fn new(get_edges: L) -> (portal: Portal<L>)
        requires
            get_edges.can_lay_out(HexPoint { h: 10, v: 10 }),
        ensures
            portal.board_dim == (HexPoint { h: 10, v: 10 }),
            portal.get_edges == get_edges,
            get_edges.lays_out(portal.board_dim, portal.edges@),
    {
        let board_dim = HexPoint { h: 10, v: 10 };
        let edges = get_edges.lay_out(board_dim);
        Portal { board_dim, get_edges, edges }
    }

    /// Lay the edges out again for a board of new dimensions.
    pub fn update(&mut self, board_dim: HexDim)
        requires
            old(self).get_edges.can_lay_out(board_dim),
        ensures
            updated(*old(self), board_dim, *final(self)),
    {
        if board_dim != self.board_dim {
            self.board_dim = board_dim;
            self.edges = self.get_edges.lay_out(board_dim);
        }
    }
}

impl Portal<EdgeLayout> {
    /// Entering `pos` from any side teleports to the same side of `dest`.
    pub fn cell(pos: HexPoint, dest: HexPoint) -> (portal: Portal<EdgeLayout>)
        requires
            step_fits(pos),
            step_fits(dest),
        ensures
            portal.board_dim == (HexPoint { h: 10, v: 10 }),
            portal.get_edges == (EdgeLayout::Cell { pos, dest }),
            portal.edges@ == cell_edges(pos, dest),
    {
        Portal::new(EdgeLayout::Cell { pos, dest })
    }

    /// Two cells whose sides lead into each other, each turning the snake
    /// back the way it came.
    pub fn cells_inverse(pos1: HexPoint, pos2: HexPoint) -> (portals: Vec<Portal<EdgeLayout>>)
        requires
            step_fits(pos1),
            step_fits(pos2),
        ensures
            portals@.len() == 2,
            portals@[0].get_edges == (EdgeLayout::CellInverse { pos: pos1, dest: pos2 }),
            portals@[0].edges@ == cell_inverse_edges(pos1, pos2),
            portals@[1].get_edges == (EdgeLayout::CellInverse { pos: pos2, dest: pos1 }),
            portals@[1].edges@ == cell_inverse_edges(pos2, pos1),
            portals@[0].board_dim == (HexPoint { h: 10, v: 10 }),
            portals@[1].board_dim == (HexPoint { h: 10, v: 10 }),
    {
        let first = Portal::new(EdgeLayout::CellInverse { pos: pos1, dest: pos2 });
        let second = Portal::new(EdgeLayout::CellInverse { pos: pos2, dest: pos1 });
        vec![first, second]
    }

    /// The center cell's sides lead out to the board's borders, and the
    /// borders lead back next to the center.
    pub fn sun_cell() -> (portal: Portal<EdgeLayout>)
        ensures
            portal.board_dim == (HexPoint { h: 10, v: 10 }),
            portal.get_edges == EdgeLayout::Sun,
            portal.edges@ == sun_edges(portal.board_dim),
    {
        Portal::new(EdgeLayout::Sun)
    }
}

} // verus!
