//! A screen for writing down a snake's moves by steering it: each press of a
//! direction key extends a path from the start, and the moves are recorded
//! as turns and waits, ready to be printed as a schedule.

use vstd::prelude::*;

use crate::hex::{opposite, translate_fits, translated, Dir, HexPoint};
use crate::key::{dir_bound_from, Controls, Key, KeyCode};

verus! {

/// A step of a snake's schedule: turn to a heading, or keep going for a
/// number of cells.
#[derive(Copy, Clone, PartialEq, Eq, Debug, Structural)]
pub enum Move {
    Turn(Dir),
    Wait(usize),
}

/// The recorded path and moves.
pub struct SnakeControlCreatorScreen {
    start: HexPoint,
    head: HexPoint,
    current_dir: Option<Dir>,
    path: Vec<HexPoint>,
    moves: Vec<Move>,
    controls: Controls,
}

pub struct CreatorView {
    pub start: HexPoint,
    pub head: HexPoint,
    pub current_dir: Option<Dir>,
    pub path: Seq<HexPoint>,
    pub moves: Seq<Move>,
    pub controls: Controls,
}

/// The head is far enough from the ends of `isize` to step in any
/// direction.
pub open spec fn can_step(p: HexPoint) -> bool {
    isize::MIN + 1 < p.h < isize::MAX - 1 && isize::MIN + 1 < p.v < isize::MAX - 1
}

/// The moves after a press of `dir`, heading `current` before it: a new
/// heading is a turn; the same heading waits one cell more.
pub open spec fn moves_after(moves: Seq<Move>, current: Option<Dir>, dir: Dir) -> Seq<Move> {
    if current == Some(dir) {
        if moves.len() > 0 && moves.last() is Wait {
            moves.update(moves.len() - 1, Move::Wait((moves.last()->Wait_0 + 1) as usize))
        } else {
            moves.push(Move::Wait(1))
        }
    } else {
        moves.push(Move::Turn(dir))
    }
}

impl View for SnakeControlCreatorScreen {
    type V = CreatorView;

    closed spec fn view(&self) -> CreatorView {
        CreatorView {
            start: self.start,
            head: self.head,
            current_dir: self.current_dir,
            path: self.path@,
            moves: self.moves@,
            controls: self.controls,
        }
    }
}

impl SnakeControlCreatorScreen {
    /// Every wait is shorter than the path, and the path ends at the head.
    pub closed spec fn wf(&self) -> bool {
        &&& self.path@.len() >= 1
        &&& self.path@.last() == self.head
        &&& forall|i: int| 0 <= i < self.moves@.len() && (#[trigger] self.moves@[i]) is Wait ==> self.moves@[i]->Wait_0
            < self.path@.len()
    }

    /// A fresh recording from the middle of a 30 by 20 board.
    pub fn new(controls: Controls) -> (screen: Self)
        ensures
            screen.wf(),
            screen@.start == (HexPoint { h: 15, v: 10 }),
            screen@.head == screen@.start,
            screen@.current_dir is None,
            screen@.path == seq![screen@.start],
            screen@.moves == Seq::<Move>::empty(),
            screen@.controls == controls,
    {
        let start = HexPoint { h: 15, v: 10 };
        let mut path = Vec::new();
        path.push(start);
        let screen = SnakeControlCreatorScreen {
            start,
            head: start,
            current_dir: None,
            path,
            moves: Vec::new(),
            controls,
        };
        proof {
            assert(screen.path@ =~= seq![start]);
        }
        screen
    }

    pub fn path(&self) -> (path: &Vec<HexPoint>)
        ensures
            path@ == self@.path,
    {
        &self.path
    }

    pub fn moves(&self) -> (moves: &Vec<Move>)
        ensures
            moves@ == self@.moves,
    {
        &self.moves
    }

    pub fn head(&self) -> (head: HexPoint)
        ensures
            head == self@.head,
    {
        self.head
    }

    /// Steer one cell in `dir`. Going back the way the snake came is
    /// ignored: the result says so, for a warning.
    pub fn press_dir(&mut self, dir: Dir) -> (ignored: bool)
        requires
            old(self).wf(),
            can_step(old(self)@.head),
        ensures
            final(self).wf(),
            final(self)@.start == old(self)@.start,
            final(self)@.controls == old(self)@.controls,
            ignored == (old(self)@.current_dir == Some(opposite(dir))),
            ignored ==> final(self)@ == old(self)@,
            !ignored ==> {
                &&& final(self)@.moves == moves_after(old(self)@.moves, old(self)@.current_dir, dir)
                &&& final(self)@.current_dir == Some(dir)
                &&& final(self)@.head == translated(old(self)@.head, dir, 1)
                &&& final(self)@.path == old(self)@.path.push(final(self)@.head)
            },
    {
        if let Some(cur) = self.current_dir {
            if dir == cur.opposite() {
                return true;
            }
            if dir == cur {
                let n = self.moves.len();
                if n > 0 && matches!(self.moves[n - 1], Move::Wait(_)) {
                    if let Move::Wait(w) = self.moves[n - 1] {
                        assert(self.moves@[n - 1] is Wait);
                        let path_len = self.path.len();
                        assert(w < path_len);
                        self.moves.set(n - 1, Move::Wait(w + 1));
                    }
                } else {
                    self.moves.push(Move::Wait(1));
                }
            } else {
                self.moves.push(Move::Turn(dir));
                self.current_dir = Some(dir);
            }
        } else {
            self.moves.push(Move::Turn(dir));
            self.current_dir = Some(dir);
        }
        assert(translate_fits(self.head, dir, 1));
        let next = self.head.translate(dir, 1);
        self.head = next;
        self.path.push(next);
        false
    }

    /// Start over from the start.
    pub fn reset(&mut self)
        ensures
            final(self).wf(),
            final(self)@.start == old(self)@.start,
            final(self)@.controls == old(self)@.controls,
            final(self)@.head == old(self)@.start,
            final(self)@.current_dir is None,
            final(self)@.path == seq![old(self)@.start],
            final(self)@.moves == Seq::<Move>::empty(),
    {
        self.head = self.start;
        self.current_dir = None;
        let mut path = Vec::new();
        path.push(self.start);
        self.path = path;
        self.moves = Vec::new();
        proof {
            assert(self.path@ =~= seq![self.start]);
        }
    }

    /// A key: a direction key steers, Esc starts over, and Space asks for
    /// the moves to be printed (the result says so).
    pub fn key_down_event(&mut self, key: Key) -> (print: bool)
        requires
            old(self).wf(),
            can_step(old(self)@.head),
        ensures
            final(self).wf(),
            print == (dir_bound_from(old(self)@.controls.keys(), key, 0) is None && key == Key::Code(
                KeyCode::Space,
            )),
            match dir_bound_from(old(self)@.controls.keys(), key, 0) {
                Some(dir) => if old(self)@.current_dir == Some(opposite(dir)) {
                    final(self)@ == old(self)@
                } else {
                    &&& final(self)@.moves == moves_after(old(self)@.moves, old(self)@.current_dir, dir)
                    &&& final(self)@.current_dir == Some(dir)
                    &&& final(self)@.head == translated(old(self)@.head, dir, 1)
                    &&& final(self)@.path == old(self)@.path.push(final(self)@.head)
                    &&& final(self)@.start == old(self)@.start
                    &&& final(self)@.controls == old(self)@.controls
                },
                None => if key == Key::Code(KeyCode::Escape) {
                    &&& final(self)@.head == old(self)@.start
                    &&& final(self)@.current_dir is None
                    &&& final(self)@.path == seq![old(self)@.start]
                    &&& final(self)@.moves == Seq::<Move>::empty()
                    &&& final(self)@.start == old(self)@.start
                    &&& final(self)@.controls == old(self)@.controls
                } else {
                    final(self)@ == old(self)@
                },
            },
    {
        match self.controls.dir_of(key) {
            Some(dir) => {
                let _ignored = self.press_dir(dir);
                false
            },
            None => {
                if key == Key::Code(KeyCode::Escape) {
                    self.reset();
                    false
                } else {
                    key == Key::Code(KeyCode::Space)
                }
            },
        }
    }
}

} // verus!
