//! A step of the game after the snakes have moved: what their lives, their
//! crashes and the apples they reach make of them.

use vstd::prelude::*;

use crate::collisions::{
    collisions_of, consequence_of, find_collisions, handle_collisions, heads_present, lemma_collisions_sound,
    snake_views, Collision, Consequence, EatBehavior, SnakeCells,
};
use crate::game::AppleKind;
use crate::hex::HexPoint;

verus! {

/// Where a snake is in its life
#[derive(Copy, Clone, PartialEq, Eq, Debug, Structural)]
pub enum SnakeStatus {
    Living,
    Dying,
    Crashed,
}

/// What a step reads and changes of a snake
pub struct SnakeState {
    /// Its cells, head first
    pub cells: Vec<HexPoint>,
    pub status: SnakeStatus,
    /// Steps left to a snake that lives only for a while (a competitor or a
    /// killer snake brought in by an apple); `None` for the others
    pub life: Option<u32>,
    /// Cells it still grows by
    pub grow: usize,
    /// The food its head has just eaten, being digested
    pub food: Option<u32>,
}

/// An apple on the board
#[derive(Copy, Clone, PartialEq, Eq, Debug, Structural)]
pub struct AppleCell {
    pub pos: HexPoint,
    pub kind: AppleKind,
}

pub type SnakeView = (Seq<HexPoint>, SnakeStatus, Option<u32>, usize, Option<u32>);

pub open spec fn snake_view(s: SnakeState) -> SnakeView {
    (s.cells@, s.status, s.life, s.grow, s.food)
}

pub open spec fn snakes_view(s: Seq<SnakeState>) -> Seq<SnakeView> {
    s.map_values(|x: SnakeState| snake_view(x))
}

/// A snake a step closer to the end of its life: one with none left dies.
pub open spec fn counted_down(s: SnakeView) -> SnakeView {
    match s.2 {
        Some(0) => (s.0, SnakeStatus::Dying, s.2, s.3, s.4),
        Some(n) => (s.0, s.1, Some((n - 1) as u32), s.3, s.4),
        None => s,
    }
}

fn copy_cells(cells: &Vec<HexPoint>, n: usize) -> (out: Vec<HexPoint>)
    requires
        n <= cells@.len(),
    ensures
        out@ == cells@.take(n as int),
{
    let mut out: Vec<HexPoint> = Vec::new();
    let mut i: usize = 0;
    while i < n
        invariant
            n <= cells@.len(),
            0 <= i <= n,
            out@ == cells@.take(i as int),
        decreases n - i,
    {
        out.push(cells[i]);
        proof {
            assert(cells@.take(i + 1) =~= cells@.take(i as int).push(cells@[i as int]));
        }
        i = i + 1;
    }
    out
}

fn with_changes(s: &SnakeState, status: SnakeStatus, life: Option<u32>) -> (r: SnakeState)
    ensures
        snake_view(r) == (s.cells@, status, life, s.grow, s.food),
{
    let n = s.cells.len();
    let cells = copy_cells(&s.cells, n);
    proof {
        assert(s.cells@.take(n as int) =~= s.cells@);
    }
    SnakeState { cells, status, life, grow: s.grow, food: s.food }
}

/// Before the snakes move: each snake that lives only for a while comes a
/// step closer to its end, and one with no steps left dies.
pub fn count_down(snakes: &mut Vec<SnakeState>)
    ensures
        snakes_view(final(snakes)@) == snakes_view(old(snakes)@).map_values(|s: SnakeView| counted_down(s)),
{
    let ghost s0 = snakes_view(snakes@);
    let mut i: usize = 0;
    while i < snakes.len()
        invariant
            0 <= i <= snakes@.len(),
            snakes@.len() == s0.len(),
            forall|j: int| 0 <= j < i ==> #[trigger] snake_view(snakes@[j]) == counted_down(s0[j]),
            forall|j: int| i <= j < snakes@.len() ==> #[trigger] snake_view(snakes@[j]) == s0[j],
        decreases s0.len() - i,
    {
        let ghost before = snake_view(snakes@[i as int]);
        assert(before == s0[i as int]);
        let life = snakes[i].life;
        match life {
            Some(n) => {
                let next = if n == 0 {
                    with_changes(&snakes[i], SnakeStatus::Dying, life)
                } else {
                    with_changes(&snakes[i], snakes[i].status, Some(n - 1))
                };
                snakes.set(i, next);
            },
            None => {},
        }
        proof {
            assert(snake_view(snakes@[i as int]) == counted_down(s0[i as int]));
        }
        i = i + 1;
    }
    proof {
        assert(snakes_view(snakes@) =~= s0.map_values(|s: SnakeView| counted_down(s)));
    }
}

/// The snakes that still have cells, in order.
pub open spec fn nonempty(s: Seq<SnakeView>) -> Seq<SnakeView>
    decreases s.len(),
{
    if s.len() == 0 {
        seq![]
    } else {
        nonempty(s.drop_last()) + if s.last().0.len() > 0 {
            seq![s.last()]
        } else {
            seq![]
        }
    }
}

/// A snake that is dying or lives only for a while.
pub open spec fn settling(s: SnakeView) -> bool {
    s.1 == SnakeStatus::Dying || s.2 is Some
}

pub open spec fn dying(s: SnakeView) -> SnakeView {
    (s.0, SnakeStatus::Dying, s.2, s.3, s.4)
}

/// After the snakes moved: those left without cells go, and when only
/// dying snakes and snakes that live only for a while are left, all of
/// them die.
pub open spec fn settled(s: Seq<SnakeView>) -> Seq<SnakeView> {
    let kept = nonempty(s);
    if forall|i: int| 0 <= i < kept.len() ==> #[trigger] settling(kept[i]) {
        kept.map_values(|x: SnakeView| dying(x))
    } else {
        kept
    }
}

/// Remove the snakes left without cells, and when only dying snakes and
/// snakes that live only for a while are left, make all of them die.
/// Returns whether no snake is left, which ends the game.
pub fn settle(snakes: &mut Vec<SnakeState>) -> (none_left: bool)
    ensures
        snakes_view(final(snakes)@) == settled(snakes_view(old(snakes)@)),
        none_left == (final(snakes)@.len() == 0),
{
    let ghost s0 = snakes_view(snakes@);
    let mut kept: Vec<SnakeState> = Vec::new();
    let ghost mut k: int = 0;
    while snakes.len() > 0
        invariant
            0 <= k <= s0.len(),
            snakes_view(snakes@) == s0.subrange(k, s0.len() as int),
            snakes_view(kept@) == nonempty(s0.take(k)),
        decreases snakes@.len(),
    {
        let ghost before = snakes@;
        proof {
            assert(snakes_view(before).len() == before.len());
            assert(k < s0.len());
        }
        let snake = snakes.remove(0);
        proof {
            assert(snake_view(snake) == snake_view(before[0]));
            assert(snake_view(before[0]) == snakes_view(before)[0]);
            assert(s0.take(k + 1).drop_last() =~= s0.take(k));
            assert(s0.take(k + 1).last() == s0[k]);
            assert forall|j: int| 0 <= j < snakes@.len() implies snakes_view(snakes@)[j] == s0.subrange(k + 1, s0.len() as int)[j] by {
                assert(snakes@[j] == before[j + 1]);
                assert(snakes_view(before)[j + 1] == s0.subrange(k, s0.len() as int)[j + 1]);
            }
            assert(snakes_view(snakes@) =~= s0.subrange(k + 1, s0.len() as int));
        }
        let ghost kept_before = kept@;
        if snake.cells.len() > 0 {
            kept.push(snake);
            proof {
                assert(snakes_view(kept@) =~= snakes_view(kept_before).push(s0[k]));
            }
        }
        proof {
            k = k + 1;
            assert(snakes_view(kept@) =~= nonempty(s0.take(k)));
        }
    }
    proof {
        assert(s0.take(k) =~= s0);
    }
    let mut all: bool = true;
    let mut i: usize = 0;
    while i < kept.len()
        invariant
            0 <= i <= kept@.len(),
            all == forall|j: int| 0 <= j < i ==> #[trigger] settling(snake_view(kept@[j])),
        decreases kept@.len() - i,
    {
        let here = kept[i].status == SnakeStatus::Dying || kept[i].life.is_some();
        let ghost was = all;
        all = all && here;
        proof {
            assert(here == settling(snake_view(kept@[i as int])));
            if !was {
                let j = choose|j: int| 0 <= j < i && !#[trigger] settling(snake_view(kept@[j]));
                assert(!(forall|j2: int| 0 <= j2 < i + 1 ==> #[trigger] settling(snake_view(kept@[j2]))));
            } else if !here {
                assert(!(forall|j2: int| 0 <= j2 < i + 1 ==> #[trigger] settling(snake_view(kept@[j2]))));
            } else {
                assert forall|j2: int| 0 <= j2 < i + 1 implies #[trigger] settling(snake_view(kept@[j2])) by {}
            }
        }
        i = i + 1;
    }
    proof {
        assert(all == forall|j: int| 0 <= j < nonempty(s0).len() ==> #[trigger] settling(nonempty(s0)[j])) by {
            if !all {
                let j = choose|j: int| 0 <= j < kept@.len() && !#[trigger] settling(snake_view(kept@[j]));
                assert(nonempty(s0)[j] == snake_view(kept@[j]));
            } else {
                assert forall|j: int| 0 <= j < nonempty(s0).len() implies #[trigger] settling(nonempty(s0)[j]) by {
                    assert(nonempty(s0)[j] == snake_view(kept@[j]));
                }
            }
        }
    }
    if all {
        let mut i: usize = 0;
        while i < kept.len()
            invariant
                0 <= i <= kept@.len(),
                kept@.len() == nonempty(s0).len(),
                forall|j: int| 0 <= j < i ==> #[trigger] snake_view(kept@[j]) == dying(nonempty(s0)[j]),
                forall|j: int| i <= j < kept@.len() ==> #[trigger] snake_view(kept@[j]) == nonempty(s0)[j],
            decreases kept@.len() - i,
        {
            let ghost before = snake_view(kept@[i as int]);
            let life = kept[i].life;
            let next = with_changes(&kept[i], SnakeStatus::Dying, life);
            kept.set(i, next);
            proof {
                assert(snake_view(kept@[i as int]) == dying(before));
            }
            i = i + 1;
        }
        proof {
            assert(snakes_view(kept@) =~= nonempty(s0).map_values(|x: SnakeView| dying(x)));
        }
    }
    let none_left = kept.len() == 0;
    *snakes = kept;
    none_left
}

fn rebuilt(s: &SnakeState, keep: usize, status: SnakeStatus, grow: usize, food: Option<u32>) -> (r: SnakeState)
    requires
        keep <= s.cells@.len(),
    ensures
        snake_view(r) == (s.cells@.take(keep as int), status, s.life, grow, food),
{
    let cells = copy_cells(&s.cells, keep);
    SnakeState { cells, status, life: s.life, grow, food }
}

/// A snake after a crash-like consequence: cut (it keeps the cells before
/// the cut, and grows back to two cells if fewer are left), crashed, or
/// dying. Eating comes later.
pub open spec fn after_crash(s: Seq<SnakeView>, c: Consequence) -> Seq<SnakeView> {
    match c {
        Consequence::Cut { snake_index, segment_index } => if snake_index < s.len() && segment_index
            <= s[snake_index as int].0.len() {
            let t = s[snake_index as int];
            let cells = t.0.take(segment_index as int);
            s.update(
                snake_index as int,
                (cells, t.1, t.2, if cells.len() < 2 {
                    (2 - cells.len()) as usize
                } else {
                    0usize
                }, t.4),
            )
        } else {
            s
        },
        Consequence::Crash { snake_index } => if snake_index < s.len() {
            let t = s[snake_index as int];
            s.update(snake_index as int, (t.0, SnakeStatus::Crashed, t.2, t.3, t.4))
        } else {
            s
        },
        Consequence::Die { snake_index } => if snake_index < s.len() {
            s.update(snake_index as int, dying(s[snake_index as int]))
        } else {
            s
        },
        Consequence::Eat { .. } => s,
    }
}

pub open spec fn crashes_applied(s: Seq<SnakeView>, cs: Seq<Consequence>) -> Seq<SnakeView>
    decreases cs.len(),
{
    if cs.len() == 0 {
        s
    } else {
        after_crash(crashes_applied(s, cs.drop_last()), cs.last())
    }
}

/// An apple eaten by a snake still living after the crashes: the snake
/// digests a food apple's food, and a snake-spawning apple brings in its
/// seed: the seeds of all of them, in the order of the consequences.
pub open spec fn feeding(
    s: Seq<SnakeView>,
    apples: Seq<AppleCell>,
    cs: Seq<Consequence>,
) -> (Seq<SnakeView>, Seq<usize>)
    decreases cs.len(),
{
    if cs.len() == 0 {
        (s, seq![])
    } else {
        let (s1, spawn) = feeding(s, apples, cs.drop_last());
        match cs.last() {
            Consequence::Eat { snake_index, apple_index } => if snake_index < s1.len() && apple_index
                < apples.len() && s1[snake_index as int].1 == SnakeStatus::Living {
                let t = s1[snake_index as int];
                match apples[apple_index as int].kind {
                    AppleKind::Normal(food) => (s1.update(snake_index as int, (t.0, t.1, t.2, t.3, Some(food))), spawn),
                    AppleKind::SpawnSnake(seed) => (s1, spawn.push(seed)),
                }
            } else {
                (s1, spawn)
            },
            _ => (s1, spawn),
        }
    }
}

/// Apple `a` is eaten by a snake still living after the crashes.
pub open spec fn eaten(s: Seq<SnakeView>, cs: Seq<Consequence>, a: int) -> bool {
    exists|t: int|
        #![trigger cs[t]]
        0 <= t < cs.len() && (cs[t] matches Consequence::Eat { snake_index, apple_index }
            && apple_index == a && snake_index < s.len() && s[snake_index as int].1 == SnakeStatus::Living)
}

/// The apples of the first `n` not eaten, in order.
pub open spec fn uneaten(apples: Seq<AppleCell>, s: Seq<SnakeView>, cs: Seq<Consequence>, n: int) -> Seq<AppleCell>
    decreases n,
{
    if n <= 0 || n > apples.len() {
        seq![]
    } else {
        uneaten(apples, s, cs, n - 1) + if eaten(s, cs, n - 1) {
            seq![]
        } else {
            seq![apples[n - 1]]
        }
    }
}

fn crash_one(snakes: &mut Vec<SnakeState>, c: Consequence)
    ensures
        snakes_view(final(snakes)@) == after_crash(snakes_view(old(snakes)@), c),
{
    let ghost s0 = snakes_view(snakes@);
    match c {
        Consequence::Cut { snake_index, segment_index } => {
            if snake_index < snakes.len() && segment_index <= snakes[snake_index].cells.len() {
                let grow = if segment_index < 2 { 2 - segment_index } else { 0 };
                let t = rebuilt(&snakes[snake_index], segment_index, snakes[snake_index].status, grow, snakes[snake_index].food);
                snakes.set(snake_index, t);
            }
        },
        Consequence::Crash { snake_index } => {
            if snake_index < snakes.len() {
                let n = snakes[snake_index].cells.len();
                let t = rebuilt(&snakes[snake_index], n, SnakeStatus::Crashed, snakes[snake_index].grow, snakes[snake_index].food);
                proof { assert(snakes@[snake_index as int].cells@.take(n as int) =~= snakes@[snake_index as int].cells@); }
                snakes.set(snake_index, t);
            }
        },
        Consequence::Die { snake_index } => {
            if snake_index < snakes.len() {
                let life = snakes[snake_index].life;
                let t = with_changes(&snakes[snake_index], SnakeStatus::Dying, life);
                snakes.set(snake_index, t);
            }
        },
        Consequence::Eat { .. } => {},
    }
    proof {
        assert(snakes_view(snakes@) =~= after_crash(s0, c));
    }
}

/// What comes of the consequences of a step's collisions (see
/// [`handle_collisions`](crate::collisions::handle_collisions)): snakes are
/// cut, crash or die, in order; then the snakes still living eat the apples
/// their heads are on, and those apples go. Returns whether a snake crashed,
/// which ends the game, and the seeds of the snakes to bring in, one for
/// each snake-spawning apple eaten, in order.
pub fn apply_consequences(
    snakes: &mut Vec<SnakeState>,
    apples: &mut Vec<AppleCell>,
    consequences: &Vec<Consequence>,
) -> (r: (bool, Vec<usize>))
    ensures
        ({
            let crashed = crashes_applied(snakes_view(old(snakes)@), consequences@);
            let (fed, spawn) = feeding(crashed, old(apples)@, consequences@);
            &&& snakes_view(final(snakes)@) == fed
            &&& r.1@ == spawn
            &&& final(apples)@ == uneaten(old(apples)@, crashed, consequences@, old(apples)@.len() as int)
        }),
        r.0 == exists|t: int| 0 <= t < consequences@.len() && #[trigger] consequences@[t] is Crash,
{
    let ghost s0 = snakes_view(snakes@);
    let ghost cs = consequences@;
    let mut game_over = false;
    let mut t: usize = 0;
    while t < consequences.len()
        invariant
            0 <= t <= cs.len(),
            cs == consequences@,
            snakes_view(snakes@) == crashes_applied(s0, cs.take(t as int)),
            game_over == exists|u: int| 0 <= u < t && #[trigger] cs[u] is Crash,
        decreases cs.len() - t,
    {
        let c = consequences[t];
        crash_one(snakes, c);
        if let Consequence::Crash { .. } = c {
            game_over = true;
        }
        proof {
            assert(cs.take(t + 1).drop_last() =~= cs.take(t as int));
            assert(cs.take(t + 1).last() == cs[t as int]);
        }
        t = t + 1;
    }
    proof {
        assert(cs.take(t as int) =~= cs);
    }
    let ghost crashed = snakes_view(snakes@);
    let ghost a0 = apples@;
    let mut marks: Vec<bool> = Vec::new();
    while marks.len() < apples.len()
        invariant
            marks@.len() <= a0.len(),
            a0 == apples@,
            forall|j: int| 0 <= j < marks@.len() ==> !(#[trigger] marks@[j]),
        decreases a0.len() - marks@.len(),
    {
        marks.push(false);
    }
    let mut spawn: Vec<usize> = Vec::new();
    let mut t: usize = 0;
    while t < consequences.len()
        invariant
            0 <= t <= cs.len(),
            cs == consequences@,
            a0 == apples@,
            marks@.len() == a0.len(),
            snakes@.len() == crashed.len(),
            (snakes_view(snakes@), spawn@) == feeding(crashed, a0, cs.take(t as int)),
            forall|i: int| 0 <= i < snakes@.len() ==> #[trigger] snakes_view(snakes@)[i].1 == crashed[i].1,
            forall|j: int| 0 <= j < marks@.len() ==> (#[trigger] marks@[j] <==> eaten(crashed, cs.take(t as int), j)),
        decreases cs.len() - t,
    {
        let c = consequences[t];
        let ghost before = snakes_view(snakes@);
        let ghost marks_before = marks@;
        proof {
            assert(cs.take(t + 1).drop_last() =~= cs.take(t as int));
            assert(cs.take(t + 1).last() == cs[t as int]);
        }
        if let Consequence::Eat { snake_index, apple_index } = c {
            if snake_index < snakes.len() && apple_index < apples.len() && snakes[snake_index].status == SnakeStatus::Living {
                proof {
                    assert(snakes_view(snakes@)[snake_index as int].1 == snakes@[snake_index as int].status);
                }
                marks.set(apple_index, true);
                match apples[apple_index].kind {
                    AppleKind::Normal(food) => {
                        let n = snakes[snake_index].cells.len();
                        let s = rebuilt(&snakes[snake_index], n, snakes[snake_index].status, snakes[snake_index].grow, Some(food));
                        proof { assert(snakes@[snake_index as int].cells@.take(n as int) =~= snakes@[snake_index as int].cells@); }
                        snakes.set(snake_index, s);
                        proof {
                            assert(snakes_view(snakes@) =~= before.update(snake_index as int, (before[snake_index as int].0, before[snake_index as int].1, before[snake_index as int].2, before[snake_index as int].3, Some(food))));
                        }
                    },
                    AppleKind::SpawnSnake(seed) => {
                        spawn.push(seed);
                    },
                }
            } else {
                proof {
                    if snake_index < snakes.len() {
                        assert(snakes_view(snakes@)[snake_index as int].1 == snakes@[snake_index as int].status);
                    }
                }
            }
        }
        proof {
            let cs1 = cs.take(t + 1);
            assert forall|j: int| 0 <= j < marks@.len() implies (#[trigger] marks@[j] <==> eaten(crashed, cs1, j)) by {
                if eaten(crashed, cs.take(t as int), j) {
                    let u = choose|u: int| #![trigger cs.take(t as int)[u]] 0 <= u < cs.take(t as int).len() && (cs.take(t as int)[u] matches Consequence::Eat { snake_index, apple_index }
                        && apple_index == j && snake_index < crashed.len() && crashed[snake_index as int].1 == SnakeStatus::Living);
                    assert(cs1[u] == cs.take(t as int)[u]);
                }
                if eaten(crashed, cs1, j) {
                    let u = choose|u: int| #![trigger cs1[u]] 0 <= u < cs1.len() && (cs1[u] matches Consequence::Eat { snake_index, apple_index }
                        && apple_index == j && snake_index < crashed.len() && crashed[snake_index as int].1 == SnakeStatus::Living);
                    if u < t {
                        assert(cs.take(t as int)[u] == cs1[u]);
                    }
                }
            }
        }
        t = t + 1;
    }
    proof {
        assert(cs.take(t as int) =~= cs);
    }
    let mut left: Vec<AppleCell> = Vec::new();
    let mut j: usize = 0;
    while j < apples.len()
        invariant
            0 <= j <= a0.len(),
            a0 == apples@,
            marks@.len() == a0.len(),
            forall|k: int| 0 <= k < marks@.len() ==> (#[trigger] marks@[k] <==> eaten(crashed, cs, k)),
            left@ == uneaten(a0, crashed, cs, j as int),
        decreases a0.len() - j,
    {
        if !marks[j] {
            left.push(apples[j]);
        }
        proof {
            assert(marks@[j as int] <==> eaten(crashed, cs, j as int));
        }
        j = j + 1;
    }
    *apples = left;
    (game_over, spawn)
}

/// What collision detection reads of the snakes: their cells, and whether
/// they still move (only living snakes do).
pub open spec fn moving_views(s: Seq<SnakeView>) -> Seq<(Seq<HexPoint>, bool)> {
    s.map_values(|x: SnakeView| (x.0, x.1 == SnakeStatus::Living))
}

pub open spec fn apple_cells(apples: Seq<AppleCell>) -> Seq<HexPoint> {
    apples.map_values(|a: AppleCell| a.pos)
}

/// The consequences of a step's collisions, given what each snake does on
/// running into itself and into each other snake.
pub open spec fn step_consequences(
    s: Seq<SnakeView>,
    apples: Seq<AppleCell>,
    eat_self: Seq<EatBehavior>,
    eat_other: Seq<Seq<EatBehavior>>,
) -> Seq<Consequence> {
    collisions_of(moving_views(s), apple_cells(apples), s.len() as int).map_values(
        |c: Collision| consequence_of(c, eat_self, eat_other),
    )
}

/// A step after the snakes have moved and the snakes without cells are
/// gone (see [`settle`]): the living snakes' heads run into apples and
/// snakes, and what comes of it is applied (see [`apply_consequences`]).
/// `eat_self[i]` is what snake `i` does on running into itself, and
/// `eat_other[i][j]` what it does on running into snake `j`. Returns
/// whether a snake crashed, which ends the game, and the seeds of the
/// snakes to bring in, one for each snake-spawning apple eaten, in order.
pub fn advance_step(
    snakes: &mut Vec<SnakeState>,
    apples: &mut Vec<AppleCell>,
    eat_self: &Vec<EatBehavior>,
    eat_other: &Vec<Vec<EatBehavior>>,
) -> (r: (bool, Vec<usize>))
    requires
        forall|i: int| 0 <= i < old(snakes)@.len() ==> (#[trigger] old(snakes)@[i]).cells@.len() > 0,
        eat_self@.len() == old(snakes)@.len(),
        eat_other@.len() == old(snakes)@.len(),
        forall|i: int| 0 <= i < eat_other@.len() ==> (#[trigger] eat_other@[i])@.len() == old(snakes)@.len(),
    ensures
        ({
            let cons = step_consequences(
                snakes_view(old(snakes)@),
                old(apples)@,
                eat_self@,
                eat_other@.map_values(|row: Vec<EatBehavior>| row@),
            );
            let crashed = crashes_applied(snakes_view(old(snakes)@), cons);
            let (fed, spawn) = feeding(crashed, old(apples)@, cons);
            &&& snakes_view(final(snakes)@) == fed
            &&& r.1@ == spawn
            &&& final(apples)@ == uneaten(old(apples)@, crashed, cons, old(apples)@.len() as int)
            &&& r.0 == exists|t: int| 0 <= t < cons.len() && #[trigger] cons[t] is Crash
        }),
{
    let ghost s0 = snakes_view(snakes@);
    let mut cells: Vec<SnakeCells> = Vec::new();
    let mut i: usize = 0;
    while i < snakes.len()
        invariant
            0 <= i <= snakes@.len(),
            s0 == snakes_view(snakes@),
            cells@.len() == i,
            forall|j: int| 0 <= j < i ==> #[trigger] snake_views(cells@)[j] == moving_views(s0)[j],
            forall|j: int| 0 <= j < i ==> (#[trigger] cells@[j]).cells@.len() <= usize::MAX,
        decreases snakes@.len() - i,
    {
        let n = snakes[i].cells.len();
        let copy = copy_cells(&snakes[i].cells, n);
        proof {
            assert(snakes@[i as int].cells@.take(n as int) =~= snakes@[i as int].cells@);
        }
        let ghost before = cells@;
        cells.push(SnakeCells { cells: copy, moving: snakes[i].status == SnakeStatus::Living });
        proof {
            assert forall|j: int| 0 <= j < i + 1 implies #[trigger] snake_views(cells@)[j] == moving_views(s0)[j] by {
                if j < i {
                    assert(cells@[j] == before[j]);
                    assert(snake_views(before)[j] == moving_views(s0)[j]);
                }
            }
            assert forall|j: int| 0 <= j < i + 1 implies (#[trigger] cells@[j]).cells@.len() <= usize::MAX by {
                if j < i {
                    assert(cells@[j] == before[j]);
                }
            }
        }
        i = i + 1;
    }
    let mut positions: Vec<HexPoint> = Vec::new();
    let mut k: usize = 0;
    while k < apples.len()
        invariant
            0 <= k <= apples@.len(),
            positions@ == apple_cells(apples@).take(k as int),
        decreases apples@.len() - k,
    {
        positions.push(apples[k].pos);
        proof {
            assert(apple_cells(apples@).take(k + 1) =~= apple_cells(apples@).take(k as int).push(apples@[k as int].pos));
        }
        k = k + 1;
    }
    proof {
        assert(positions@ =~= apple_cells(apples@));
        assert(snake_views(cells@) =~= moving_views(s0));
        assert forall|j: int| 0 <= j < snake_views(cells@).len() && #[trigger] snake_views(cells@)[j].1 implies snake_views(cells@)[j].0.len() > 0 by {
            assert(snake_views(cells@)[j] == moving_views(s0)[j]);
            assert(s0[j] == snake_view(snakes@[j]));
        }
        assert(heads_present(snake_views(cells@)));
    }
    let collisions = find_collisions(&cells, &positions);
    let ghost others = eat_other@.map_values(|row: Vec<EatBehavior>| row@);
    proof {
        let views = snake_views(cells@);
        assert forall|j: int| 0 <= j < views.len() implies (#[trigger] views[j]).0.len() <= usize::MAX by {
            assert(views[j].0 == cells@[j].cells@);
            assert(cells@[j].cells@.len() <= usize::MAX);
        }
        lemma_collisions_sound(views, positions@, views.len() as int);
        assert forall|t: int| 0 <= t < collisions@.len() implies crate::collisions::behaviors_given(
            #[trigger] collisions@[t],
            eat_self@,
            others,
        ) by {
            assert(crate::collisions::collision_holds(views, positions@, views.len() as int, collisions@[t]));
        }
    }
    let handled = handle_collisions(&collisions, eat_self, eat_other);
    let consequences = handled.0;
    proof {
        assert(consequences@ =~= step_consequences(s0, apples@, eat_self@, others));
    }
    apply_consequences(snakes, apples, &consequences)
}

} // verus!
