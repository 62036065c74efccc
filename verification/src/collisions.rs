//! Which snakes ran into apples, into other snakes or into themselves.

use vstd::prelude::*;

use crate::hex::HexPoint;

verus! {

#[derive(Copy, Clone, PartialEq, Eq, Debug, Structural)]
pub enum Collision {
    Apple { snake_index: usize, apple_index: usize },
    /// The head of snake 1 ran into the head or the body of snake 2
    Snake { snake1_index: usize, snake2_index: usize, snake2_segment_index: usize },
    /// A snake ran into itself
    Itself { snake_index: usize, snake_segment_index: usize },
}

/// What collision detection reads of a snake: its cells, head first, and
/// whether it still moves (a crashed or a dying snake does not).
pub struct SnakeCells {
    pub cells: Vec<HexPoint>,
    pub moving: bool,
}

pub open spec fn snake_views(snakes: Seq<SnakeCells>) -> Seq<(Seq<HexPoint>, bool)> {
    snakes.map_values(|s: SnakeCells| (s.cells@, s.moving))
}

/// Every moving snake has a head.
pub open spec fn heads_present(snakes: Seq<(Seq<HexPoint>, bool)>) -> bool {
    forall|i: int| 0 <= i < snakes.len() && #[trigger] snakes[i].1 ==> snakes[i].0.len() > 0
}

/// The first of `cells` from `start` on that is `head`.
pub open spec fn first_at(cells: Seq<HexPoint>, head: HexPoint, start: int) -> Option<int>
    decreases cells.len() - start,
{
    if start < 0 || start >= cells.len() {
        None
    } else if cells[start] == head {
        Some(start)
    } else {
        first_at(cells, head, start + 1)
    }
}

/// The first snake from `j` on, and its first segment, that the head of
/// snake `i` is on, its own head aside.
pub open spec fn first_hit(snakes: Seq<(Seq<HexPoint>, bool)>, i: int, head: HexPoint, j: int) -> Option<
    (int, int),
>
    decreases snakes.len() - j,
{
    if j < 0 || j >= snakes.len() {
        None
    } else {
        match first_at(snakes[j].0, head, if j == i { 1 } else { 0 }) {
            Some(k) => Some((j, k)),
            None => first_hit(snakes, i, head, j + 1),
        }
    }
}

/// The apples that the head of snake `i` is on, from apple `k` on.
pub open spec fn apple_hits(apples: Seq<HexPoint>, i: int, head: HexPoint, k: int) -> Seq<Collision>
    decreases apples.len() - k,
{
    if k < 0 || k >= apples.len() {
        seq![]
    } else {
        let rest = apple_hits(apples, i, head, k + 1);
        if apples[k] == head {
            seq![Collision::Apple { snake_index: i as usize, apple_index: k as usize }] + rest
        } else {
            rest
        }
    }
}

/// The collisions of the first `n` snakes. For each moving snake in turn:
/// the apples its head is on, in order; then the first snake and segment
/// its head is on, unless that is the head of a snake already found to have
/// run head first into this one.
pub open spec fn collisions_of(snakes: Seq<(Seq<HexPoint>, bool)>, apples: Seq<HexPoint>, n: int) -> Seq<
    Collision,
>
    decreases n,
{
    if n <= 0 || n > snakes.len() {
        seq![]
    } else {
        let prev = collisions_of(snakes, apples, n - 1);
        let i = n - 1;
        if !snakes[i].1 {
            prev
        } else {
            let head = snakes[i].0[0];
            let with_apples = prev + apple_hits(apples, i, head, 0);
            match first_hit(snakes, i, head, 0) {
                None => with_apples,
                Some((j, k)) => if k == 0 && with_apples.contains(
                    Collision::Snake {
                        snake1_index: j as usize,
                        snake2_index: i as usize,
                        snake2_segment_index: 0,
                    },
                ) {
                    with_apples
                } else {
                    with_apples.push(
                        Collision::Snake {
                            snake1_index: i as usize,
                            snake2_index: j as usize,
                            snake2_segment_index: k as usize,
                        },
                    )
                },
            }
        }
    }
}

proof fn lemma_first_at_none(cells: Seq<HexPoint>, head: HexPoint, start: int, end: int)
    requires
        0 <= start <= end <= cells.len(),
        forall|k: int| start <= k < end ==> cells[k] != head,
    ensures
        first_at(cells, head, start) == first_at(cells, head, end),
    decreases end - start,
{
    if start < end {
        lemma_first_at_none(cells, head, start + 1, end);
    }
}

/// The first segment of `cells` from `start` on that is `head`.
fn find_segment(cells: &Vec<HexPoint>, head: HexPoint, start: usize) -> (r: Option<usize>)
    ensures
        first_at(cells@, head, start as int) == match r {
            Some(k) => Some(k as int),
            None => None::<int>,
        },
{
    let mut k = start;
    if k >= cells.len() {
        return None;
    }
    while k < cells.len()
        invariant
            start <= k <= cells@.len(),
            start < cells@.len(),
            forall|m: int| start <= m < k ==> cells@[m] != head,
        decreases cells@.len() - k,
    {
        if cells[k] == head {
            proof {
                lemma_first_at_none(cells@, head, start as int, k as int);
            }
            return Some(k);
        }
        k = k + 1;
    }
    proof {
        lemma_first_at_none(cells@, head, start as int, k as int);
    }
    None
}

/// The first snake, and its first segment, that the head of snake `i` is
/// on, its own head aside.
fn find_hit(snakes: &Vec<SnakeCells>, i: usize, head: HexPoint) -> (r: Option<(usize, usize)>)
    ensures
        first_hit(snake_views(snakes@), i as int, head, 0) == match r {
            Some((j, k)) => Some((j as int, k as int)),
            None => None::<(int, int)>,
        },
{
    let ghost views = snake_views(snakes@);
    let mut j: usize = 0;
    while j < snakes.len()
        invariant
            0 <= j <= snakes@.len(),
            views == snake_views(snakes@),
            first_hit(views, i as int, head, 0) == first_hit(views, i as int, head, j as int),
        decreases snakes@.len() - j,
    {
        let start: usize = if j == i {
            1
        } else {
            0
        };
        assert(views[j as int].0 == snakes@[j as int].cells@);
        match find_segment(&snakes[j].cells, head, start) {
            Some(k) => {
                return Some((j, k));
            },
            None => {},
        }
        j = j + 1;
    }
    None
}

/// The collisions of the moving snakes' heads with apples and snakes, as
/// [`collisions_of`] all snakes.
pub fn find_collisions(snakes: &Vec<SnakeCells>, apples: &Vec<HexPoint>) -> (collisions: Vec<
    Collision,
>)
    requires
        heads_present(snake_views(snakes@)),
    ensures
        collisions@ == collisions_of(snake_views(snakes@), apples@, snakes@.len() as int),
{
    let ghost views = snake_views(snakes@);
    let mut collisions: Vec<Collision> = Vec::new();
    let mut i: usize = 0;
    while i < snakes.len()
        invariant
            0 <= i <= snakes@.len(),
            views == snake_views(snakes@),
            heads_present(views),
            collisions@ == collisions_of(views, apples@, i as int),
        decreases snakes@.len() - i,
    {
        assert(views[i as int] == (snakes@[i as int].cells@, snakes@[i as int].moving));
        let ghost prev_all = collisions@;
        if snakes[i].moving {
            assert(views[i as int].1);
            assert(snakes@[i as int].cells@.len() > 0);
            let head = snakes[i].cells[0];
            let ghost prev = collisions@;
            let mut k: usize = 0;
            while k < apples.len()
                invariant
                    0 <= k <= apples@.len(),
                    prev + apple_hits(apples@, i as int, head, 0) == collisions@ + apple_hits(
                        apples@,
                        i as int,
                        head,
                        k as int,
                    ),
                decreases apples@.len() - k,
            {
                let ghost before = collisions@;
                if apples[k] == head {
                    collisions.push(Collision::Apple { snake_index: i, apple_index: k });
                    assert(before + apple_hits(apples@, i as int, head, k as int) =~= collisions@
                        + apple_hits(apples@, i as int, head, k + 1));
                }
                k = k + 1;
            }
            assert(collisions@ + apple_hits(apples@, i as int, head, k as int) =~= collisions@);
            let ghost with_apples = collisions@;
            assert(head == views[i as int].0[0]);
            assert(apple_hits(apples@, i as int, head, k as int) =~= Seq::<Collision>::empty());
            assert(with_apples =~= prev_all + apple_hits(apples@, i as int, head, 0));
            assert(collisions_of(views, apples@, i + 1) == (match first_hit(views, i as int, head, 0) {
                None => with_apples,
                Some((j, k)) => if k == 0 && with_apples.contains(
                    Collision::Snake {
                        snake1_index: j as usize,
                        snake2_index: i,
                        snake2_segment_index: 0,
                    },
                ) {
                    with_apples
                } else {
                    with_apples.push(
                        Collision::Snake {
                            snake1_index: i,
                            snake2_index: j as usize,
                            snake2_segment_index: k as usize,
                        },
                    )
                },
            }));
            match find_hit(snakes, i, head) {
                None => {},
                Some((j, seg)) => {
                    let mirror = Collision::Snake {
                        snake1_index: j,
                        snake2_index: i,
                        snake2_segment_index: 0,
                    };
                    let mut seen = false;
                    if seg == 0 {
                        let mut m: usize = 0;
                        while m < collisions.len()
                            invariant
                                0 <= m <= collisions@.len(),
                                seen == exists|t: int| 0 <= t < m && collisions@[t] == mirror,
                            decreases collisions@.len() - m,
                        {
                            if collisions[m] == mirror {
                                seen = true;
                            }
                            m = m + 1;
                        }
                    }
                    assert(seg == 0 ==> (seen == with_apples.contains(mirror)));
                    if !seen {
                        collisions.push(
                            Collision::Snake {
                                snake1_index: i,
                                snake2_index: j,
                                snake2_segment_index: seg,
                            },
                        );
                    }
                },
            }
            assert(collisions@ == collisions_of(views, apples@, i + 1));
        } else {
            assert(collisions@ == collisions_of(views, apples@, i + 1));
        }
        i = i + 1;
    }
    collisions
}


/// What a collision says holds of the snakes: an apple collision is a
/// moving snake's head on that apple; a snake collision is a moving snake's
/// head on that segment of that snake, its own head aside. No snake runs
/// into itself other than as a snake collision.
pub open spec fn collision_holds(
    snakes: Seq<(Seq<HexPoint>, bool)>,
    apples: Seq<HexPoint>,
    n: int,
    c: Collision,
) -> bool {
    match c {
        Collision::Apple { snake_index, apple_index } => {
            &&& snake_index < n
            &&& snakes[snake_index as int].1
            &&& apple_index < apples.len()
            &&& apples[apple_index as int] == snakes[snake_index as int].0[0]
        },
        Collision::Snake { snake1_index, snake2_index, snake2_segment_index } => {
            &&& snake1_index < n
            &&& snakes[snake1_index as int].1
            &&& snake2_index < snakes.len()
            &&& snake2_segment_index < snakes[snake2_index as int].0.len()
            &&& snakes[snake2_index as int].0[snake2_segment_index as int]
                == snakes[snake1_index as int].0[0]
            &&& !(snake1_index == snake2_index && snake2_segment_index == 0)
        },
        Collision::Itself { .. } => false,
    }
}

proof fn lemma_first_at(cells: Seq<HexPoint>, head: HexPoint, start: int)
    ensures
        first_at(cells, head, start) matches Some(k) ==> 0 <= start <= k < cells.len() && cells[k]
            == head,
    decreases cells.len() - start,
{
    if 0 <= start < cells.len() && cells[start] != head {
        lemma_first_at(cells, head, start + 1);
    }
}

proof fn lemma_first_hit(snakes: Seq<(Seq<HexPoint>, bool)>, i: int, head: HexPoint, j: int)
    ensures
        first_hit(snakes, i, head, j) matches Some((j2, k)) ==> 0 <= j2 < snakes.len() && 0 <= k
            < snakes[j2].0.len() && snakes[j2].0[k] == head && !(j2 == i && k == 0),
    decreases snakes.len() - j,
{
    if 0 <= j < snakes.len() {
        lemma_first_at(snakes[j].0, head, if j == i { 1 } else { 0 });
        if first_at(snakes[j].0, head, if j == i { 1 } else { 0 }) is None {
            lemma_first_hit(snakes, i, head, j + 1);
        }
    }
}

proof fn lemma_apple_hits(apples: Seq<HexPoint>, i: int, head: HexPoint, k: int)
    requires
        apples.len() <= usize::MAX,
    ensures
        forall|t: int|
            0 <= t < apple_hits(apples, i, head, k).len() ==> ((#[trigger] apple_hits(
                apples,
                i,
                head,
                k,
            )[t]) matches Collision::Apple { snake_index, apple_index } && snake_index == i
                as usize && apple_index < apples.len() && apples[apple_index as int] == head),
    decreases apples.len() - k,
{
    if 0 <= k < apples.len() {
        lemma_apple_hits(apples, i, head, k + 1);
        let rest = apple_hits(apples, i, head, k + 1);
        if apples[k] == head {
            let all = apple_hits(apples, i, head, k);
            assert forall|t: int| 0 <= t < all.len() implies ((#[trigger] all[t]) matches Collision::Apple {
                snake_index,
                apple_index,
            } && snake_index == i as usize && apple_index < apples.len() && apples[apple_index as int]
                == head) by {
                if t > 0 {
                    assert(all[t] == rest[t - 1]);
                }
            }
        }
    }
}

/// Every collision found holds of the snakes, and a head-on crash of two
/// snakes is recorded once, for the first of them.
pub proof fn lemma_collisions_sound(snakes: Seq<(Seq<HexPoint>, bool)>, apples: Seq<HexPoint>, n: int)
    requires
        heads_present(snakes),
        0 <= n <= snakes.len(),
        snakes.len() <= usize::MAX,
        apples.len() <= usize::MAX,
        forall|j: int| 0 <= j < snakes.len() ==> (#[trigger] snakes[j]).0.len() <= usize::MAX,
    ensures
        forall|t: int|
            0 <= t < collisions_of(snakes, apples, n).len() ==> collision_holds(
                snakes,
                apples,
                n,
                #[trigger] collisions_of(snakes, apples, n)[t],
            ),
        forall|a: usize, b: usize|
            #![trigger collisions_of(snakes, apples, n).contains(Collision::Snake { snake1_index: a, snake2_index: b, snake2_segment_index: 0 })]
            collisions_of(snakes, apples, n).contains(
                Collision::Snake { snake1_index: a, snake2_index: b, snake2_segment_index: 0 },
            ) ==> !collisions_of(snakes, apples, n).contains(
                Collision::Snake { snake1_index: b, snake2_index: a, snake2_segment_index: 0 },
            ),
    decreases n,
{
    if n > 0 {
        lemma_collisions_sound(snakes, apples, n - 1);
        let prev = collisions_of(snakes, apples, n - 1);
        let i = n - 1;
        let all = collisions_of(snakes, apples, n);
        assert forall|t: int| 0 <= t < prev.len() implies collision_holds(snakes, apples, n, #[trigger] prev[t]) by {
            assert(collision_holds(snakes, apples, n - 1, prev[t]));
        }
        if snakes[i].1 {
            assert(snakes[i].0.len() > 0);
            let head = snakes[i].0[0];
            lemma_apple_hits(apples, i, head, 0);
            lemma_first_hit(snakes, i, head, 0);
            if let Some((j, k)) = first_hit(snakes, i, head, 0) {
                assert(snakes[j].0.len() <= usize::MAX);
            }
            let hits = apple_hits(apples, i, head, 0);
            let with_apples = prev + hits;
            assert forall|t: int| 0 <= t < with_apples.len() implies collision_holds(
                snakes,
                apples,
                n,
                #[trigger] with_apples[t],
            ) by {
                if t >= prev.len() {
                    assert(with_apples[t] == hits[t - prev.len()]);
                } else {
                    assert(with_apples[t] == prev[t]);
                }
            }
            // collisions recorded for earlier snakes have them as the first
            assert forall|c: Collision| #[trigger] with_apples.contains(c) && c is Snake implies c->snake1_index
                < i by {
                let t = choose|t: int| 0 <= t < with_apples.len() && with_apples[t] == c;
                assert(collision_holds(snakes, apples, n, with_apples[t]));
                if t >= prev.len() {
                    assert(with_apples[t] == hits[t - prev.len()]);
                } else {
                    assert(with_apples[t] == prev[t]);
                    assert(collision_holds(snakes, apples, n - 1, prev[t]));
                }
            }
            assert forall|a: usize, b: usize|
                #![trigger with_apples.contains(Collision::Snake { snake1_index: a, snake2_index: b, snake2_segment_index: 0 })]
                with_apples.contains(
                    Collision::Snake { snake1_index: a, snake2_index: b, snake2_segment_index: 0 },
                ) implies !with_apples.contains(
                    Collision::Snake { snake1_index: b, snake2_index: a, snake2_segment_index: 0 },
                ) by {
                let c1 = Collision::Snake { snake1_index: a, snake2_index: b, snake2_segment_index: 0 };
                let c2 = Collision::Snake { snake1_index: b, snake2_index: a, snake2_segment_index: 0 };
                if with_apples.contains(c2) {
                    let t1 = choose|t: int| 0 <= t < with_apples.len() && with_apples[t] == c1;
                    let t2 = choose|t: int| 0 <= t < with_apples.len() && with_apples[t] == c2;
                    if t1 >= prev.len() {
                        assert(with_apples[t1] == hits[t1 - prev.len()]);
                    }
                    if t2 >= prev.len() {
                        assert(with_apples[t2] == hits[t2 - prev.len()]);
                    }
                    assert(prev[t1] == c1 && prev[t2] == c2);
                    assert(prev.contains(c1));
                }
            }
            match first_hit(snakes, i, head, 0) {
                None => {},
                Some((j, k)) => {
                    let c = Collision::Snake {
                        snake1_index: i as usize,
                        snake2_index: j as usize,
                        snake2_segment_index: k as usize,
                    };
                    let mirror = Collision::Snake {
                        snake1_index: j as usize,
                        snake2_index: i as usize,
                        snake2_segment_index: 0,
                    };
                    if !(k == 0 && with_apples.contains(mirror)) {
                        assert(all == with_apples.push(c));
                        assert forall|t: int| 0 <= t < all.len() implies collision_holds(
                            snakes,
                            apples,
                            n,
                            #[trigger] all[t],
                        ) by {
                            if t < with_apples.len() {
                                assert(all[t] == with_apples[t]);
                            }
                        }
                        assert forall|a: usize, b: usize|
                            #![trigger all.contains(Collision::Snake { snake1_index: a, snake2_index: b, snake2_segment_index: 0 })]
                            all.contains(
                                Collision::Snake { snake1_index: a, snake2_index: b, snake2_segment_index: 0 },
                            ) implies !all.contains(
                                Collision::Snake { snake1_index: b, snake2_index: a, snake2_segment_index: 0 },
                            ) by {
                            let c1 = Collision::Snake { snake1_index: a, snake2_index: b, snake2_segment_index: 0 };
                            let c2 = Collision::Snake { snake1_index: b, snake2_index: a, snake2_segment_index: 0 };
                            if all.contains(c2) {
                                let t1 = choose|t: int| 0 <= t < all.len() && all[t] == c1;
                                let t2 = choose|t: int| 0 <= t < all.len() && all[t] == c2;
                                if t1 < with_apples.len() && t2 < with_apples.len() {
                                    assert(with_apples[t1] == c1 && with_apples[t2] == c2);
                                    assert(with_apples.contains(c1));
                                } else if t1 < with_apples.len() {
                                    assert(c2 == c);
                                    assert(with_apples[t1] == c1);
                                    assert(with_apples.contains(mirror));
                                } else if t2 < with_apples.len() {
                                    assert(c1 == c);
                                    assert(with_apples[t2] == c2);
                                    assert(with_apples.contains(mirror));
                                } else {
                                    assert(c1 == c2);
                                }
                            }
                        }
                    }
                },
            }
        }
    }
}


/// What a snake does on running into another snake, or into itself.
#[derive(Copy, Clone, PartialEq, Eq, Debug, Structural)]
pub enum EatBehavior {
    /// Cut the snake it ran into where it ran into it
    Cut,
    /// Crash, which ends the game
    Crash,
    /// Die
    Die,
}

/// What becomes of a collision.
#[derive(Copy, Clone, PartialEq, Eq, Debug, Structural)]
pub enum Consequence {
    /// The snake eats the apple
    Eat { snake_index: usize, apple_index: usize },
    /// The snake is cut at the segment: it and what follows it go
    Cut { snake_index: usize, segment_index: usize },
    /// The snake crashes, which ends the game
    Crash { snake_index: usize },
    /// The snake dies
    Die { snake_index: usize },
}

/// What comes of a collision, given what each snake does on running into
/// itself and into each other snake. A head-on collision is always a crash.
pub open spec fn consequence_of(
    c: Collision,
    eat_self: Seq<EatBehavior>,
    eat_other: Seq<Seq<EatBehavior>>,
) -> Consequence {
    match c {
        Collision::Apple { snake_index, apple_index } => Consequence::Eat { snake_index, apple_index },
        Collision::Snake { snake1_index, snake2_index, snake2_segment_index } => {
            let behavior = if snake2_segment_index == 0 {
                EatBehavior::Crash
            } else {
                eat_other[snake1_index as int][snake2_index as int]
            };
            match behavior {
                EatBehavior::Cut => Consequence::Cut {
                    snake_index: snake2_index,
                    segment_index: snake2_segment_index,
                },
                EatBehavior::Crash => Consequence::Crash { snake_index: snake1_index },
                EatBehavior::Die => Consequence::Die { snake_index: snake1_index },
            }
        },
        Collision::Itself { snake_index, snake_segment_index } => match eat_self[snake_index as int] {
            EatBehavior::Cut => Consequence::Cut { snake_index, segment_index: snake_segment_index },
            EatBehavior::Crash => Consequence::Crash { snake_index },
            EatBehavior::Die => Consequence::Die { snake_index },
        },
    }
}

/// What a collision decides, stated case by case: a snake that eats an apple
/// eats it; a head-on collision crashes the snake that ran in; otherwise the
/// behavior of the snake that ran in (for the snake it ran into, or for
/// itself) decides: `Crash` crashes it, `Die` kills it, `Cut` cuts the snake
/// it ran into at the segment it hit.
pub open spec fn collision_decided(
    c: Collision,
    result: Consequence,
    eat_self: Seq<EatBehavior>,
    eat_other: Seq<Seq<EatBehavior>>,
) -> bool {
    &&& c matches Collision::Apple { snake_index, apple_index } ==> result == (Consequence::Eat {
        snake_index,
        apple_index,
    })
    &&& c matches Collision::Snake { snake1_index, snake2_index, snake2_segment_index } ==> {
        &&& snake2_segment_index == 0 ==> result == (Consequence::Crash { snake_index: snake1_index })
        &&& snake2_segment_index != 0 && eat_other[snake1_index as int][snake2_index as int]
            == EatBehavior::Crash ==> result == (Consequence::Crash { snake_index: snake1_index })
        &&& snake2_segment_index != 0 && eat_other[snake1_index as int][snake2_index as int]
            == EatBehavior::Die ==> result == (Consequence::Die { snake_index: snake1_index })
        &&& snake2_segment_index != 0 && eat_other[snake1_index as int][snake2_index as int]
            == EatBehavior::Cut ==> result == (Consequence::Cut {
            snake_index: snake2_index,
            segment_index: snake2_segment_index,
        })
    }
    &&& c matches Collision::Itself { snake_index, snake_segment_index } ==> {
        &&& eat_self[snake_index as int] == EatBehavior::Crash ==> result == (Consequence::Crash {
            snake_index,
        })
        &&& eat_self[snake_index as int] == EatBehavior::Die ==> result == (Consequence::Die {
            snake_index,
        })
        &&& eat_self[snake_index as int] == EatBehavior::Cut ==> result == (Consequence::Cut {
            snake_index,
            segment_index: snake_segment_index,
        })
    }
}

/// Every collision comes to what [`collision_decided`] says: the behavior of
/// the snake that ran in decides, `Crash` crashing it (which ends the game),
/// `Die` killing it and `Cut` cutting the other snake.
pub proof fn lemma_collision_decided(c: Collision, eat_self: Seq<EatBehavior>, eat_other: Seq<Seq<EatBehavior>>)
    ensures
        collision_decided(c, consequence_of(c, eat_self, eat_other), eat_self, eat_other),
{
}

/// The behaviors a collision is decided by are given.
pub open spec fn behaviors_given(
    c: Collision,
    eat_self: Seq<EatBehavior>,
    eat_other: Seq<Seq<EatBehavior>>,
) -> bool {
    match c {
        Collision::Apple { .. } => true,
        Collision::Snake { snake1_index, snake2_index, snake2_segment_index } => snake2_segment_index
            == 0 || (snake1_index < eat_other.len() && snake2_index < eat_other[snake1_index as int].len()),
        Collision::Itself { snake_index, .. } => snake_index < eat_self.len(),
    }
}

/// The apples eaten, in the order of the collisions.
pub open spec fn eaten_apples(collisions: Seq<Collision>) -> Seq<usize>
    decreases collisions.len(),
{
    if collisions.len() == 0 {
        seq![]
    } else {
        let rest = eaten_apples(collisions.drop_last());
        match collisions.last() {
            Collision::Apple { apple_index, .. } => rest.push(apple_index),
            _ => rest,
        }
    }
}

pub open spec fn sorted(s: Seq<usize>) -> bool {
    forall|i: int, j: int| 0 <= i <= j < s.len() ==> s[i] <= s[j]
}

/// Add `x` to the sorted numbers `v` where it belongs.
fn insert_sorted(v: &mut Vec<usize>, x: usize)
    requires
        sorted(old(v)@),
    ensures
        sorted(final(v)@),
        final(v)@.to_multiset() == old(v)@.to_multiset().insert(x),
{
    let ghost s = v@;
    let mut i: usize = 0;
    while i < v.len() && v[i] <= x
        invariant
            s == v@,
            0 <= i <= s.len(),
            forall|j: int| 0 <= j < i ==> s[j] <= x,
        decreases s.len() - i,
    {
        i = i + 1;
    }
    v.insert(i, x);
    proof {
        vstd::seq_lib::to_multiset_insert(s, i as int, x);
        let t = v@;
        assert forall|a: int, b: int| 0 <= a <= b < t.len() implies t[a] <= t[b] by {
            if b < i {
            } else if a < i && b == i {
            } else if a < i {
                assert(t[b] == s[b - 1]);
            } else if a == i {
                if b > i {
                    assert(t[b] == s[b - 1]);
                    assert(s[i as int] > x);
                }
            } else {
                assert(t[a] == s[a - 1] && t[b] == s[b - 1]);
            }
        }
    }
}

/// What comes of each collision, in order; the apples eaten, in ascending
/// order; and whether a snake crashed, which ends the game.
pub fn handle_collisions(
    collisions: &Vec<Collision>,
    eat_self: &Vec<EatBehavior>,
    eat_other: &Vec<Vec<EatBehavior>>,
) -> (r: (Vec<Consequence>, Vec<usize>, bool))
    requires
        forall|t: int|
            0 <= t < collisions@.len() ==> behaviors_given(
                #[trigger] collisions@[t],
                eat_self@,
                eat_other@.map_values(|row: Vec<EatBehavior>| row@),
            ),
    ensures
        r.0@ == collisions@.map_values(
            |c: Collision| consequence_of(c, eat_self@, eat_other@.map_values(|row: Vec<EatBehavior>| row@)),
        ),
        sorted(r.1@),
        r.1@.to_multiset() == eaten_apples(collisions@).to_multiset(),
        r.2 == exists|t: int| 0 <= t < r.0@.len() && #[trigger] r.0@[t] is Crash,
        r.0@.len() == collisions@.len(),
        forall|t: int| 0 <= t < collisions@.len() ==> collision_decided(#[trigger] collisions@[t], r.0@[t], eat_self@, eat_other@.map_values(|row: Vec<EatBehavior>| row@)),
        forall|t: int| 0 <= t < collisions@.len() && #[trigger] r.0@[t] is Crash ==> r.2,
{
    proof {
        let others = eat_other@.map_values(|row: Vec<EatBehavior>| row@);
        assert forall|c: Collision| behaviors_given(c, eat_self@, others) implies collision_decided(
            c,
            consequence_of(c, eat_self@, others),
            eat_self@,
            others,
        ) by {
            lemma_collision_decided(c, eat_self@, others);
        }
    }
    let ghost others = eat_other@.map_values(|row: Vec<EatBehavior>| row@);
    let ghost all = collisions@.map_values(|c: Collision| consequence_of(c, eat_self@, others));
    let mut consequences: Vec<Consequence> = Vec::new();
    let mut remove_apples: Vec<usize> = Vec::new();
    let mut game_over = false;
    let mut t: usize = 0;
    while t < collisions.len()
        invariant
            0 <= t <= collisions@.len(),
            others == eat_other@.map_values(|row: Vec<EatBehavior>| row@),
            all == collisions@.map_values(|c: Collision| consequence_of(c, eat_self@, others)),
            forall|u: int| 0 <= u < collisions@.len() ==> behaviors_given(#[trigger] collisions@[u], eat_self@, others),
            consequences@ == all.take(t as int),
            sorted(remove_apples@),
            remove_apples@.to_multiset() == eaten_apples(collisions@.take(t as int)).to_multiset(),
            game_over == exists|u: int| 0 <= u < t && #[trigger] all[u] is Crash,
        decreases collisions@.len() - t,
    {
        let c = collisions[t];
        assert(behaviors_given(collisions@[t as int], eat_self@, others));
        let consequence = match c {
            Collision::Apple { snake_index, apple_index } => {
                insert_sorted(&mut remove_apples, apple_index);
                Consequence::Eat { snake_index, apple_index }
            },
            Collision::Snake { snake1_index, snake2_index, snake2_segment_index } => {
                let behavior = if snake2_segment_index == 0 {
                    EatBehavior::Crash
                } else {
                    assert(others[snake1_index as int] == eat_other@[snake1_index as int]@);
                    eat_other[snake1_index][snake2_index]
                };
                match behavior {
                    EatBehavior::Cut => Consequence::Cut {
                        snake_index: snake2_index,
                        segment_index: snake2_segment_index,
                    },
                    EatBehavior::Crash => Consequence::Crash { snake_index: snake1_index },
                    EatBehavior::Die => Consequence::Die { snake_index: snake1_index },
                }
            },
            Collision::Itself { snake_index, snake_segment_index } => match eat_self[snake_index] {
                EatBehavior::Cut => Consequence::Cut { snake_index, segment_index: snake_segment_index },
                EatBehavior::Crash => Consequence::Crash { snake_index },
                EatBehavior::Die => Consequence::Die { snake_index },
            },
        };
        if let Consequence::Crash { .. } = consequence {
            game_over = true;
        }
        consequences.push(consequence);
        proof {
            assert(all[t as int] == consequence);
            assert(consequences@ =~= all.take(t + 1));
            let taken = collisions@.take(t + 1);
            assert(taken.drop_last() =~= collisions@.take(t as int));
            assert(taken.last() == c);
            let before = eaten_apples(collisions@.take(t as int));
            match c {
                Collision::Apple { apple_index, .. } => {
                    assert(eaten_apples(taken) == before.push(apple_index));
                    vstd::seq_lib::to_multiset_build(before, apple_index);
                },
                _ => {
                    assert(eaten_apples(taken) == before);
                },
            }
        }
        t = t + 1;
    }
    proof {
        assert(all.take(t as int) =~= all);
        assert(collisions@.take(t as int) =~= collisions@);
    }
    (consequences, remove_apples, game_over)
}

} // verus!
