use hexsnake::hex::{Axis, Dir, HexPoint, TurnDirection, TurnType};
use hexsnake::portal::{Behavior, Edge, EdgeLayout, Portal};

#[test]
fn directions_go_clockwise_from_up() {
    assert_eq!(Dir::iter(), vec![Dir::U, Dir::UR, Dir::DR, Dir::D, Dir::DL, Dir::UL]);
    assert_eq!(Dir::UL.next_clockwise(), Dir::U);
    assert_eq!(-Dir::UR, Dir::DL);
    assert_eq!(Dir::DR.axis(), Axis::ULDR);
}

#[test]
fn turns() {
    assert_eq!(Dir::U.turn_type(Dir::D), TurnType::Straight);
    assert_eq!(Dir::U.turn_type(Dir::UR), TurnType::Sharp(TurnDirection::Clockwise));
    assert_eq!(Dir::U.turn_type(Dir::DR), TurnType::Blunt(TurnDirection::Clockwise));
    assert_eq!(Dir::U.blunt_turns(), [Dir::UL, Dir::UR]);
    assert_eq!(Dir::U.sharp_turns(), [Dir::DL, Dir::DR]);
    assert_eq!(Dir::DL.sharp_turns(), [Dir::DR, Dir::U]);
}

#[test]
fn translate_follows_the_columns() {
    let p = HexPoint { h: 3, v: 4 };
    assert_eq!(p.translate(Dir::U, 2), HexPoint { h: 3, v: 2 });
    assert_eq!(p.translate(Dir::UR, 1), HexPoint { h: 4, v: 4 });
    assert_eq!(p.translate(Dir::DR, 1), HexPoint { h: 4, v: 5 });
    assert_eq!(HexPoint { h: 4, v: 4 }.translate(Dir::UL, 1), HexPoint { h: 3, v: 3 });
    assert_eq!(p.translate(Dir::DL, 3), HexPoint { h: 0, v: 6 });
}

#[test]
fn neighborhood_has_every_close_cell_once() {
    let p = HexPoint { h: 5, v: 5 };
    assert_eq!(p.neighborhood(0), vec![p]);
    let ring = p.neighborhood(1);
    assert_eq!(ring.len(), 7);
    assert_eq!(ring[0], p);
    for dir in Dir::iter() {
        assert!(ring.contains(&p.translate(dir, 1)));
    }
    let big = p.neighborhood(4);
    assert_eq!(big.len(), 1 + 3 * 4 * 5);
    assert_eq!(p.neighborhood(2).len(), 19);
    let mut sorted = big.clone();
    sorted.sort();
    sorted.dedup();
    assert_eq!(sorted.len(), big.len());
    assert!(big.contains(&p.translate(Dir::D, 4)));
    assert!(!big.contains(&p.translate(Dir::D, 5)));
}

#[test]
fn wrapping_translate_comes_back_round() {
    let dim = HexPoint { h: 10, v: 10 };
    let p = HexPoint { h: 3, v: 0 };
    assert_eq!(p.wrapping_translate(Dir::U, 1, dim), HexPoint { h: 3, v: 9 });
    assert_eq!(HexPoint { h: 3, v: 9 }.wrapping_translate(Dir::D, 1, dim), p);
    assert_eq!(p.wrap_destination(Dir::D, dim), None);
    assert!(dim.contains(HexPoint { h: 9, v: 9 }));
    assert!(!dim.contains(HexPoint { h: 10, v: 0 }));
}

#[test]
fn numbered_directions() {
    assert_eq!(Dir::numbered(0), Dir::U);
    assert_eq!(Dir::numbered(1), Dir::D);
    assert_eq!(Dir::numbered(5), Dir::DR);
    let mut rng = hexsnake::random::thread_rng();
    for _ in 0..20 {
        let d = Dir::random(&mut rng);
        assert!(Dir::iter().contains(&d));
    }
}

#[test]
fn turns_a_heading_allows_agree_with_turn_types() {
    for d in Dir::iter() {
        for e in d.blunt_turns() {
            assert!(matches!((-d).turn_type(e), TurnType::Blunt(_)));
        }
        for e in d.sharp_turns() {
            assert!(matches!((-d).turn_type(e), TurnType::Sharp(_)));
        }
        assert_eq!((-d).turn_type(d), TurnType::Straight);
        assert_eq!(-(-d), d);
    }
}

#[test]
fn translating_back_returns_to_the_start() {
    for p in [HexPoint { h: 3, v: 4 }, HexPoint { h: 4, v: 4 }, HexPoint { h: -5, v: 7 }] {
        for dir in Dir::iter() {
            for dist in 0..6usize {
                assert_eq!(p.translate(dir, dist).translate(-dir, dist), p);
            }
        }
    }
}

#[test]
fn translations_add_up() {
    let p = HexPoint { h: 3, v: 4 };
    for dir in Dir::iter() {
        assert_eq!(p.translate(dir, 0), p);
        for a in 0..4usize {
            for b in 0..4usize {
                assert_eq!(p.translate(dir, a).translate(dir, b), p.translate(dir, a + b));
            }
            let q = p.translate(dir, a);
            if dir == Dir::U || dir == Dir::D {
                assert_eq!(q.h, p.h);
                assert_eq!((q.v - p.v).unsigned_abs(), a);
            } else {
                assert_eq!((q.h - p.h).unsigned_abs(), a);
            }
        }
    }
}

#[test]
fn updating_a_portal_twice_for_one_board_is_updating_once() {
    let mut portal = Portal::new(EdgeLayout::Sun);
    let before = portal.edges.clone();
    portal.update(HexPoint { h: 10, v: 10 });
    assert_eq!(portal.edges, before);
    portal.update(HexPoint { h: 21, v: 15 });
    let once = portal.edges.clone();
    assert_ne!(once, before);
    portal.update(HexPoint { h: 21, v: 15 });
    assert_eq!(portal.edges, once);
    assert_eq!(portal.board_dim, HexPoint { h: 21, v: 15 });
}

#[test]
fn a_portal_lays_out_its_own_edges_for_each_board() {
    let mut portal = Portal::new(|dim: HexPoint| {
        vec![Edge {
            a: HexPoint { h: 0, v: 0 },
            b: HexPoint { h: dim.h - 1, v: 0 },
            behavior_ab: Behavior::WrapAround,
            behavior_ba: Behavior::Die,
        }]
    });
    assert_eq!(portal.edges[0].b, HexPoint { h: 9, v: 0 });
    portal.update(HexPoint { h: 20, v: 5 });
    assert_eq!(portal.board_dim, HexPoint { h: 20, v: 5 });
    assert_eq!(
        portal.check(HexPoint { h: 0, v: 0 }, HexPoint { h: 19, v: 0 }),
        Some(Behavior::WrapAround)
    );
    assert_eq!(portal.check(HexPoint { h: 19, v: 0 }, HexPoint { h: 0, v: 0 }), Some(Behavior::Die));
    assert_eq!(portal.check(HexPoint { h: 0, v: 0 }, HexPoint { h: 9, v: 0 }), None);
}
