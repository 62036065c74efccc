use hexsnake::guidance::{Algorithm1, PathFinderTemplate, SearchPoint};
use hexsnake::hex::{Dir, HexPoint};

fn p(h: isize, v: isize) -> HexPoint {
    HexPoint { h, v }
}

fn is_step(a: HexPoint, b: HexPoint, dim: HexPoint) -> bool {
    Dir::iter().into_iter().any(|d| a.explicit_wrapping_translate(d, dim).0 == b)
}

#[test]
fn cost_counts_turns_and_teleports() {
    let sp = SearchPoint { parent: None, pos: p(0, 0), dir: Dir::U, len: 4, num_turns: 2, num_teleports: 1 };
    assert_eq!(sp.cost(), 4 + 2 * 5 + 15);
}

#[test]
fn straight_ahead_to_an_apple() {
    let finder = PathFinderTemplate::Algorithm1.into_pathfinder(Dir::U);
    let dim = p(10, 10);
    let path = finder.get_path(p(5, 5), Dir::U, &vec![p(5, 5)], &vec![p(5, 2)], dim).unwrap();
    assert_eq!(path, vec![p(5, 5), p(5, 4), p(5, 3), p(5, 2)]);
}

#[test]
fn wrapping_is_cheaper_than_a_long_way_round() {
    let dim = p(10, 30);
    // the apple is one step up across the top edge
    let path = Algorithm1.get_path(p(5, 0), Dir::U, &vec![], &vec![p(5, 29)], dim).unwrap();
    assert_eq!(path, vec![p(5, 0), p(5, 29)]);
    // on a short board, turning round and going down costs less than the wrap
    let dim = p(10, 10);
    let path = Algorithm1.get_path(p(5, 0), Dir::U, &vec![], &vec![p(5, 9)], dim).unwrap();
    assert_eq!(path.len(), 10);
}

#[test]
fn paths_avoid_what_is_off_limits() {
    let dim = p(8, 8);
    let head = p(3, 4);
    let wall = vec![head, p(3, 3), p(2, 3), p(4, 3)];
    let apple = p(3, 1);
    let path = Algorithm1.get_path(head, Dir::U, &wall, &vec![apple], dim).unwrap();
    assert_eq!(path[0], head);
    assert_eq!(*path.last().unwrap(), apple);
    for w in path.windows(2) {
        assert!(is_step(w[0], w[1], dim));
        assert!(!wall.contains(&w[1]));
    }
}

#[test]
fn no_path_when_walled_in() {
    let dim = p(6, 6);
    let head = p(2, 2);
    let mut wall = vec![head];
    for d in Dir::iter() {
        wall.push(head.translate(d, 1));
    }
    assert_eq!(Algorithm1.get_path(head, Dir::U, &wall, &vec![p(5, 5)], dim), None);
    assert_eq!(Algorithm1.get_path(head, Dir::U, &vec![], &vec![], dim), None);
}

#[test]
fn an_apple_under_the_head_is_not_a_path() {
    let dim = p(10, 10);
    let path = Algorithm1.get_path(p(5, 5), Dir::U, &vec![], &vec![p(5, 5), p(5, 3)], dim).unwrap();
    assert!(path.len() >= 2);
    assert_eq!(path, vec![p(5, 5), p(5, 4), p(5, 3)]);
}

#[test]
fn the_cheaper_apple_wins() {
    let dim = p(10, 10);
    // straight ahead three cells away, or one turn and two cells away
    let path = Algorithm1.get_path(p(5, 5), Dir::U, &vec![], &vec![p(7, 5), p(5, 2)], dim).unwrap();
    assert_eq!(*path.last().unwrap(), p(5, 2));
}
