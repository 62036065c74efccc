use hexsnake::collisions::{find_collisions, Collision, SnakeCells};
use hexsnake::hex::HexPoint;

fn p(h: isize, v: isize) -> HexPoint {
    HexPoint { h, v }
}

#[test]
fn heads_find_apples_and_bodies() {
    let snakes = vec![
        SnakeCells { cells: vec![p(1, 1), p(1, 2)], moving: true },
        SnakeCells { cells: vec![p(5, 5), p(1, 1), p(1, 0)], moving: true },
    ];
    let apples = vec![p(1, 1), p(3, 3), p(1, 1)];
    let collisions = find_collisions(&snakes, &apples);
    assert_eq!(
        collisions,
        vec![
            Collision::Apple { snake_index: 0, apple_index: 0 },
            Collision::Apple { snake_index: 0, apple_index: 2 },
            Collision::Snake { snake1_index: 0, snake2_index: 1, snake2_segment_index: 1 },
        ]
    );
}

#[test]
fn a_head_on_crash_is_recorded_once() {
    let snakes = vec![
        SnakeCells { cells: vec![p(2, 2), p(2, 3)], moving: true },
        SnakeCells { cells: vec![p(2, 2), p(2, 1)], moving: true },
    ];
    assert_eq!(
        find_collisions(&snakes, &vec![]),
        vec![Collision::Snake { snake1_index: 0, snake2_index: 1, snake2_segment_index: 0 }]
    );
}

#[test]
fn a_snake_can_bite_itself_but_stopped_snakes_do_not_collide() {
    let snakes = vec![
        SnakeCells { cells: vec![p(0, 0), p(0, 1), p(0, 0)], moving: true },
        SnakeCells { cells: vec![p(0, 1)], moving: false },
    ];
    assert_eq!(
        find_collisions(&snakes, &vec![p(0, 1)]),
        vec![Collision::Snake { snake1_index: 0, snake2_index: 0, snake2_segment_index: 2 }]
    );
}

use hexsnake::collisions::{handle_collisions, Consequence, EatBehavior};

#[test]
fn collisions_have_their_consequences() {
    let collisions = vec![
        Collision::Apple { snake_index: 0, apple_index: 3 },
        Collision::Snake { snake1_index: 0, snake2_index: 1, snake2_segment_index: 2 },
        Collision::Apple { snake_index: 1, apple_index: 1 },
        Collision::Itself { snake_index: 1, snake_segment_index: 4 },
        Collision::Snake { snake1_index: 1, snake2_index: 0, snake2_segment_index: 0 },
        Collision::Apple { snake_index: 1, apple_index: 3 },
    ];
    let eat_self = vec![EatBehavior::Crash, EatBehavior::Cut];
    let eat_other = vec![
        vec![EatBehavior::Crash, EatBehavior::Die],
        vec![EatBehavior::Cut, EatBehavior::Crash],
    ];
    let (consequences, apples, game_over) = handle_collisions(&collisions, &eat_self, &eat_other);
    assert_eq!(
        consequences,
        vec![
            Consequence::Eat { snake_index: 0, apple_index: 3 },
            Consequence::Die { snake_index: 0 },
            Consequence::Eat { snake_index: 1, apple_index: 1 },
            Consequence::Cut { snake_index: 1, segment_index: 4 },
            // head on: always a crash
            Consequence::Crash { snake_index: 1 },
            Consequence::Eat { snake_index: 1, apple_index: 3 },
        ]
    );
    assert_eq!(apples, vec![1, 3, 3]);
    assert!(game_over);
}

#[test]
fn no_crash_no_game_over() {
    let collisions = vec![Collision::Snake { snake1_index: 0, snake2_index: 0, snake2_segment_index: 3 }];
    let (consequences, apples, game_over) =
        handle_collisions(&collisions, &vec![EatBehavior::Cut], &vec![vec![EatBehavior::Cut]]);
    assert_eq!(consequences, vec![Consequence::Cut { snake_index: 0, segment_index: 3 }]);
    assert!(apples.is_empty());
    assert!(!game_over);
}
