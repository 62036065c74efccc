use hexsnake::advance::{advance_step, apply_consequences, count_down, settle, AppleCell, SnakeState, SnakeStatus};
use hexsnake::collisions::{Consequence, EatBehavior};
use hexsnake::game::AppleKind;
use hexsnake::hex::HexPoint;

fn p(h: isize, v: isize) -> HexPoint {
    HexPoint { h, v }
}

fn snake(cells: Vec<HexPoint>, life: Option<u32>) -> SnakeState {
    SnakeState { cells, status: SnakeStatus::Living, life, grow: 0, food: None }
}

#[test]
fn short_lived_snakes_count_down_and_die() {
    let mut snakes = vec![snake(vec![p(1, 1)], Some(2)), snake(vec![p(2, 2)], Some(0)), snake(vec![p(3, 3)], None)];
    count_down(&mut snakes);
    assert_eq!(snakes[0].life, Some(1));
    assert_eq!(snakes[0].status, SnakeStatus::Living);
    assert_eq!(snakes[1].status, SnakeStatus::Dying);
    assert_eq!(snakes[2].life, None);
    assert_eq!(snakes[2].status, SnakeStatus::Living);
}

#[test]
fn emptied_snakes_go_and_only_short_lived_ones_die() {
    let mut snakes = vec![snake(vec![], None), snake(vec![p(1, 1)], Some(3)), snake(vec![p(2, 2)], None)];
    assert!(!settle(&mut snakes));
    assert_eq!(snakes.len(), 2);
    assert_eq!(snakes[0].status, SnakeStatus::Living);
    let mut left = vec![snake(vec![p(1, 1)], Some(3)), snake(vec![], None)];
    assert!(!settle(&mut left));
    assert_eq!(left.len(), 1);
    assert_eq!(left[0].status, SnakeStatus::Dying);
    let mut none = vec![snake(vec![], None)];
    assert!(settle(&mut none));
}

#[test]
fn a_cut_a_crash_and_a_meal() {
    let mut snakes = vec![
        snake(vec![p(2, 2), p(2, 3)], None),
        snake(vec![p(7, 4), p(7, 5), p(7, 6), p(7, 7)], None),
        snake(vec![p(7, 6), p(8, 6)], None),
    ];
    let mut apples = vec![
        AppleCell { pos: p(2, 2), kind: AppleKind::Normal(3) },
        AppleCell { pos: p(9, 9), kind: AppleKind::SpawnSnake(4) },
    ];
    let eat_self = vec![EatBehavior::Crash; 3];
    let eat_other = vec![vec![EatBehavior::Cut; 3]; 3];
    let (game_over, spawn) = advance_step(&mut snakes, &mut apples, &eat_self, &eat_other);
    assert!(!game_over);
    assert_eq!(spawn, Vec::<usize>::new());
    assert_eq!(snakes[0].food, Some(3));
    assert_eq!(snakes[1].cells, vec![p(7, 4), p(7, 5)]);
    assert_eq!(snakes[1].grow, 0);
    assert_eq!(apples, vec![AppleCell { pos: p(9, 9), kind: AppleKind::SpawnSnake(4) }]);

    // a crash ends the game, and a crashed snake eats nothing
    let mut snakes = vec![snake(vec![p(1, 1)], None)];
    let mut apples = vec![AppleCell { pos: p(1, 1), kind: AppleKind::SpawnSnake(7) }];
    let cs = vec![Consequence::Crash { snake_index: 0 }, Consequence::Eat { snake_index: 0, apple_index: 0 }];
    assert_eq!(apply_consequences(&mut snakes, &mut apples, &cs), (true, vec![]));
    assert_eq!(snakes[0].status, SnakeStatus::Crashed);
    assert_eq!(apples.len(), 1);
    // cut short, a snake grows back to two cells
    let mut snakes = vec![snake(vec![p(1, 1), p(1, 2), p(1, 3)], None)];
    let cs = vec![Consequence::Cut { snake_index: 0, segment_index: 1 }, Consequence::Eat { snake_index: 0, apple_index: 0 }];
    assert_eq!(apply_consequences(&mut snakes, &mut apples, &cs), (false, vec![7]));
    assert_eq!(snakes[0].cells, vec![p(1, 1)]);
    assert_eq!(snakes[0].grow, 1);
    assert!(apples.is_empty());
}

#[test]
fn every_spawning_apple_brings_its_seed_in_order() {
    let mut snakes = vec![snake(vec![p(1, 1)], None), snake(vec![p(4, 4)], None)];
    let mut apples = vec![
        AppleCell { pos: p(1, 1), kind: AppleKind::SpawnSnake(3) },
        AppleCell { pos: p(4, 4), kind: AppleKind::SpawnSnake(8) },
    ];
    let cs = vec![
        Consequence::Eat { snake_index: 1, apple_index: 1 },
        Consequence::Eat { snake_index: 0, apple_index: 0 },
    ];
    assert_eq!(apply_consequences(&mut snakes, &mut apples, &cs), (false, vec![8, 3]));
    assert!(apples.is_empty());
}
