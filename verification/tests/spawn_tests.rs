use hexsnake::apple_spawn::{
    apple_type_for, free_cell_count, free_spot_at, insert_ascending, occupied_cells, random_free_spot,
    snake_spawn_spot, spawn_apples, spawn_blocked_cells, AppleType, ScheduledSpawn, SpawnPolicy,
};
use hexsnake::prefs::Prefs;

fn cells(spawned: Vec<(HexPoint, AppleType)>) -> Vec<HexPoint> {
    spawned.into_iter().map(|a| a.0).collect()
}
use hexsnake::hex::HexPoint;
use hexsnake::random::thread_rng;

fn p(h: isize, v: isize) -> HexPoint {
    HexPoint { h, v }
}

#[test]
fn free_spots_skip_the_taken_cells() {
    let dim = p(3, 2);
    let occupied = vec![p(0, 0), p(2, 0), p(1, 1)];
    assert_eq!(free_spot_at(&occupied, dim, 0), p(1, 0));
    assert_eq!(free_spot_at(&occupied, dim, 1), p(0, 1));
    assert_eq!(free_spot_at(&occupied, dim, 2), p(2, 1));
}

#[test]
fn no_free_spot_on_a_full_board() {
    let dim = p(2, 1);
    let mut rng = thread_rng();
    assert_eq!(random_free_spot(&vec![p(0, 0), p(1, 0)], dim, &mut rng), None);
    assert_eq!(random_free_spot(&vec![p(0, 0)], dim, &mut rng), Some(p(1, 0)));
}

#[test]
fn occupied_cells_are_sorted_and_once() {
    let cells = occupied_cells(&vec![vec![p(2, 1), p(0, 0)], vec![p(0, 0), p(1, 0), p(0, 1)]]);
    assert_eq!(cells, vec![p(0, 0), p(1, 0), p(0, 1), p(2, 1)]);
    let mut cells = vec![p(0, 0), p(3, 0)];
    insert_ascending(&mut cells, p(1, 0));
    assert_eq!(cells, vec![p(0, 0), p(1, 0), p(3, 0)]);
}

#[test]
fn random_spawns_fill_free_cells_until_enough() {
    let dim = p(4, 4);
    let occupied = vec![p(1, 1), p(2, 2)];
    let mut rng = thread_rng();
    let mut policy = SpawnPolicy::Random { apple_count: 5 };
    let spawned = cells(spawn_apples(&mut policy, dim, occupied.clone(), 2, &Prefs::default(), &mut rng));
    assert_eq!(spawned.len(), 3);
    for (i, a) in spawned.iter().enumerate() {
        assert!(dim.contains(*a));
        assert!(!occupied.contains(a));
        assert!(!spawned[i + 1..].contains(a));
    }
    // a nearly full board gives what it has
    let mut policy = SpawnPolicy::Random { apple_count: 10 };
    let spawned = cells(spawn_apples(&mut policy, p(2, 1), vec![p(0, 0)], 0, &Prefs::default(), &mut rng));
    assert_eq!(spawned, vec![p(1, 0)]);
}

#[test]
fn scheduled_spawns_follow_the_schedule_and_wait() {
    let mut policy = SpawnPolicy::ScheduledOnEat {
        apple_count: 2,
        spawns: vec![
            ScheduledSpawn::Spawn(p(1, 1)),
            ScheduledSpawn::Wait { total: 2, current: 0 },
            ScheduledSpawn::Spawn(p(2, 2)),
        ],
        next_index: 0,
    };
    let mut rng = thread_rng();
    // the first spawn, then the wait stops it
    assert_eq!(cells(spawn_apples(&mut policy, p(5, 5), vec![], 0, &Prefs::default(), &mut rng)), vec![p(1, 1)]);
    // still waiting
    assert_eq!(cells(spawn_apples(&mut policy, p(5, 5), vec![], 1, &Prefs::default(), &mut rng)), vec![]);
    // the wait is over
    assert_eq!(cells(spawn_apples(&mut policy, p(5, 5), vec![], 1, &Prefs::default(), &mut rng)), vec![p(2, 2)]);
    match &policy {
        SpawnPolicy::ScheduledOnEat { next_index, spawns, .. } => {
            assert_eq!(*next_index, 0);
            assert_eq!(spawns[1], ScheduledSpawn::Wait { total: 2, current: 0 });
        }
        _ => unreachable!(),
    }
    // enough apples already: nothing changes
    assert_eq!(cells(spawn_apples(&mut policy, p(5, 5), vec![], 2, &Prefs::default(), &mut rng)), vec![]);
    let mut none = SpawnPolicy::NoApples;
    assert_eq!(cells(spawn_apples(&mut none, p(5, 5), vec![], 0, &Prefs::default(), &mut rng)), vec![]);
}

#[test]
fn apple_kinds_follow_the_chances() {
    let prefs = Prefs::default();
    // competitors for the first 25 thousandths, killers for the next 15
    assert_eq!(apple_type_for(&prefs, 0), AppleType::SpawnCompetitor);
    assert_eq!(apple_type_for(&prefs, 24), AppleType::SpawnCompetitor);
    assert_eq!(apple_type_for(&prefs, 25), AppleType::SpawnKiller);
    assert_eq!(apple_type_for(&prefs, 39), AppleType::SpawnKiller);
    assert_eq!(apple_type_for(&prefs, 40), AppleType::Food(1000));
    let plain = Prefs { special_apples: false, ..prefs };
    assert_eq!(apple_type_for(&plain, 0), AppleType::Food(1000));
    assert_eq!(free_cell_count(&vec![p(0, 0)], p(3, 2)), 5);
}

#[test]
fn snakes_do_not_spawn_near_a_player_head() {
    let dim = p(20, 20);
    let blocked = spawn_blocked_cells(&vec![p(0, 0)], &vec![p(10, 10)], dim);
    assert!(blocked.contains(&p(0, 0)));
    assert!(blocked.contains(&p(10, 10)));
    assert!(blocked.contains(&p(10, 3)));
    assert!(!blocked.contains(&p(10, 2)));
    assert!(!blocked.contains(&p(1, 0)));
    let mut sorted = blocked.clone();
    sorted.sort_by_key(|q| (q.v, q.h));
    assert_eq!(blocked, sorted);
}

#[test]
fn a_spawning_snake_takes_a_free_cell_far_from_the_players() {
    let dim = p(20, 1);
    let mut rng = thread_rng();
    let all_but_last: Vec<HexPoint> = (0..19).map(|h| p(h, 0)).collect();
    assert_eq!(snake_spawn_spot(&all_but_last, &vec![p(0, 0)], dim, &mut rng), Some(p(19, 0)));
    let nothing: Vec<HexPoint> = vec![];
    assert_eq!(snake_spawn_spot(&nothing, &vec![p(1, 1)], p(3, 3), &mut rng), None);
}
