use hexsnake::game::{toggled, Redraw};
use hexsnake::game_mode::GameMode;
use hexsnake::menu::Toggle;
use hexsnake::message::MessageID;
use hexsnake::prefs::{DrawGrid, HintStyle, Prefs};

fn note_after(toggle: Toggle, prefs: &Prefs) -> Option<String> {
    toggled(toggle, prefs, 1, Some(None)).notification
}

#[test]
fn grid_and_hints_are_announced_and_redrawn() {
    let mut prefs = Prefs::default();
    prefs.draw_grid = DrawGrid::Dots;
    let f = toggled(Toggle::Grid, &prefs, 1, Some(None));
    assert_eq!(f.notification.as_deref(), Some("Dot grid"));
    assert_eq!(f.redraw, vec![Redraw::Grid]);
    prefs.draw_grid = DrawGrid::Off;
    assert_eq!(note_after(Toggle::Grid, &prefs).as_deref(), Some("Grid off"));

    prefs.hint_style = HintStyle::Teleport;
    let f = toggled(Toggle::Hints, &prefs, 1, Some(None));
    assert_eq!(f.notification.as_deref(), Some("Teleport hints"));
    assert_eq!(f.redraw, vec![Redraw::BorderHints]);
}

#[test]
fn turning_things_off_clears_what_they_drew() {
    let mut prefs = Prefs::default();
    prefs.draw_distance_grid = false;
    let f = toggled(Toggle::DistanceGrid, &prefs, 1, Some(None));
    assert_eq!(f.notification.as_deref(), Some("Distance grid off"));
    assert_eq!(f.redraw, vec![Redraw::DistanceGrid]);
    prefs.draw_distance_grid = true;
    let f = toggled(Toggle::DistanceGrid, &prefs, 1, Some(None));
    assert_eq!(f.notification.as_deref(), Some("Distance grid on"));
    assert!(f.redraw.is_empty());

    prefs.draw_player_path = false;
    let f = toggled(Toggle::PlayerPath, &prefs, 1, Some(None));
    assert_eq!(f.notification.as_deref(), Some("Path off"));
    assert_eq!(f.redraw, vec![Redraw::PlayerPath]);
}

#[test]
fn counters_come_down_without_a_note() {
    let mut prefs = Prefs::default();
    prefs.display_fps = false;
    let f = toggled(Toggle::Fps, &prefs, 1, Some(None));
    assert_eq!(f.notification, None);
    assert_eq!(f.remove_message, Some(MessageID::Fps));
    prefs.display_stats = true;
    let f = toggled(Toggle::Stats, &prefs, 1, Some(None));
    assert_eq!(f.remove_message, None);
}

#[test]
fn autopilot_switches_only_for_a_single_player() {
    let prefs = Prefs::default();
    let f = toggled(Toggle::Autopilot, &prefs, 1, Some(Some(false)));
    assert_eq!(f.autopilot, Some(true));
    assert_eq!(f.notification.as_deref(), Some("Autopilot on"));
    let f = toggled(Toggle::Autopilot, &prefs, 1, Some(Some(true)));
    assert_eq!(f.autopilot, Some(false));
    assert_eq!(f.notification.as_deref(), Some("Autopilot off"));
    let f = toggled(Toggle::Autopilot, &prefs, 1, Some(None));
    assert_eq!(f.autopilot, None);
    assert_eq!(f.notification.as_deref(), Some("Autopilot not available"));
    let f = toggled(Toggle::Autopilot, &prefs, 2, None);
    assert_eq!(f.autopilot, None);
    assert_eq!(f.notification.as_deref(), Some("Can't use autopilot with 2 players"));
}

#[test]
fn special_apples_off_turns_them_into_food() {
    let mut prefs = Prefs::default();
    prefs.special_apples = false;
    let f = toggled(Toggle::SpecialApples, &prefs, 1, Some(None));
    assert!(f.replace_special_apples);
    assert_eq!(f.redraw, vec![Redraw::Apples]);
    assert_eq!(f.notification.as_deref(), Some("Special apples disabled"));
    prefs.special_apples = true;
    let f = toggled(Toggle::SpecialApples, &prefs, 1, Some(None));
    assert!(!f.replace_special_apples);
    assert_eq!(f.notification.as_deref(), Some("Special apples enabled"));
}

#[test]
fn draw_style_redraws_snakes_and_apples() {
    let prefs = Prefs::default();
    let f = toggled(Toggle::DrawStyle, &prefs, 1, Some(None));
    assert_eq!(f.redraw, vec![Redraw::Snakes, Redraw::Apples]);
    assert_eq!(f.notification.as_deref(), Some("draw style: smooth"));
    assert_eq!(note_after(Toggle::Border, &prefs).as_deref(), Some("Border on"));
}

#[test]
fn hunger_starves_snakes() {
    assert_eq!(GameMode::Classic.starvation(), 0);
    assert_eq!(GameMode::Hunger.starvation(), 300);
}

use hexsnake::fps_control::State;
use hexsnake::game::{key_action, KeyAction};
use hexsnake::key::{Key, KeyCode};

#[test]
fn space_plays_pauses_and_restarts() {
    let space = Key::Code(KeyCode::Space);
    assert_eq!(key_action(space, false, State::Playing), KeyAction::Pause);
    assert_eq!(key_action(space, false, State::Paused), KeyAction::Play);
    assert_eq!(key_action(space, false, State::GameOver), KeyAction::Restart);
    // with the menus open, Space is just another key
    assert_eq!(key_action(space, true, State::Paused), KeyAction::Ignore);
    assert_eq!(key_action(Key::Code(KeyCode::Escape), false, State::Playing), KeyAction::OpenMenu);
}

#[test]
fn debug_keys_and_steering() {
    assert_eq!(key_action(Key::Char('X'), false, State::Paused), KeyAction::Debug(Toggle::SpecialApples));
    assert_eq!(key_action(Key::Char('D'), false, State::Paused), KeyAction::Debug(Toggle::DistanceGrid));
    assert_eq!(key_action(Key::Char('7'), false, State::Playing), KeyAction::AppleFood(7));
    assert_eq!(key_action(Key::Char('0'), false, State::Playing), KeyAction::Steer);
    assert_eq!(key_action(Key::Code(KeyCode::Up), false, State::Paused), KeyAction::CellSize { larger: true });
    assert_eq!(key_action(Key::Char('['), false, State::Paused), KeyAction::Speed { faster: false });
    assert_eq!(key_action(Key::Char('K'), false, State::Playing), KeyAction::Steer);
    assert_eq!(key_action(Key::Char('K'), false, State::GameOver), KeyAction::Ignore);
}

use hexsnake::game::start_positions;
use hexsnake::hex::{Dir, HexPoint};

#[test]
fn snakes_start_side_by_side_in_the_middle() {
    let dim = HexPoint { h: 20, v: 10 };
    let starts = start_positions(&vec![false, true, false, false], dim);
    assert_eq!(
        starts,
        vec![
            Some((HexPoint { h: 9, v: 5 }, Dir::U)),
            None,
            Some((HexPoint { h: 10, v: 5 }, Dir::D)),
            Some((HexPoint { h: 11, v: 5 }, Dir::U)),
        ]
    );
    assert_eq!(start_positions(&vec![false], dim), vec![Some((HexPoint { h: 10, v: 5 }, Dir::U))]);
    assert_eq!(start_positions(&vec![true], dim), vec![None]);
}

use hexsnake::game::{key_effect, AppleKind, DrawStyle, GamePrefs, KeyEffect};

#[test]
fn keys_of_a_game_without_menus() {
    let mut prefs = GamePrefs::default();
    let mut apples = vec![AppleKind::Normal(1), AppleKind::SpawnSnake(0), AppleKind::Normal(1)];
    let (e, note) = key_effect(KeyCode::Key4, State::Playing, &mut prefs, &mut apples);
    assert_eq!(e, KeyEffect::AppleFood(4));
    assert_eq!(note.as_deref(), Some("Apple food: 4"));
    assert_eq!(prefs.apple_food, 4);
    assert_eq!(apples, vec![AppleKind::Normal(4), AppleKind::SpawnSnake(0), AppleKind::Normal(4)]);
    let (e, note) = key_effect(KeyCode::X, State::Playing, &mut prefs, &mut apples);
    assert_eq!(e, KeyEffect::SpecialApples);
    assert_eq!(note.as_deref(), Some("Special apples disabled"));
    assert_eq!(apples, vec![AppleKind::Normal(4); 3]);
    let (e, note) = key_effect(KeyCode::Escape, State::Paused, &mut prefs, &mut apples);
    assert_eq!(e, KeyEffect::DrawStyle);
    assert_eq!(prefs.draw_style, DrawStyle::Hexagon);
    assert_eq!(note.as_deref(), Some("draw style: hexagon"));
    let (e, note) = key_effect(KeyCode::G, State::Paused, &mut prefs, &mut apples);
    assert_eq!((e, note.as_deref()), (KeyEffect::Grid, Some("Grid on")));
    let (e, note) = key_effect(KeyCode::F, State::Paused, &mut prefs, &mut apples);
    assert_eq!((e, note), (KeyEffect::Fps { shown: true }, None));
    assert_eq!(key_effect(KeyCode::Space, State::GameOver, &mut prefs, &mut apples).0, KeyEffect::Restart);
    assert_eq!(key_effect(KeyCode::K, State::Paused, &mut prefs, &mut apples).0, KeyEffect::Ignore);
    assert_eq!(key_effect(KeyCode::K, State::Playing, &mut prefs, &mut apples).0, KeyEffect::Steer);
}
