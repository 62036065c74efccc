use hexsnake::menu::Toggle;
use hexsnake::prefs::{DrawGrid, HintStyle, Prefs};

#[test]
fn labels_show_the_current_value() {
    let prefs = Prefs::default();
    assert_eq!(Toggle::Grid.label(&prefs), "Grid: lines");
    assert_eq!(Toggle::Border.label(&prefs), "Border: on");
    assert_eq!(Toggle::Hints.label(&prefs), "Edge hints: border");
    assert_eq!(Toggle::DrawStyle.label(&prefs), "Snake style: smooth");
    assert_eq!(Toggle::Fps.label(&prefs), "FPS counter: off");
    assert_eq!(Toggle::Autopilot.label(&prefs), "Autopilot");
}

#[test]
fn applying_moves_to_the_next_value_and_says_whether_to_save() {
    let mut prefs = Prefs::default();
    assert!(Toggle::Grid.apply(&mut prefs));
    assert_eq!(prefs.draw_grid, DrawGrid::Dots);
    assert_eq!(Toggle::Grid.label(&prefs), "Grid: dots");
    assert!(Toggle::Hints.apply(&mut prefs));
    assert_eq!(prefs.hint_style, HintStyle::Gradient);
    assert!(!Toggle::SpecialApples.apply(&mut prefs));
    assert!(!prefs.special_apples);
    let before = prefs;
    assert!(!Toggle::Autopilot.apply(&mut prefs));
    assert_eq!(prefs, before);
    for _ in 0..2 {
        Toggle::Grid.apply(&mut prefs);
    }
    assert_eq!(prefs.draw_grid, DrawGrid::Grid);
    assert_eq!(Toggle::prefs().len(), 7);
}

use hexsnake::controls_menu::{Flash, KeysAction, KeysScreen, PlayersAction};
use hexsnake::hex::Dir;
use hexsnake::key::{Controls, Key, KeyCode, Side};
use hexsnake::menu::{Confirm, Entry, Menu, MenuEvent};

#[test]
fn escape_walks_back_out_of_the_menus() {
    let mut menu = Menu::Closed;
    assert!(!menu.is_open());
    menu.open();
    assert_eq!(menu, Menu::Options);
    let mut prefs = Prefs::default();
    assert_eq!(menu.options_clicked(Entry::Controls, &mut prefs), (None, false));
    assert_eq!(menu, Menu::Players);
    let mut single = Side::Left;
    assert!(!menu.players_clicked(PlayersAction::Open(Side::Right), &mut single));
    menu.keys_clicked(KeysAction::Select(Dir::U));
    assert_eq!(menu, Menu::Keys(KeysScreen { side: Side::Right, listening: Some(Dir::U), flash: None }));
    assert_eq!(menu.back(), None);
    assert_eq!(menu, Menu::Keys(KeysScreen { side: Side::Right, listening: None, flash: None }));
    assert_eq!(menu.back(), None);
    assert_eq!(menu, Menu::Players);
    assert_eq!(menu.back(), None);
    assert_eq!(menu, Menu::Options);
    assert_eq!(menu.back(), Some(MenuEvent::Closed));
    assert_eq!(menu, Menu::Closed);
    assert_eq!(menu.back(), None);
}

#[test]
fn a_listening_key_takes_the_next_press() {
    let mut left = Controls::default_for(Side::Left);
    let mut right = Controls::default_for(Side::Right);
    let mut menu = Menu::Keys(KeysScreen { side: Side::Left, listening: Some(Dir::DR), flash: None });
    // Space is play/pause, not a binding
    assert_eq!(menu.key_pressed(KeyCode::Space, Key::Code(KeyCode::Space), &mut left, &mut right, 5), (true, None));
    assert_eq!(left.get(Dir::DR), Some(Key::Char('C')));
    // the right player's K moves over, and its old place flashes
    assert_eq!(menu.key_pressed(KeyCode::K, Key::Char('K'), &mut left, &mut right, 7), (true, None));
    assert_eq!(left.get(Dir::DR), Some(Key::Char('K')));
    assert_eq!(right.get(Dir::U), None);
    let flash = Flash { side: Side::Right, dir: Dir::U, since: 7 };
    assert_eq!(menu, Menu::Keys(KeysScreen { side: Side::Left, listening: None, flash: Some(flash) }));
    // not listening any more: presses go to the game
    assert_eq!(menu.key_pressed(KeyCode::J, Key::Char('J'), &mut left, &mut right, 9), (false, None));
    // and Esc still goes back
    assert_eq!(menu.key_pressed(KeyCode::Escape, Key::Code(KeyCode::Escape), &mut left, &mut right, 9), (true, None));
    assert_eq!(menu, Menu::Players);
    let mut closed = Menu::Closed;
    assert_eq!(closed.key_pressed(KeyCode::Escape, Key::Code(KeyCode::Escape), &mut left, &mut right, 9), (false, None));
}

#[test]
fn flashing_blinks_for_a_while_on_its_own_screen() {
    let mut screen = KeysScreen::new(Side::Left);
    screen.flash(Side::Left, Dir::U, 1000);
    assert!(screen.flashing(Dir::U, 1000));
    assert!(screen.flashing(Dir::U, 1099));
    assert!(!screen.flashing(Dir::U, 1100));
    assert!(screen.flashing(Dir::U, 1250));
    assert!(!screen.flashing(Dir::U, 1900));
    assert!(!screen.flashing(Dir::D, 1000));
    screen.flash(Side::Right, Dir::U, 1000);
    assert!(!screen.flashing(Dir::U, 1000));
}

#[test]
fn toggles_confirmations_and_the_single_player() {
    let mut prefs = Prefs::default();
    let mut menu = Menu::Options;
    assert_eq!(menu.options_clicked(Entry::Toggle(Toggle::Border), &mut prefs), (Some(MenuEvent::Toggled(Toggle::Border)), true));
    assert!(!prefs.draw_border);
    assert_eq!(menu.options_clicked(Entry::Toggle(Toggle::SpecialApples), &mut prefs), (Some(MenuEvent::Toggled(Toggle::SpecialApples)), false));
    assert_eq!(menu.options_clicked(Entry::Confirm(Confirm::Restart), &mut prefs), (None, false));
    assert_eq!(menu.confirm_answered(false), None);
    assert_eq!(menu, Menu::Options);
    menu.options_clicked(Entry::Confirm(Confirm::MainMenu), &mut prefs);
    assert_eq!(menu.confirm_answered(true), Some(MenuEvent::MainMenu));
    assert_eq!(menu, Menu::Closed);
    // clicks for another screen do nothing
    assert_eq!(menu.options_clicked(Entry::Close, &mut prefs), (None, false));
    let mut single = Side::Left;
    let mut players = Menu::Players;
    assert!(players.players_clicked(PlayersAction::SinglePlayer(Side::Right), &mut single));
    assert_eq!(single, Side::Right);
    assert!(!players.players_clicked(PlayersAction::Back, &mut single));
    assert_eq!(players, Menu::Options);
}

use hexsnake::options_menu::{layout, Line};

#[test]
fn the_options_layout_has_an_entry_for_every_button() {
    let options = vec![
        vec![(Toggle::Grid, "Grid: lines".to_string())],
        vec![(Toggle::Autopilot, "Autopilot".to_string()), (Toggle::PlayerPath, "Autopilot path: on".to_string())],
    ];
    let (entries, lines) = layout(&options, true);
    let kinds: Vec<Entry> = entries.iter().map(|e| e.0).collect();
    assert_eq!(
        kinds,
        vec![
            Entry::Close,
            Entry::Confirm(Confirm::Restart),
            Entry::Confirm(Confirm::MainMenu),
            Entry::Controls,
            Entry::Toggle(Toggle::Grid),
            Entry::Toggle(Toggle::Autopilot),
            Entry::Toggle(Toggle::PlayerPath),
        ]
    );
    let s = |x: &str| x.to_string();
    assert_eq!(
        lines,
        vec![
            Line::Buttons(vec![s("Close")]),
            Line::Buttons(vec![s("Restart"), s("Main menu")]),
            Line::Buttons(vec![s("Controls")]),
            Line::Gap,
            Line::Buttons(vec![s("Grid: lines")]),
            Line::Buttons(vec![s("Autopilot"), s("Autopilot path: on")]),
        ]
    );
    let buttons: Vec<String> = lines
        .iter()
        .flat_map(|l| match l {
            Line::Buttons(labels) => labels.clone(),
            Line::Gap => vec![],
        })
        .collect();
    let labels: Vec<String> = entries.into_iter().map(|e| e.1).collect();
    assert_eq!(buttons, labels);

    let (entries, lines) = layout(&vec![], false);
    assert_eq!(entries.len(), 2);
    assert_eq!(lines.len(), 3);
}
