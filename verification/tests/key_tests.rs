use hexsnake::hex::Dir;
use hexsnake::key::{code_name, side_name, Collector, Controls, Key, KeyCode, Platform, Side};

#[test]
fn case_does_not_make_a_different_key() {
    assert_eq!(Key::from_char('j'), Key::from_char('J'));
    assert_eq!(Key::from_char('é'), Some(Key::Char('É')));
}

#[test]
fn keys_that_type_nothing_are_not_chars() {
    for c in [' ', '\r', '\t', '\u{7f}', '\u{F702}'] {
        assert_eq!(Key::from_char(c), None, "{c:?}");
    }
}

#[test]
fn stored_keys_read_back() {
    for key in [Key::Char('J'), Key::Char(','), Key::Char('='), Key::Code(KeyCode::RightShift)] {
        assert_eq!(Key::from_text(&key.to_text()), Some(key));
    }
    assert_eq!(Key::from_text("code:Nonsense"), None);
}

#[test]
fn default_keys_are_in_direction_order() {
    let right = Controls::default_for(Side::Right);
    assert_eq!(right.get(Dir::UL), Some(Key::Char('J')));
    assert_eq!(right.get(Dir::DR), Some(Key::Char('.')));
    assert_eq!(right.dir_of(Key::Char('K')), Some(Dir::U));
}

#[test]
fn characters_that_uppercase_to_several_stay_as_typed() {
    assert_eq!(Key::from_char('ß'), Some(Key::Char('ß')));
    assert_eq!(Key::from_char('a'), Some(Key::Char('A')));
}

#[test]
fn stored_forms() {
    assert_eq!(Key::Char('J').to_text(), "char:J");
    assert_eq!(Key::Code(KeyCode::LeftShift).to_text(), "code:LeftShift");
    assert_eq!(Key::from_text("char:j"), Some(Key::Char('J')));
    assert_eq!(Key::from_text("char:JK"), None);
    assert_eq!(Key::from_text("char: "), None);
    assert_eq!(Key::from_text("code:F12"), Some(Key::Code(KeyCode::F12)));
    assert_eq!(Key::from_text("cod"), None);
    assert_eq!(code_name(KeyCode::KpEnter), "KpEnter");
}

#[test]
fn labels() {
    let shift = Key::Code(KeyCode::LeftShift);
    let mac = shift.label(Platform::Mac);
    assert_eq!((mac.side, mac.name.as_str(), mac.small), (Some("L"), "⇧", false));
    let other = Key::Code(KeyCode::RightSuper).label(Platform::Windows);
    assert_eq!((other.side, other.name.as_str(), other.small), (Some("R"), "Win", true));
    let up = Key::Code(KeyCode::Up).label(Platform::Other);
    assert_eq!((up.side, up.name.as_str(), up.small), (None, "↑", false));
    let f1 = Key::Code(KeyCode::F1).label(Platform::Mac);
    assert_eq!((f1.side, f1.name.as_str(), f1.small), (None, "F1", true));
    let j = Key::Char('J').label(Platform::Other);
    assert_eq!((j.side, j.name.as_str(), j.small), (None, "J", false));
}

#[test]
fn controls_bind_and_find() {
    let mut left = Controls::default_for(Side::Left);
    assert_eq!(left.get(Dir::U), Some(Key::Char('D')));
    left.set(Dir::U, None);
    assert_eq!(left.get(Dir::U), None);
    assert_eq!(left.dir_of(Key::Char('D')), None);
    left.set(Dir::D, Some(Key::Char('F')));
    // bound twice: the first clockwise from U
    assert_eq!(left.dir_of(Key::Char('F')), Some(Dir::UR));
    assert_eq!(side_name(Side::Right), "Right player");
}

#[test]
fn presses_pair_codes_with_characters() {
    let mut c = Collector::new();
    c.key_down(KeyCode::J, false);
    c.char_typed('h');
    c.key_down(KeyCode::LeftShift, false);
    c.key_down(KeyCode::Space, false);
    c.char_typed(' ');
    c.key_down(KeyCode::A, true);
    c.char_typed('a');
    c.char_typed('x');
    c.key_down(KeyCode::Up, false);
    c.flush();
    assert_eq!(
        c.presses,
        vec![
            Key::Char('H'),
            Key::Code(KeyCode::LeftShift),
            Key::Code(KeyCode::Space),
            Key::Code(KeyCode::Up),
        ]
    );
}

use hexsnake::key::bind_key;

#[test]
fn binding_a_key_moves_it_from_wherever_it_was() {
    let mut left = Controls::default_for(Side::Left);
    let mut right = Controls::default_for(Side::Right);
    // the right player's K (U) goes to the left player's DR
    let moved = bind_key(&mut left, &mut right, Side::Left, Dir::DR, Key::Char('K'));
    assert_eq!(moved, vec![(Side::Right, Dir::U)]);
    assert_eq!(left.get(Dir::DR), Some(Key::Char('K')));
    assert_eq!(right.get(Dir::U), None);
    assert_eq!(right.dir_of(Key::Char('K')), None);
    // binding a key where it already is moves nothing
    let moved = bind_key(&mut left, &mut right, Side::Left, Dir::DR, Key::Char('K'));
    assert!(moved.is_empty());
    assert_eq!(left.dir_of(Key::Char('K')), Some(Dir::DR));
    // the left player's S (UL) moves to the left player's U, which loses D
    let moved = bind_key(&mut left, &mut right, Side::Left, Dir::U, Key::Char('S'));
    assert_eq!(moved, vec![(Side::Left, Dir::UL)]);
    assert_eq!(left.get(Dir::U), Some(Key::Char('S')));
    assert_eq!(left.get(Dir::UL), None);
    assert_eq!(left.dir_of(Key::Char('D')), None);
}

#[test]
fn a_key_is_its_single_uppercase_character() {
    assert_eq!(Key::of_upper('a', &vec!['A']), Some(Key::Char('A')));
    assert_eq!(Key::of_upper('\u{df}', &vec!['S', 'S']), Some(Key::Char('\u{df}')));
    assert_eq!(Key::of_upper(' ', &vec![' ']), None);
    assert_eq!(Key::of_upper('\u{E010}', &vec!['\u{E010}']), None);
}
