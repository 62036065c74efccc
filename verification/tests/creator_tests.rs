use hexsnake::hex::{Dir, HexPoint};
use hexsnake::key::{Controls, Key, KeyCode, Side};
use hexsnake::snake_control_creator::{Move, SnakeControlCreatorScreen};

#[test]
fn presses_become_turns_and_waits() {
    let mut screen = SnakeControlCreatorScreen::new(Controls::default_for(Side::Left));
    let start = HexPoint { h: 15, v: 10 };
    assert_eq!(screen.path(), &vec![start]);
    // D is up for the left player
    assert!(!screen.key_down_event(Key::Char('D')));
    assert!(!screen.key_down_event(Key::Char('D')));
    assert!(!screen.key_down_event(Key::Char('D')));
    assert_eq!(screen.moves(), &vec![Move::Turn(Dir::U), Move::Wait(2)]);
    assert_eq!(screen.head(), HexPoint { h: 15, v: 7 });
    // X is down: straight back, ignored
    assert!(screen.press_dir(Dir::D));
    assert_eq!(screen.path().len(), 4);
    // F is up-right
    assert!(!screen.key_down_event(Key::Char('F')));
    assert_eq!(screen.moves(), &vec![Move::Turn(Dir::U), Move::Wait(2), Move::Turn(Dir::UR)]);
    assert_eq!(screen.path().len(), 5);
    assert_eq!(*screen.path().last().unwrap(), screen.head());
    // Space asks for the moves to be printed, Esc starts over
    assert!(screen.key_down_event(Key::Code(KeyCode::Space)));
    assert!(!screen.key_down_event(Key::Code(KeyCode::Escape)));
    assert_eq!(screen.path(), &vec![start]);
    assert!(screen.moves().is_empty());
    assert_eq!(screen.head(), start);
}
