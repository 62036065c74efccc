//! Keys as the player's keyboard layout names them.
//!
//! Key codes are positional on most platforms (macOS, Windows and the web
//! report where a key is, as if the keyboard were qwerty), so a key that
//! types something is identified by the character it types instead: on
//! dvorak, the key in qwerty's J position is `H`. Keys that type nothing
//! (modifiers, arrows, …) keep their key code. Nothing here knows the layout;
//! the character arrives right after the key press.

use vstd::prelude::*;

use crate::hex::{dir_at, dir_index, Dir};
use crate::prefs::push_all;
use crate::text::{chars_of, is_control, is_control_char, is_whitespace, is_ws, slice, string_of, text_is};

verus! {

/// The keys of a keyboard by position, as the windowing layer reports them.
#[derive(Copy, Clone, PartialEq, Eq, Debug, Hash, Structural)]
pub enum KeyCode {
    Space,
    Apostrophe,
    Comma,
    Minus,
    Period,
    Slash,
    Key0,
    Key1,
    Key2,
    Key3,
    Key4,
    Key5,
    Key6,
    Key7,
    Key8,
    Key9,
    Semicolon,
    Equal,
    A,
    B,
    C,
    D,
    E,
    F,
    G,
    H,
    I,
    J,
    K,
    L,
    M,
    N,
    O,
    P,
    Q,
    R,
    S,
    T,
    U,
    V,
    W,
    X,
    Y,
    Z,
    LeftBracket,
    Backslash,
    RightBracket,
    GraveAccent,
    World1,
    World2,
    Escape,
    Enter,
    Tab,
    Backspace,
    Insert,
    Delete,
    Right,
    Left,
    Down,
    Up,
    PageUp,
    PageDown,
    Home,
    End,
    CapsLock,
    ScrollLock,
    NumLock,
    PrintScreen,
    Pause,
    F1,
    F2,
    F3,
    F4,
    F5,
    F6,
    F7,
    F8,
    F9,
    F10,
    F11,
    F12,
    F13,
    F14,
    F15,
    F16,
    F17,
    F18,
    F19,
    F20,
    F21,
    F22,
    F23,
    F24,
    F25,
    Kp0,
    Kp1,
    Kp2,
    Kp3,
    Kp4,
    Kp5,
    Kp6,
    Kp7,
    Kp8,
    Kp9,
    KpDecimal,
    KpDivide,
    KpMultiply,
    KpSubtract,
    KpAdd,
    KpEnter,
    KpEqual,
    LeftShift,
    LeftControl,
    LeftAlt,
    LeftSuper,
    RightShift,
    RightControl,
    RightAlt,
    RightSuper,
    Menu,
    Back,
    Unknown,
}

/// The name of a key code in the stored preferences (a key code has no
/// stable number to store).
pub open spec fn code_name_of(code: KeyCode) -> Seq<char> {
    match code {
        KeyCode::Space => "Space"@,
        KeyCode::Apostrophe => "Apostrophe"@,
        KeyCode::Comma => "Comma"@,
        KeyCode::Minus => "Minus"@,
        KeyCode::Period => "Period"@,
        KeyCode::Slash => "Slash"@,
        KeyCode::Key0 => "Key0"@,
        KeyCode::Key1 => "Key1"@,
        KeyCode::Key2 => "Key2"@,
        KeyCode::Key3 => "Key3"@,
        KeyCode::Key4 => "Key4"@,
        KeyCode::Key5 => "Key5"@,
        KeyCode::Key6 => "Key6"@,
        KeyCode::Key7 => "Key7"@,
        KeyCode::Key8 => "Key8"@,
        KeyCode::Key9 => "Key9"@,
        KeyCode::Semicolon => "Semicolon"@,
        KeyCode::Equal => "Equal"@,
        KeyCode::A => "A"@,
        KeyCode::B => "B"@,
        KeyCode::C => "C"@,
        KeyCode::D => "D"@,
        KeyCode::E => "E"@,
        KeyCode::F => "F"@,
        KeyCode::G => "G"@,
        KeyCode::H => "H"@,
        KeyCode::I => "I"@,
        KeyCode::J => "J"@,
        KeyCode::K => "K"@,
        KeyCode::L => "L"@,
        KeyCode::M => "M"@,
        KeyCode::N => "N"@,
        KeyCode::O => "O"@,
        KeyCode::P => "P"@,
        KeyCode::Q => "Q"@,
        KeyCode::R => "R"@,
        KeyCode::S => "S"@,
        KeyCode::T => "T"@,
        KeyCode::U => "U"@,
        KeyCode::V => "V"@,
        KeyCode::W => "W"@,
        KeyCode::X => "X"@,
        KeyCode::Y => "Y"@,
        KeyCode::Z => "Z"@,
        KeyCode::LeftBracket => "LeftBracket"@,
        KeyCode::Backslash => "Backslash"@,
        KeyCode::RightBracket => "RightBracket"@,
        KeyCode::GraveAccent => "GraveAccent"@,
        KeyCode::World1 => "World1"@,
        KeyCode::World2 => "World2"@,
        KeyCode::Escape => "Escape"@,
        KeyCode::Enter => "Enter"@,
        KeyCode::Tab => "Tab"@,
        KeyCode::Backspace => "Backspace"@,
        KeyCode::Insert => "Insert"@,
        KeyCode::Delete => "Delete"@,
        KeyCode::Right => "Right"@,
        KeyCode::Left => "Left"@,
        KeyCode::Down => "Down"@,
        KeyCode::Up => "Up"@,
        KeyCode::PageUp => "PageUp"@,
        KeyCode::PageDown => "PageDown"@,
        KeyCode::Home => "Home"@,
        KeyCode::End => "End"@,
        KeyCode::CapsLock => "CapsLock"@,
        KeyCode::ScrollLock => "ScrollLock"@,
        KeyCode::NumLock => "NumLock"@,
        KeyCode::PrintScreen => "PrintScreen"@,
        KeyCode::Pause => "Pause"@,
        KeyCode::F1 => "F1"@,
        KeyCode::F2 => "F2"@,
        KeyCode::F3 => "F3"@,
        KeyCode::F4 => "F4"@,
        KeyCode::F5 => "F5"@,
        KeyCode::F6 => "F6"@,
        KeyCode::F7 => "F7"@,
        KeyCode::F8 => "F8"@,
        KeyCode::F9 => "F9"@,
        KeyCode::F10 => "F10"@,
        KeyCode::F11 => "F11"@,
        KeyCode::F12 => "F12"@,
        KeyCode::F13 => "F13"@,
        KeyCode::F14 => "F14"@,
        KeyCode::F15 => "F15"@,
        KeyCode::F16 => "F16"@,
        KeyCode::F17 => "F17"@,
        KeyCode::F18 => "F18"@,
        KeyCode::F19 => "F19"@,
        KeyCode::F20 => "F20"@,
        KeyCode::F21 => "F21"@,
        KeyCode::F22 => "F22"@,
        KeyCode::F23 => "F23"@,
        KeyCode::F24 => "F24"@,
        KeyCode::F25 => "F25"@,
        KeyCode::Kp0 => "Kp0"@,
        KeyCode::Kp1 => "Kp1"@,
        KeyCode::Kp2 => "Kp2"@,
        KeyCode::Kp3 => "Kp3"@,
        KeyCode::Kp4 => "Kp4"@,
        KeyCode::Kp5 => "Kp5"@,
        KeyCode::Kp6 => "Kp6"@,
        KeyCode::Kp7 => "Kp7"@,
        KeyCode::Kp8 => "Kp8"@,
        KeyCode::Kp9 => "Kp9"@,
        KeyCode::KpDecimal => "KpDecimal"@,
        KeyCode::KpDivide => "KpDivide"@,
        KeyCode::KpMultiply => "KpMultiply"@,
        KeyCode::KpSubtract => "KpSubtract"@,
        KeyCode::KpAdd => "KpAdd"@,
        KeyCode::KpEnter => "KpEnter"@,
        KeyCode::KpEqual => "KpEqual"@,
        KeyCode::LeftShift => "LeftShift"@,
        KeyCode::LeftControl => "LeftControl"@,
        KeyCode::LeftAlt => "LeftAlt"@,
        KeyCode::LeftSuper => "LeftSuper"@,
        KeyCode::RightShift => "RightShift"@,
        KeyCode::RightControl => "RightControl"@,
        KeyCode::RightAlt => "RightAlt"@,
        KeyCode::RightSuper => "RightSuper"@,
        KeyCode::Menu => "Menu"@,
        KeyCode::Back => "Back"@,
        KeyCode::Unknown => "Unknown"@,
    }
}

/// Every key code, in the order the stored names are looked up in.
pub open spec fn all_codes() -> Seq<KeyCode> {
    seq![
        KeyCode::Space,
        KeyCode::Apostrophe,
        KeyCode::Comma,
        KeyCode::Minus,
        KeyCode::Period,
        KeyCode::Slash,
        KeyCode::Key0,
        KeyCode::Key1,
        KeyCode::Key2,
        KeyCode::Key3,
        KeyCode::Key4,
        KeyCode::Key5,
        KeyCode::Key6,
        KeyCode::Key7,
        KeyCode::Key8,
        KeyCode::Key9,
        KeyCode::Semicolon,
        KeyCode::Equal,
        KeyCode::A,
        KeyCode::B,
        KeyCode::C,
        KeyCode::D,
        KeyCode::E,
        KeyCode::F,
        KeyCode::G,
        KeyCode::H,
        KeyCode::I,
        KeyCode::J,
        KeyCode::K,
        KeyCode::L,
        KeyCode::M,
        KeyCode::N,
        KeyCode::O,
        KeyCode::P,
        KeyCode::Q,
        KeyCode::R,
        KeyCode::S,
        KeyCode::T,
        KeyCode::U,
        KeyCode::V,
        KeyCode::W,
        KeyCode::X,
        KeyCode::Y,
        KeyCode::Z,
        KeyCode::LeftBracket,
        KeyCode::Backslash,
        KeyCode::RightBracket,
        KeyCode::GraveAccent,
        KeyCode::World1,
        KeyCode::World2,
        KeyCode::Escape,
        KeyCode::Enter,
        KeyCode::Tab,
        KeyCode::Backspace,
        KeyCode::Insert,
        KeyCode::Delete,
        KeyCode::Right,
        KeyCode::Left,
        KeyCode::Down,
        KeyCode::Up,
        KeyCode::PageUp,
        KeyCode::PageDown,
        KeyCode::Home,
        KeyCode::End,
        KeyCode::CapsLock,
        KeyCode::ScrollLock,
        KeyCode::NumLock,
        KeyCode::PrintScreen,
        KeyCode::Pause,
        KeyCode::F1,
        KeyCode::F2,
        KeyCode::F3,
        KeyCode::F4,
        KeyCode::F5,
        KeyCode::F6,
        KeyCode::F7,
        KeyCode::F8,
        KeyCode::F9,
        KeyCode::F10,
        KeyCode::F11,
        KeyCode::F12,
        KeyCode::F13,
        KeyCode::F14,
        KeyCode::F15,
        KeyCode::F16,
        KeyCode::F17,
        KeyCode::F18,
        KeyCode::F19,
        KeyCode::F20,
        KeyCode::F21,
        KeyCode::F22,
        KeyCode::F23,
        KeyCode::F24,
        KeyCode::F25,
        KeyCode::Kp0,
        KeyCode::Kp1,
        KeyCode::Kp2,
        KeyCode::Kp3,
        KeyCode::Kp4,
        KeyCode::Kp5,
        KeyCode::Kp6,
        KeyCode::Kp7,
        KeyCode::Kp8,
        KeyCode::Kp9,
        KeyCode::KpDecimal,
        KeyCode::KpDivide,
        KeyCode::KpMultiply,
        KeyCode::KpSubtract,
        KeyCode::KpAdd,
        KeyCode::KpEnter,
        KeyCode::KpEqual,
        KeyCode::LeftShift,
        KeyCode::LeftControl,
        KeyCode::LeftAlt,
        KeyCode::LeftSuper,
        KeyCode::RightShift,
        KeyCode::RightControl,
        KeyCode::RightAlt,
        KeyCode::RightSuper,
        KeyCode::Menu,
        KeyCode::Back,
        KeyCode::Unknown,
    ]
}

pub fn code_name(code: KeyCode) -> (name: &'static str)
    ensures
        name@ == code_name_of(code),
{
    match code {
        KeyCode::Space => "Space",
        KeyCode::Apostrophe => "Apostrophe",
        KeyCode::Comma => "Comma",
        KeyCode::Minus => "Minus",
        KeyCode::Period => "Period",
        KeyCode::Slash => "Slash",
        KeyCode::Key0 => "Key0",
        KeyCode::Key1 => "Key1",
        KeyCode::Key2 => "Key2",
        KeyCode::Key3 => "Key3",
        KeyCode::Key4 => "Key4",
        KeyCode::Key5 => "Key5",
        KeyCode::Key6 => "Key6",
        KeyCode::Key7 => "Key7",
        KeyCode::Key8 => "Key8",
        KeyCode::Key9 => "Key9",
        KeyCode::Semicolon => "Semicolon",
        KeyCode::Equal => "Equal",
        KeyCode::A => "A",
        KeyCode::B => "B",
        KeyCode::C => "C",
        KeyCode::D => "D",
        KeyCode::E => "E",
        KeyCode::F => "F",
        KeyCode::G => "G",
        KeyCode::H => "H",
        KeyCode::I => "I",
        KeyCode::J => "J",
        KeyCode::K => "K",
        KeyCode::L => "L",
        KeyCode::M => "M",
        KeyCode::N => "N",
        KeyCode::O => "O",
        KeyCode::P => "P",
        KeyCode::Q => "Q",
        KeyCode::R => "R",
        KeyCode::S => "S",
        KeyCode::T => "T",
        KeyCode::U => "U",
        KeyCode::V => "V",
        KeyCode::W => "W",
        KeyCode::X => "X",
        KeyCode::Y => "Y",
        KeyCode::Z => "Z",
        KeyCode::LeftBracket => "LeftBracket",
        KeyCode::Backslash => "Backslash",
        KeyCode::RightBracket => "RightBracket",
        KeyCode::GraveAccent => "GraveAccent",
        KeyCode::World1 => "World1",
        KeyCode::World2 => "World2",
        KeyCode::Escape => "Escape",
        KeyCode::Enter => "Enter",
        KeyCode::Tab => "Tab",
        KeyCode::Backspace => "Backspace",
        KeyCode::Insert => "Insert",
        KeyCode::Delete => "Delete",
        KeyCode::Right => "Right",
        KeyCode::Left => "Left",
        KeyCode::Down => "Down",
        KeyCode::Up => "Up",
        KeyCode::PageUp => "PageUp",
        KeyCode::PageDown => "PageDown",
        KeyCode::Home => "Home",
        KeyCode::End => "End",
        KeyCode::CapsLock => "CapsLock",
        KeyCode::ScrollLock => "ScrollLock",
        KeyCode::NumLock => "NumLock",
        KeyCode::PrintScreen => "PrintScreen",
        KeyCode::Pause => "Pause",
        KeyCode::F1 => "F1",
        KeyCode::F2 => "F2",
        KeyCode::F3 => "F3",
        KeyCode::F4 => "F4",
        KeyCode::F5 => "F5",
        KeyCode::F6 => "F6",
        KeyCode::F7 => "F7",
        KeyCode::F8 => "F8",
        KeyCode::F9 => "F9",
        KeyCode::F10 => "F10",
        KeyCode::F11 => "F11",
        KeyCode::F12 => "F12",
        KeyCode::F13 => "F13",
        KeyCode::F14 => "F14",
        KeyCode::F15 => "F15",
        KeyCode::F16 => "F16",
        KeyCode::F17 => "F17",
        KeyCode::F18 => "F18",
        KeyCode::F19 => "F19",
        KeyCode::F20 => "F20",
        KeyCode::F21 => "F21",
        KeyCode::F22 => "F22",
        KeyCode::F23 => "F23",
        KeyCode::F24 => "F24",
        KeyCode::F25 => "F25",
        KeyCode::Kp0 => "Kp0",
        KeyCode::Kp1 => "Kp1",
        KeyCode::Kp2 => "Kp2",
        KeyCode::Kp3 => "Kp3",
        KeyCode::Kp4 => "Kp4",
        KeyCode::Kp5 => "Kp5",
        KeyCode::Kp6 => "Kp6",
        KeyCode::Kp7 => "Kp7",
        KeyCode::Kp8 => "Kp8",
        KeyCode::Kp9 => "Kp9",
        KeyCode::KpDecimal => "KpDecimal",
        KeyCode::KpDivide => "KpDivide",
        KeyCode::KpMultiply => "KpMultiply",
        KeyCode::KpSubtract => "KpSubtract",
        KeyCode::KpAdd => "KpAdd",
        KeyCode::KpEnter => "KpEnter",
        KeyCode::KpEqual => "KpEqual",
        KeyCode::LeftShift => "LeftShift",
        KeyCode::LeftControl => "LeftControl",
        KeyCode::LeftAlt => "LeftAlt",
        KeyCode::LeftSuper => "LeftSuper",
        KeyCode::RightShift => "RightShift",
        KeyCode::RightControl => "RightControl",
        KeyCode::RightAlt => "RightAlt",
        KeyCode::RightSuper => "RightSuper",
        KeyCode::Menu => "Menu",
        KeyCode::Back => "Back",
        KeyCode::Unknown => "Unknown",
    }
}

fn all_key_codes() -> (codes: Vec<KeyCode>)
    ensures
        codes@ == all_codes(),
{
    let codes = vec![
        KeyCode::Space,
        KeyCode::Apostrophe,
        KeyCode::Comma,
        KeyCode::Minus,
        KeyCode::Period,
        KeyCode::Slash,
        KeyCode::Key0,
        KeyCode::Key1,
        KeyCode::Key2,
        KeyCode::Key3,
        KeyCode::Key4,
        KeyCode::Key5,
        KeyCode::Key6,
        KeyCode::Key7,
        KeyCode::Key8,
        KeyCode::Key9,
        KeyCode::Semicolon,
        KeyCode::Equal,
        KeyCode::A,
        KeyCode::B,
        KeyCode::C,
        KeyCode::D,
        KeyCode::E,
        KeyCode::F,
        KeyCode::G,
        KeyCode::H,
        KeyCode::I,
        KeyCode::J,
        KeyCode::K,
        KeyCode::L,
        KeyCode::M,
        KeyCode::N,
        KeyCode::O,
        KeyCode::P,
        KeyCode::Q,
        KeyCode::R,
        KeyCode::S,
        KeyCode::T,
        KeyCode::U,
        KeyCode::V,
        KeyCode::W,
        KeyCode::X,
        KeyCode::Y,
        KeyCode::Z,
        KeyCode::LeftBracket,
        KeyCode::Backslash,
        KeyCode::RightBracket,
        KeyCode::GraveAccent,
        KeyCode::World1,
        KeyCode::World2,
        KeyCode::Escape,
        KeyCode::Enter,
        KeyCode::Tab,
        KeyCode::Backspace,
        KeyCode::Insert,
        KeyCode::Delete,
        KeyCode::Right,
        KeyCode::Left,
        KeyCode::Down,
        KeyCode::Up,
        KeyCode::PageUp,
        KeyCode::PageDown,
        KeyCode::Home,
        KeyCode::End,
        KeyCode::CapsLock,
        KeyCode::ScrollLock,
        KeyCode::NumLock,
        KeyCode::PrintScreen,
        KeyCode::Pause,
        KeyCode::F1,
        KeyCode::F2,
        KeyCode::F3,
        KeyCode::F4,
        KeyCode::F5,
        KeyCode::F6,
        KeyCode::F7,
        KeyCode::F8,
        KeyCode::F9,
        KeyCode::F10,
        KeyCode::F11,
        KeyCode::F12,
        KeyCode::F13,
        KeyCode::F14,
        KeyCode::F15,
        KeyCode::F16,
        KeyCode::F17,
        KeyCode::F18,
        KeyCode::F19,
        KeyCode::F20,
        KeyCode::F21,
        KeyCode::F22,
        KeyCode::F23,
        KeyCode::F24,
        KeyCode::F25,
        KeyCode::Kp0,
        KeyCode::Kp1,
        KeyCode::Kp2,
        KeyCode::Kp3,
        KeyCode::Kp4,
        KeyCode::Kp5,
        KeyCode::Kp6,
        KeyCode::Kp7,
        KeyCode::Kp8,
        KeyCode::Kp9,
        KeyCode::KpDecimal,
        KeyCode::KpDivide,
        KeyCode::KpMultiply,
        KeyCode::KpSubtract,
        KeyCode::KpAdd,
        KeyCode::KpEnter,
        KeyCode::KpEqual,
        KeyCode::LeftShift,
        KeyCode::LeftControl,
        KeyCode::LeftAlt,
        KeyCode::LeftSuper,
        KeyCode::RightShift,
        KeyCode::RightControl,
        KeyCode::RightAlt,
        KeyCode::RightSuper,
        KeyCode::Menu,
        KeyCode::Back,
        KeyCode::Unknown,
    ];
    assert(codes@ =~= all_codes());
    codes
}

/// The first of `codes` that goes by `name`.
pub open spec fn code_named_in(codes: Seq<KeyCode>, name: Seq<char>) -> Option<KeyCode>
    decreases codes.len(),
{
    if codes.len() == 0 {
        None
    } else if code_name_of(codes[0]) == name {
        Some(codes[0])
    } else {
        code_named_in(codes.drop_first(), name)
    }
}

/// The key code that goes by `name`, if any.
fn code_named(name: &Vec<char>) -> (r: Option<KeyCode>)
    ensures
        r == code_named_in(all_codes(), name@),
{
    let codes = all_key_codes();
    let mut i: usize = 0;
    assert(codes@.skip(0) =~= codes@);
    while i < codes.len()
        invariant
            0 <= i <= codes@.len(),
            codes@ == all_codes(),
            code_named_in(all_codes(), name@) == code_named_in(codes@.skip(i as int), name@),
        decreases codes@.len() - i,
    {
        let c = codes[i];
        proof {
            let rest = codes@.skip(i as int);
            assert(rest[0] == c);
            assert(rest.drop_first() =~= codes@.skip(i + 1));
        }
        if text_is(name, code_name(c)) {
            return Some(c);
        }
        i = i + 1;
    }
    assert(codes@.skip(i as int) =~= Seq::<KeyCode>::empty());
    None
}

#[derive(Copy, Clone, PartialEq, Eq, Debug, Structural)]
pub enum Key {
    /// A key that types something, by what it types (always uppercase, so
    /// caps lock and shift don't make a different key)
    Char(char),
    /// A key that types nothing
    Code(KeyCode),
}

/// What std's `char::to_uppercase` yields for `c`: its uppercase mapping by
/// Unicode's tables, one or more characters.
pub uninterp spec fn upper_chars(c: char) -> Seq<char>;

/// std's `char::to_uppercase`, collected: the characters of the uppercase
/// mapping of `c` (a function of `c` alone).
#[verifier::external_body]
fn uppercase(c: char) -> (u: Vec<char>)
    ensures
        u@ == upper_chars(c),
{
    c.to_uppercase().collect()
}

/// The private-use characters, which macOS reports for arrows and function
/// keys.
pub open spec fn is_private_use(c: char) -> bool {
    '\u{E000}' <= c <= '\u{F8FF}'
}

/// The key that typed `c`: none for whitespace, control and private-use
/// characters; otherwise `c` uppercased, where that is a single character
/// (a few uppercase to several, ß to SS: those stay as typed).
pub open spec fn key_of_char(c: char) -> Option<Key> {
    key_of_upper_spec(c, upper_chars(c))
}

/// The key that typed `c`, whose uppercase mapping is `upper`: none for
/// whitespace, control and private-use characters; otherwise the uppercase
/// character, where it is a single one, or `c` as typed.
pub open spec fn key_of_upper_spec(c: char, upper: Seq<char>) -> Option<Key> {
    if is_control(c) || is_ws(c) || is_private_use(c) {
        None
    } else {
        Some(
            Key::Char(
                if upper.len() == 1 {
                    upper[0]
                } else {
                    c
                },
            ),
        )
    }
}

/// The stored form of a key: `char:J` or `code:LeftShift`.
pub open spec fn key_text(k: Key) -> Seq<char> {
    match k {
        Key::Char(c) => "char:"@.push(c),
        Key::Code(code) => "code:"@ + code_name_of(code),
    }
}

/// The key a stored form reads as.
pub open spec fn key_of_text(t: Seq<char>) -> Option<Key> {
    if t.len() >= 5 && t.take(5) == "char:"@ {
        if t.len() == 6 {
            key_of_char(t[5])
        } else {
            None
        }
    } else if t.len() >= 5 && t.take(5) == "code:"@ {
        match code_named_in(all_codes(), t.skip(5)) {
            Some(code) => Some(Key::Code(code)),
            None => None,
        }
    } else {
        None
    }
}

/// The stored form of keys, fixed by the file format: a typed character as
/// `char:` and the character, any other key as `code:` and the name of its
/// code, which is the code's own name (`LeftShift`, `F1`, `Kp0`, ...).
pub proof fn lemma_stored_key_names()
    ensures
        forall|c: char| #[trigger] key_text(Key::Char(c)) == "char:"@.push(c),
        forall|code: KeyCode| #[trigger] key_text(Key::Code(code)) == "code:"@ + code_name_of(code),
        code_name_of(KeyCode::Space) == "Space"@,
        code_name_of(KeyCode::Apostrophe) == "Apostrophe"@,
        code_name_of(KeyCode::Comma) == "Comma"@,
        code_name_of(KeyCode::Minus) == "Minus"@,
        code_name_of(KeyCode::Period) == "Period"@,
        code_name_of(KeyCode::Slash) == "Slash"@,
        code_name_of(KeyCode::Key0) == "Key0"@,
        code_name_of(KeyCode::Key1) == "Key1"@,
        code_name_of(KeyCode::Key2) == "Key2"@,
        code_name_of(KeyCode::Key3) == "Key3"@,
        code_name_of(KeyCode::Key4) == "Key4"@,
        code_name_of(KeyCode::Key5) == "Key5"@,
        code_name_of(KeyCode::Key6) == "Key6"@,
        code_name_of(KeyCode::Key7) == "Key7"@,
        code_name_of(KeyCode::Key8) == "Key8"@,
        code_name_of(KeyCode::Key9) == "Key9"@,
        code_name_of(KeyCode::Semicolon) == "Semicolon"@,
        code_name_of(KeyCode::Equal) == "Equal"@,
        code_name_of(KeyCode::A) == "A"@,
        code_name_of(KeyCode::B) == "B"@,
        code_name_of(KeyCode::C) == "C"@,
        code_name_of(KeyCode::D) == "D"@,
        code_name_of(KeyCode::E) == "E"@,
        code_name_of(KeyCode::F) == "F"@,
        code_name_of(KeyCode::G) == "G"@,
        code_name_of(KeyCode::H) == "H"@,
        code_name_of(KeyCode::I) == "I"@,
        code_name_of(KeyCode::J) == "J"@,
        code_name_of(KeyCode::K) == "K"@,
        code_name_of(KeyCode::L) == "L"@,
        code_name_of(KeyCode::M) == "M"@,
        code_name_of(KeyCode::N) == "N"@,
        code_name_of(KeyCode::O) == "O"@,
        code_name_of(KeyCode::P) == "P"@,
        code_name_of(KeyCode::Q) == "Q"@,
        code_name_of(KeyCode::R) == "R"@,
        code_name_of(KeyCode::S) == "S"@,
        code_name_of(KeyCode::T) == "T"@,
        code_name_of(KeyCode::U) == "U"@,
        code_name_of(KeyCode::V) == "V"@,
        code_name_of(KeyCode::W) == "W"@,
        code_name_of(KeyCode::X) == "X"@,
        code_name_of(KeyCode::Y) == "Y"@,
        code_name_of(KeyCode::Z) == "Z"@,
        code_name_of(KeyCode::LeftBracket) == "LeftBracket"@,
        code_name_of(KeyCode::Backslash) == "Backslash"@,
        code_name_of(KeyCode::RightBracket) == "RightBracket"@,
        code_name_of(KeyCode::GraveAccent) == "GraveAccent"@,
        code_name_of(KeyCode::World1) == "World1"@,
        code_name_of(KeyCode::World2) == "World2"@,
        code_name_of(KeyCode::Escape) == "Escape"@,
        code_name_of(KeyCode::Enter) == "Enter"@,
        code_name_of(KeyCode::Tab) == "Tab"@,
        code_name_of(KeyCode::Backspace) == "Backspace"@,
        code_name_of(KeyCode::Insert) == "Insert"@,
        code_name_of(KeyCode::Delete) == "Delete"@,
        code_name_of(KeyCode::Right) == "Right"@,
        code_name_of(KeyCode::Left) == "Left"@,
        code_name_of(KeyCode::Down) == "Down"@,
        code_name_of(KeyCode::Up) == "Up"@,
        code_name_of(KeyCode::PageUp) == "PageUp"@,
        code_name_of(KeyCode::PageDown) == "PageDown"@,
        code_name_of(KeyCode::Home) == "Home"@,
        code_name_of(KeyCode::End) == "End"@,
        code_name_of(KeyCode::CapsLock) == "CapsLock"@,
        code_name_of(KeyCode::ScrollLock) == "ScrollLock"@,
        code_name_of(KeyCode::NumLock) == "NumLock"@,
        code_name_of(KeyCode::PrintScreen) == "PrintScreen"@,
        code_name_of(KeyCode::Pause) == "Pause"@,
        code_name_of(KeyCode::F1) == "F1"@,
        code_name_of(KeyCode::F2) == "F2"@,
        code_name_of(KeyCode::F3) == "F3"@,
        code_name_of(KeyCode::F4) == "F4"@,
        code_name_of(KeyCode::F5) == "F5"@,
        code_name_of(KeyCode::F6) == "F6"@,
        code_name_of(KeyCode::F7) == "F7"@,
        code_name_of(KeyCode::F8) == "F8"@,
        code_name_of(KeyCode::F9) == "F9"@,
        code_name_of(KeyCode::F10) == "F10"@,
        code_name_of(KeyCode::F11) == "F11"@,
        code_name_of(KeyCode::F12) == "F12"@,
        code_name_of(KeyCode::F13) == "F13"@,
        code_name_of(KeyCode::F14) == "F14"@,
        code_name_of(KeyCode::F15) == "F15"@,
        code_name_of(KeyCode::F16) == "F16"@,
        code_name_of(KeyCode::F17) == "F17"@,
        code_name_of(KeyCode::F18) == "F18"@,
        code_name_of(KeyCode::F19) == "F19"@,
        code_name_of(KeyCode::F20) == "F20"@,
        code_name_of(KeyCode::F21) == "F21"@,
        code_name_of(KeyCode::F22) == "F22"@,
        code_name_of(KeyCode::F23) == "F23"@,
        code_name_of(KeyCode::F24) == "F24"@,
        code_name_of(KeyCode::F25) == "F25"@,
        code_name_of(KeyCode::Kp0) == "Kp0"@,
        code_name_of(KeyCode::Kp1) == "Kp1"@,
        code_name_of(KeyCode::Kp2) == "Kp2"@,
        code_name_of(KeyCode::Kp3) == "Kp3"@,
        code_name_of(KeyCode::Kp4) == "Kp4"@,
        code_name_of(KeyCode::Kp5) == "Kp5"@,
        code_name_of(KeyCode::Kp6) == "Kp6"@,
        code_name_of(KeyCode::Kp7) == "Kp7"@,
        code_name_of(KeyCode::Kp8) == "Kp8"@,
        code_name_of(KeyCode::Kp9) == "Kp9"@,
        code_name_of(KeyCode::KpDecimal) == "KpDecimal"@,
        code_name_of(KeyCode::KpDivide) == "KpDivide"@,
        code_name_of(KeyCode::KpMultiply) == "KpMultiply"@,
        code_name_of(KeyCode::KpSubtract) == "KpSubtract"@,
        code_name_of(KeyCode::KpAdd) == "KpAdd"@,
        code_name_of(KeyCode::KpEnter) == "KpEnter"@,
        code_name_of(KeyCode::KpEqual) == "KpEqual"@,
        code_name_of(KeyCode::LeftShift) == "LeftShift"@,
        code_name_of(KeyCode::LeftControl) == "LeftControl"@,
        code_name_of(KeyCode::LeftAlt) == "LeftAlt"@,
        code_name_of(KeyCode::LeftSuper) == "LeftSuper"@,
        code_name_of(KeyCode::RightShift) == "RightShift"@,
        code_name_of(KeyCode::RightControl) == "RightControl"@,
        code_name_of(KeyCode::RightAlt) == "RightAlt"@,
        code_name_of(KeyCode::RightSuper) == "RightSuper"@,
        code_name_of(KeyCode::Menu) == "Menu"@,
        code_name_of(KeyCode::Back) == "Back"@,
        code_name_of(KeyCode::Unknown) == "Unknown"@,
{
}

/// The platform a key is labelled for.
#[derive(Copy, Clone, PartialEq, Eq, Debug, Structural)]
pub enum Platform {
    Mac,
    Windows,
    Other,
}

/// How a key is shown on its button: an optional `L`/`R` for keys that come
/// in pairs, then the key's name, which is smaller when it's a word rather
/// than a symbol.
pub struct KeyLabel {
    pub side: Option<&'static str>,
    pub name: String,
    pub small: bool,
}

/// The side of a key that comes in pairs.
pub open spec fn code_side(code: KeyCode) -> Option<Seq<char>> {
    match code {
        KeyCode::LeftShift | KeyCode::LeftControl | KeyCode::LeftAlt | KeyCode::LeftSuper => Some(
            "L"@,
        ),
        KeyCode::RightShift | KeyCode::RightControl | KeyCode::RightAlt | KeyCode::RightSuper => Some(
            "R"@,
        ),
        _ => None,
    }
}

/// A key shown as a symbol on a Mac and as a word elsewhere.
pub open spec fn code_symbol_word(code: KeyCode, platform: Platform) -> Option<(Seq<char>, Seq<char>)> {
    match code {
        KeyCode::LeftShift | KeyCode::RightShift => Some(("⇧"@, "Shift"@)),
        KeyCode::LeftControl | KeyCode::RightControl => Some(("⌃"@, "Ctrl"@)),
        KeyCode::LeftAlt | KeyCode::RightAlt => Some(("⌥"@, "Alt"@)),
        KeyCode::LeftSuper | KeyCode::RightSuper => Some(
            (
                "⌘"@,
                if platform == Platform::Windows {
                    "Win"@
                } else {
                    "Super"@
                },
            ),
        ),
        KeyCode::CapsLock => Some(("⇪"@, "Caps"@)),
        KeyCode::Tab => Some(("⇥"@, "Tab"@)),
        KeyCode::Enter => Some(("↩"@, "Enter"@)),
        KeyCode::Backspace => Some(("⌫"@, "Bksp"@)),
        KeyCode::Delete => Some(("⌦"@, "Del"@)),
        _ => None,
    }
}

/// The arrows, shown as the same symbols everywhere.
pub open spec fn arrow_symbol(code: KeyCode) -> Option<Seq<char>> {
    match code {
        KeyCode::Left => Some("←"@),
        KeyCode::Up => Some("↑"@),
        KeyCode::Right => Some("→"@),
        KeyCode::Down => Some("↓"@),
        _ => None,
    }
}

/// A key's label as its side, its name and whether the name is small.
pub open spec fn key_label(k: Key, platform: Platform) -> (Option<Seq<char>>, Seq<char>, bool) {
    match k {
        Key::Char(c) => (None, seq![c], false),
        Key::Code(code) => match code_symbol_word(code, platform) {
            Some((symbol, word)) => if platform == Platform::Mac {
                (code_side(code), symbol, false)
            } else {
                (code_side(code), word, true)
            },
            None => match arrow_symbol(code) {
                Some(symbol) => (None, symbol, false),
                None => (None, code_name_of(code), true),
            },
        },
    }
}

/// How keys are labelled: a typed character by itself; each arrow by its own
/// arrow, on every platform; the keys that come in pairs with their side
/// (`L` or `R`); and the modifiers and editing keys by a symbol on a Mac, a
/// smaller word elsewhere.
pub proof fn lemma_key_labels(platform: Platform)
    ensures
        forall|c: char| #[trigger] key_label(Key::Char(c), platform) == (None::<Seq<char>>, seq![c], false),
        key_label(Key::Code(KeyCode::Left), platform) == (None::<Seq<char>>, "←"@, false),
        key_label(Key::Code(KeyCode::Up), platform) == (None::<Seq<char>>, "↑"@, false),
        key_label(Key::Code(KeyCode::Right), platform) == (None::<Seq<char>>, "→"@, false),
        key_label(Key::Code(KeyCode::Down), platform) == (None::<Seq<char>>, "↓"@, false),
        key_label(Key::Code(KeyCode::LeftShift), platform) == if platform == Platform::Mac {
            (Some("L"@), "⇧"@, false)
        } else {
            (Some("L"@), "Shift"@, true)
        },
        key_label(Key::Code(KeyCode::RightShift), platform) == if platform == Platform::Mac {
            (Some("R"@), "⇧"@, false)
        } else {
            (Some("R"@), "Shift"@, true)
        },
        key_label(Key::Code(KeyCode::LeftControl), platform) == if platform == Platform::Mac {
            (Some("L"@), "⌃"@, false)
        } else {
            (Some("L"@), "Ctrl"@, true)
        },
        key_label(Key::Code(KeyCode::RightControl), platform) == if platform == Platform::Mac {
            (Some("R"@), "⌃"@, false)
        } else {
            (Some("R"@), "Ctrl"@, true)
        },
        key_label(Key::Code(KeyCode::LeftAlt), platform) == if platform == Platform::Mac {
            (Some("L"@), "⌥"@, false)
        } else {
            (Some("L"@), "Alt"@, true)
        },
        key_label(Key::Code(KeyCode::RightAlt), platform) == if platform == Platform::Mac {
            (Some("R"@), "⌥"@, false)
        } else {
            (Some("R"@), "Alt"@, true)
        },
        key_label(Key::Code(KeyCode::LeftSuper), platform) == if platform == Platform::Mac {
            (Some("L"@), "⌘"@, false)
        } else if platform == Platform::Windows {
            (Some("L"@), "Win"@, true)
        } else {
            (Some("L"@), "Super"@, true)
        },
        key_label(Key::Code(KeyCode::RightSuper), platform) == if platform == Platform::Mac {
            (Some("R"@), "⌘"@, false)
        } else if platform == Platform::Windows {
            (Some("R"@), "Win"@, true)
        } else {
            (Some("R"@), "Super"@, true)
        },
        key_label(Key::Code(KeyCode::CapsLock), platform) == if platform == Platform::Mac {
            (None::<Seq<char>>, "⇪"@, false)
        } else {
            (None::<Seq<char>>, "Caps"@, true)
        },
        key_label(Key::Code(KeyCode::Tab), platform) == if platform == Platform::Mac {
            (None::<Seq<char>>, "⇥"@, false)
        } else {
            (None::<Seq<char>>, "Tab"@, true)
        },
        key_label(Key::Code(KeyCode::Enter), platform) == if platform == Platform::Mac {
            (None::<Seq<char>>, "↩"@, false)
        } else {
            (None::<Seq<char>>, "Enter"@, true)
        },
        key_label(Key::Code(KeyCode::Backspace), platform) == if platform == Platform::Mac {
            (None::<Seq<char>>, "⌫"@, false)
        } else {
            (None::<Seq<char>>, "Bksp"@, true)
        },
        key_label(Key::Code(KeyCode::Delete), platform) == if platform == Platform::Mac {
            (None::<Seq<char>>, "⌦"@, false)
        } else {
            (None::<Seq<char>>, "Del"@, true)
        },
{
}

pub open spec fn label_view(label: KeyLabel) -> (Option<Seq<char>>, Seq<char>, bool) {
    (
        match label.side {
            Some(s) => Some(s@),
            None => None,
        },
        label.name@,
        label.small,
    )
}

fn text_of(s: &str) -> (t: String)
    ensures
        t@ == s@,
{
    string_of(&chars_of(s))
}

fn symbol(name: &str) -> (label: KeyLabel)
    ensures
        label_view(label) == (None::<Seq<char>>, name@, false),
{
    KeyLabel { side: None, name: text_of(name), small: false }
}

impl Key {
    /// The key that typed `c`, or `None` if `c` is not something a key is
    /// named by (whitespace, control characters, and the private-use
    /// characters macOS reports for arrows and function keys).
    pub fn from_char(c: char) -> (k: Option<Key>)
        ensures
            k == key_of_char(c),
    {
        let upper = uppercase(c);
        Key::of_upper(c, &upper)
    }

    /// The key that typed `c`, given `upper`, the uppercase mapping of `c`
    /// (see [`key_of_upper_spec`]).
    pub fn of_upper(c: char, upper: &Vec<char>) -> (k: Option<Key>)
        ensures
            k == key_of_upper_spec(c, upper@),
    {
        let private_use = '\u{E000}' <= c && c <= '\u{F8FF}';
        if is_control_char(c) || is_whitespace(c) || private_use {
            return None;
        }
        Some(
            Key::Char(
                if upper.len() == 1 {
                    upper[0]
                } else {
                    c
                },
            ),
        )
    }

    /// The stored form of a key: `char:J` or `code:LeftShift`.
    pub fn to_text(self) -> (text: String)
        ensures
            text@ == key_text(self),
    {
        match self {
            Key::Char(c) => {
                let mut out = chars_of("char:");
                out.push(c);
                string_of(&out)
            },
            Key::Code(code) => {
                let mut out = chars_of("code:");
                push_all(&mut out, &chars_of(code_name(code)));
                string_of(&out)
            },
        }
    }

    /// The key a stored form reads as, if any.
    pub fn from_text(text: &str) -> (k: Option<Key>)
        ensures
            k == key_of_text(text@),
    {
        let t = chars_of(text);
        if t.len() < 5 {
            return None;
        }
        let head = slice(&t, 0, 5);
        assert(head@ =~= t@.take(5));
        if text_is(&head, "char:") {
            if t.len() == 6 {
                return Key::from_char(t[5]);
            }
            return None;
        }
        if text_is(&head, "code:") {
            let name = slice(&t, 5, t.len());
            assert(name@ =~= t@.skip(5));
            return match code_named(&name) {
                Some(code) => Some(Key::Code(code)),
                None => None,
            };
        }
        None
    }

    /// How the key is shown on its button on `platform`.
    pub fn label(self, platform: Platform) -> (label: KeyLabel)
        ensures
            label_view(label) == key_label(self, platform),
    {
        let code = match self {
            Key::Char(c) => {
                let mut name: Vec<char> = Vec::new();
                name.push(c);
                assert(name@ =~= seq![c]);
                return KeyLabel { side: None, name: string_of(&name), small: false };
            },
            Key::Code(code) => code,
        };
        let side: Option<&'static str> = match code {
            KeyCode::LeftShift | KeyCode::LeftControl | KeyCode::LeftAlt | KeyCode::LeftSuper => Some(
                "L",
            ),
            KeyCode::RightShift | KeyCode::RightControl | KeyCode::RightAlt | KeyCode::RightSuper => Some(
                "R",
            ),
            _ => None,
        };
        let (symbol_text, word): (&'static str, &'static str) = match code {
            KeyCode::LeftShift | KeyCode::RightShift => ("⇧", "Shift"),
            KeyCode::LeftControl | KeyCode::RightControl => ("⌃", "Ctrl"),
            KeyCode::LeftAlt | KeyCode::RightAlt => ("⌥", "Alt"),
            KeyCode::LeftSuper | KeyCode::RightSuper => (
                "⌘",
                if platform == Platform::Windows {
                    "Win"
                } else {
                    "Super"
                },
            ),
            KeyCode::CapsLock => ("⇪", "Caps"),
            KeyCode::Tab => ("⇥", "Tab"),
            KeyCode::Enter => ("↩", "Enter"),
            KeyCode::Backspace => ("⌫", "Bksp"),
            KeyCode::Delete => ("⌦", "Del"),
            // the same symbols everywhere
            KeyCode::Left => {
                return symbol("←");
            },
            KeyCode::Up => {
                return symbol("↑");
            },
            KeyCode::Right => {
                return symbol("→");
            },
            KeyCode::Down => {
                return symbol("↓");
            },
            _ => {
                return KeyLabel { side: None, name: text_of(code_name(code)), small: true };
            },
        };
        if platform == Platform::Mac {
            KeyLabel { side, name: text_of(symbol_text), small: false }
        } else {
            KeyLabel { side, name: text_of(word), small: true }
        }
    }
}

/// A side of the keyboard, and the player who plays on it.
#[derive(Copy, Clone, PartialEq, Eq, Debug, Structural)]
pub enum Side {
    Left,
    Right,
}

/// What a player's side is called in the menus.
pub fn side_name(side: Side) -> (name: &'static str)
    ensures
        name@ == match side {
            Side::Left => "Left player"@,
            Side::Right => "Right player"@,
        },
{
    match side {
        Side::Left => "Left player",
        Side::Right => "Right player",
    }
}

/// The default key of the player on `side` for `dir`: the keys under the
/// player's hand, given as UL, U, UR, DL, D, DR.
pub open spec fn default_char(side: Side, dir: Dir) -> char {
    match side {
        Side::Left => match dir {
            Dir::UL => 'S',
            Dir::U => 'D',
            Dir::UR => 'F',
            Dir::DL => 'Z',
            Dir::D => 'X',
            Dir::DR => 'C',
        },
        Side::Right => match dir {
            Dir::UL => 'J',
            Dir::U => 'K',
            Dir::UR => 'L',
            Dir::DL => 'M',
            Dir::D => ',',
            Dir::DR => '.',
        },
    }
}

/// The default keys of the player on `side`, in the directions' clockwise
/// order from `U`: the left player's hand rests on `S D F` over `Z X C`, the
/// right player's on `J K L` over `M , .`, the upper row going up (left,
/// straight, right) and the lower row going down.
pub open spec fn default_keys(side: Side) -> Seq<Option<Key>> {
    match side {
        Side::Left => seq![
            Some(Key::Char('D')),
            Some(Key::Char('F')),
            Some(Key::Char('C')),
            Some(Key::Char('X')),
            Some(Key::Char('Z')),
            Some(Key::Char('S')),
        ],
        Side::Right => seq![
            Some(Key::Char('K')),
            Some(Key::Char('L')),
            Some(Key::Char('.')),
            Some(Key::Char(',')),
            Some(Key::Char('M')),
            Some(Key::Char('J')),
        ],
    }
}

/// The default keys lie on the keyboard as the directions lie on the board:
/// for each side, the key for each direction is the one [`default_keys`]
/// lists; the up key sits right above the down key, the up-left key above
/// the down-left key and the up-right key above the down-right key; and no
/// key is used twice, on one side or across the two.
pub proof fn lemma_default_keys(side: Side, d: Dir)
    ensures
        Some(Key::Char(default_char(side, d))) == default_keys(side)[dir_index(d)],
        default_char(Side::Left, Dir::UL) == 'S' && default_char(Side::Left, Dir::U) == 'D'
            && default_char(Side::Left, Dir::UR) == 'F',
        default_char(Side::Left, Dir::DL) == 'Z' && default_char(Side::Left, Dir::D) == 'X'
            && default_char(Side::Left, Dir::DR) == 'C',
        default_char(Side::Right, Dir::UL) == 'J' && default_char(Side::Right, Dir::U) == 'K'
            && default_char(Side::Right, Dir::UR) == 'L',
        default_char(Side::Right, Dir::DL) == 'M' && default_char(Side::Right, Dir::D) == ','
            && default_char(Side::Right, Dir::DR) == '.',
        forall|s2: Side, d2: Dir|
            #![trigger default_char(s2, d2)]
            (s2, d2) != (side, d) ==> default_char(s2, d2) != default_char(side, d),
{
}

/// A player's six keys, one per direction; a direction can be left without a
/// key.
#[derive(Copy, Clone, Debug)]
pub struct Controls {
    /// Indexed by the directions' clockwise order from `U`
    keys: [Option<Key>; 6],
}

/// The first of the keys from position `i` on that is `key`, as a direction.
pub open spec fn dir_bound_from(keys: Seq<Option<Key>>, key: Key, i: int) -> Option<Dir>
    decreases 6 - i,
{
    if i < 0 || i >= 6 {
        None
    } else if keys[i] == Some(key) {
        Some(dir_at(i))
    } else {
        dir_bound_from(keys, key, i + 1)
    }
}

impl Controls {
    /// The keys, by the directions' clockwise order from `U`.
    pub closed spec fn keys(&self) -> Seq<Option<Key>> {
        self.keys@
    }

    pub proof fn lemma_six_keys(&self)
        ensures
            self.keys().len() == 6,
    {
    }

    /// The default keys of the player on the `side` of the keyboard.
    pub fn default_for(side: Side) -> (this: Controls)
        ensures
            this.keys().len() == 6,
            forall|i: int| 0 <= i < 6 ==> #[trigger] this.keys()[i] == Some(Key::Char(default_char(side, dir_at(i)))),
            this.keys() == default_keys(side),
    {
        let chars = match side {
            Side::Left => ['S', 'D', 'F', 'Z', 'X', 'C'],
            Side::Right => ['J', 'K', 'L', 'M', ',', '.'],
        };
        let dirs = [Dir::UL, Dir::U, Dir::UR, Dir::DL, Dir::D, Dir::DR];
        let mut this = Controls { keys: [None; 6] };
        let mut i: usize = 0;
        while i < 6
            invariant
                0 <= i <= 6,
                this.keys@.len() == 6,
                dirs@ == seq![Dir::UL, Dir::U, Dir::UR, Dir::DL, Dir::D, Dir::DR],
                forall|j: int| 0 <= j < 6 ==> #[trigger] chars@[j] == default_char(side, dirs@[j]),
                forall|j: int| 0 <= j < i ==> this.keys@[dir_index(#[trigger] dirs@[j])] == Some(
                    Key::Char(chars@[j]),
                ),
                forall|d: Dir| #![trigger this.keys@[dir_index(d)]]
                    (forall|j: int| 0 <= j < i ==> dirs@[j] != d) ==> this.keys@[dir_index(d)] is None,
            decreases 6 - i,
        {
            this.set(dirs[i], Some(Key::Char(chars[i])));
            i = i + 1;
        }
        proof {
            assert forall|k: int| 0 <= k < 6 implies #[trigger] this.keys()[k] == default_keys(side)[k] by {
                lemma_default_keys(side, dir_at(k));
                assert(dir_index(dir_at(k)) == k);
            }
            assert(this.keys() =~= default_keys(side));
            assert forall|k: int| 0 <= k < 6 implies #[trigger] this.keys()[k] == Some(
                Key::Char(default_char(side, dir_at(k))),
            ) by {
                let d = dir_at(k);
                assert(dir_index(d) == k);
                let j = if d == Dir::UL {
                    0int
                } else if d == Dir::U {
                    1
                } else if d == Dir::UR {
                    2
                } else if d == Dir::DL {
                    3
                } else if d == Dir::D {
                    4
                } else {
                    5
                };
                assert(dirs@[j] == d);
            }
        }
        this
    }

    /// The key bound to `dir`.
    pub fn get(&self, dir: Dir) -> (key: Option<Key>)
        ensures
            key == self.keys()[dir_index(dir)],
    {
        let i: usize = match dir {
            Dir::U => 0,
            Dir::UR => 1,
            Dir::DR => 2,
            Dir::D => 3,
            Dir::DL => 4,
            Dir::UL => 5,
        };
        self.keys[i]
    }

    /// Bind `key` to `dir` (or no key).
    pub fn set(&mut self, dir: Dir, key: Option<Key>)
        ensures
            final(self).keys() == old(self).keys().update(dir_index(dir), key),
    {
        let i: usize = match dir {
            Dir::U => 0,
            Dir::UR => 1,
            Dir::DR => 2,
            Dir::D => 3,
            Dir::DL => 4,
            Dir::UL => 5,
        };
        self.keys[i] = key;
    }

    /// The direction `key` is bound to (the first clockwise from `U`, if it
    /// is bound to several).
    pub fn dir_of(&self, key: Key) -> (dir: Option<Dir>)
        ensures
            dir == dir_bound_from(self.keys(), key, 0),
    {
        let dirs = Dir::iter();
        let mut i: usize = 0;
        while i < 6
            invariant
                0 <= i <= 6,
                self.keys@.len() == 6,
                dirs@.len() == 6,
                forall|j: int| 0 <= j < 6 ==> #[trigger] dirs@[j] == dir_at(j),
                dir_bound_from(self.keys@, key, 0) == dir_bound_from(self.keys@, key, i as int),
            decreases 6 - i,
        {
            if self.keys[i] == Some(key) {
                return Some(dirs[i]);
            }
            i = i + 1;
        }
        None
    }
}

/// Pairs the key presses and the characters typed into [`Key`] presses, in
/// the order they happened.
///
/// Every platform sends a key's code and then, if it types something, the
/// character it types. Repeats (a held key) are dropped.
pub struct Collector {
    pub presses: Vec<Key>,
    /// The last key down and whether it was a repeat, waiting to see whether
    /// a character follows
    pub pending: Option<(KeyCode, bool)>,
}

impl Collector {
    pub fn new() -> (c: Collector)
        ensures
            c.presses@.len() == 0,
            c.pending is None,
    {
        Collector { presses: Vec::new(), pending: None }
    }

    /// A key waiting for its character types none: it is pressed by its
    /// code (unless it was a repeat).
    pub fn flush(&mut self)
        ensures
            final(self).pending is None,
            final(self).presses@ == match old(self).pending {
                Some((code, false)) => old(self).presses@.push(Key::Code(code)),
                _ => old(self).presses@,
            },
    {
        match self.pending {
            Some((code, repeat)) => {
                self.pending = None;
                if !repeat {
                    self.presses.push(Key::Code(code));
                }
            },
            None => {},
        }
    }

    /// A key went down: the one before it typed nothing.
    pub fn key_down(&mut self, code: KeyCode, repeat: bool)
        ensures
            final(self).pending == Some((code, repeat)),
            final(self).presses@ == match old(self).pending {
                Some((c, false)) => old(self).presses@.push(Key::Code(c)),
                _ => old(self).presses@,
            },
    {
        self.flush();
        self.pending = Some((code, repeat));
    }

    /// A character was typed, by the key that went down last. A character
    /// with no key down before it is ignored (the web sends Space's twice).
    pub fn char_typed(&mut self, character: char)
        ensures
            final(self).pending is None,
            final(self).presses@ == match old(self).pending {
                Some((code, false)) => old(self).presses@.push(
                    match key_of_char(character) {
                        Some(k) => k,
                        None => Key::Code(code),
                    },
                ),
                _ => old(self).presses@,
            },
    {
        match self.pending {
            None => {},
            Some((code, repeat)) => {
                self.pending = None;
                if !repeat {
                    let key = match Key::from_char(character) {
                        Some(k) => k,
                        None => Key::Code(code),
                    };
                    self.presses.push(key);
                }
            },
        }
    }
}


/// A key named by the character it types reads back from its stored form
/// as the same key, where the character is the name of its key (as
/// [`Key::from_char`] gives them).
pub proof fn lemma_char_key_reads_back(c: char)
    requires
        key_of_char(c) == Some(Key::Char(c)),
    ensures
        key_of_text(key_text(Key::Char(c))) == Some(Key::Char(c)),
{
    reveal_strlit("char:");
    let t = key_text(Key::Char(c));
    assert(t.take(5) =~= "char:"@);
    assert(t.len() == 6);
    assert(t[5] == c);
}


/// What `dir_bound_from` finds is bound to the key, and before it nothing
/// is; finding nothing, nothing from `i` on is.
proof fn lemma_dir_bound_from(keys: Seq<Option<Key>>, key: Key, i: int)
    requires
        keys.len() == 6,
        0 <= i <= 6,
    ensures
        match dir_bound_from(keys, key, i) {
            Some(d) => i <= dir_index(d) < 6 && keys[dir_index(d)] == Some(key) && forall|j: int|
                i <= j < dir_index(d) ==> keys[j] != Some(key),
            None => forall|j: int| i <= j < 6 ==> keys[j] != Some(key),
        },
    decreases 6 - i,
{
    if i < 6 {
        lemma_dir_bound_from(keys, key, i + 1);
        assert(dir_index(dir_at(i)) == i);
    }
}

proof fn lemma_dir_index_injective(a: Dir, b: Dir)
    ensures
        dir_index(a) == dir_index(b) ==> a == b,
{
}

/// The keys with every binding of `key` taken away.
pub open spec fn without_key(keys: Seq<Option<Key>>, key: Key) -> Seq<Option<Key>> {
    keys.map_values(|k: Option<Key>| if k == Some(key) { None } else { k })
}

/// How many directions `key` is bound to.
pub open spec fn bound_count(keys: Seq<Option<Key>>, key: Key) -> nat
    decreases keys.len(),
{
    if keys.len() == 0 {
        0
    } else {
        bound_count(keys.drop_last(), key) + if keys.last() == Some(key) {
            1nat
        } else {
            0nat
        }
    }
}

proof fn lemma_bound_count_unbind(keys: Seq<Option<Key>>, key: Key, i: int)
    requires
        0 <= i < keys.len(),
        keys[i] == Some(key),
    ensures
        bound_count(keys.update(i, None), key) + 1 == bound_count(keys, key),
    decreases keys.len(),
{
    let t = keys.update(i, None);
    if i == keys.len() - 1 {
        assert(t.drop_last() =~= keys.drop_last());
    } else {
        assert(t.drop_last() =~= keys.drop_last().update(i, None));
        lemma_bound_count_unbind(keys.drop_last(), key, i);
    }
}

/// Take every binding of `key` away from `controls`; the directions it was
/// bound to, in the order they are found, are returned.
fn unbind_all(controls: &mut Controls, key: Key) -> (found: Vec<Dir>)
    ensures
        final(controls).keys() == without_key(old(controls).keys(), key),
        forall|d: Dir| #[trigger] found@.contains(d) <==> old(controls).keys()[dir_index(d)] == Some(key),
{
    let ghost start = controls.keys();
    proof {
        controls.lemma_six_keys();
    }
    let mut found: Vec<Dir> = Vec::new();
    loop
        invariant
            start == old(controls).keys(),
            controls.keys().len() == 6,
            start.len() == 6,
            forall|j: int|
                0 <= j < 6 ==> #[trigger] controls.keys()[j] == (if start[j] == Some(key) && (exists|t: int| 0 <= t < found@.len() && dir_index(found@[t]) == j) {
                    None
                } else {
                    start[j]
                }),
            forall|d: Dir| #[trigger] found@.contains(d) ==> start[dir_index(d)] == Some(key),
        decreases bound_count(controls.keys(), key),
    {
        let ghost before = controls.keys();
        let ghost found_before = found@;
        proof {
            lemma_dir_bound_from(controls.keys(), key, 0);
        }
        match controls.dir_of(key) {
            Some(old) => {
                proof {
                    lemma_bound_count_unbind(before, key, dir_index(old));
                }
                controls.set(old, None);
                found.push(old);
                proof {
                    assert(found@[found@.len() - 1] == old);
                    assert forall|j: int| 0 <= j < 6 implies #[trigger] controls.keys()[j] == (if start[j] == Some(key) && (exists|t: int| 0 <= t < found@.len() && dir_index(found@[t]) == j) {
                        None
                    } else {
                        start[j]
                    }) by {
                        let prev = found_before;
                        assert(found@ == found_before.push(old));
                        if j == dir_index(old) {
                            assert(dir_index(found@[found@.len() - 1]) == j);
                            assert(before[j] == Some(key));
                            if !(start[j] == Some(key)) {
                                assert(before[j] == start[j]);
                            }
                        } else {
                            assert(controls.keys()[j] == before[j]);
                            if exists|t: int| 0 <= t < found@.len() && dir_index(found@[t]) == j {
                                let t = choose|t: int| 0 <= t < found@.len() && dir_index(found@[t]) == j;
                                assert(t < found@.len() - 1);
                                assert(prev[t] == found@[t]);
                                assert(exists|t2: int| 0 <= t2 < prev.len() && dir_index(prev[t2]) == j);
                            }
                            if exists|t: int| 0 <= t < prev.len() && dir_index(prev[t]) == j {
                                let t = choose|t: int| 0 <= t < prev.len() && dir_index(prev[t]) == j;
                                assert(found@[t] == prev[t]);
                            }
                        }
                    }
                    assert forall|d: Dir| #[trigger] found@.contains(d) implies start[dir_index(d)] == Some(key) by {
                        let t = choose|t: int| 0 <= t < found@.len() && found@[t] == d;
                        if t < found_before.len() {
                            assert(found_before[t] == d);
                            assert(found_before.contains(d));
                        } else {
                            assert(d == old);
                            assert(before[dir_index(old)] == Some(key));
                            if start[dir_index(old)] != Some(key) {
                                assert(before[dir_index(old)] == start[dir_index(old)]);
                            }
                        }
                    }
                }
            },
            None => {
                proof {
                    assert(controls.keys() =~= without_key(start, key)) by {
                        assert forall|j: int| 0 <= j < 6 implies controls.keys()[j] == without_key(start, key)[j] by {
                            assert(controls.keys()[j] != Some(key));
                        }
                    }
                    assert forall|d: Dir| old(controls).keys()[dir_index(d)] == Some(key) implies #[trigger] found@.contains(d) by {
                        let j = dir_index(d);
                        assert(controls.keys()[j] != Some(key));
                        let t = choose|t: int| 0 <= t < found@.len() && dir_index(found@[t]) == j;
                        lemma_dir_index_injective(found@[t], d);
                        assert(found@[t] == d);
                    }
                }
                return found;
            },
        }
    }
}


/// A player's keys after `key` is bound to `dir` of the player on `side`:
/// it is taken away from wherever it was, and bound there.
pub open spec fn rebound(keys: Seq<Option<Key>>, player: Side, side: Side, dir: Dir, key: Key) -> Seq<Option<Key>> {
    let taken = without_key(keys, key);
    if player == side {
        taken.update(dir_index(dir), Some(key))
    } else {
        taken
    }
}

/// Bind `key` to `dir` of the player on `side`, given both players' keys. A
/// key already bound elsewhere, for either player, moves here: the places it
/// left, other than this one, are returned (they flash).
pub fn bind_key(left: &mut Controls, right: &mut Controls, side: Side, dir: Dir, key: Key) -> (moved_from: Vec<(Side, Dir)>)
    ensures
        final(left).keys() == rebound(old(left).keys(), Side::Left, side, dir, key),
        final(right).keys() == rebound(old(right).keys(), Side::Right, side, dir, key),
        forall|d: Dir|
            #[trigger] moved_from@.contains((Side::Left, d)) <==> (Side::Left, d) != (side, dir)
                && old(left).keys()[dir_index(d)] == Some(key),
        forall|d: Dir|
            #[trigger] moved_from@.contains((Side::Right, d)) <==> (Side::Right, d) != (side, dir)
                && old(right).keys()[dir_index(d)] == Some(key),
        // the key is bound once, where it was put
        forall|d: Dir|
            #![trigger final(left).keys()[dir_index(d)]]
            #![trigger final(right).keys()[dir_index(d)]]
            (final(left).keys()[dir_index(d)] == Some(key) <==> (side == Side::Left && d == dir))
                && (final(right).keys()[dir_index(d)] == Some(key) <==> (side == Side::Right && d
                == dir)),
{
    proof {
        left.lemma_six_keys();
        right.lemma_six_keys();
    }
    let mut moved_from: Vec<(Side, Dir)> = Vec::new();
    let found_left = unbind_all(left, key);
    let mut i: usize = 0;
    while i < found_left.len()
        invariant
            0 <= i <= found_left@.len(),
            forall|x: (Side, Dir)| #[trigger] moved_from@.contains(x) <==> exists|t: int|
                0 <= t < i && x == (Side::Left, found_left@[t]) && x != (side, dir),
        decreases found_left@.len() - i,
    {
        let old_dir = found_left[i];
        let ghost before = moved_from@;
        if !(side == Side::Left && old_dir == dir) {
            moved_from.push((Side::Left, old_dir));
        }
        proof {
            assert forall|x: (Side, Dir)| #[trigger] moved_from@.contains(x) <==> exists|t: int|
                0 <= t < i + 1 && x == (Side::Left, found_left@[t]) && x != (side, dir) by {
                if moved_from@.contains(x) && !before.contains(x) {
                    assert(x == (Side::Left, old_dir));
                    assert(x == (Side::Left, found_left@[i as int]));
                }
                if exists|t: int| 0 <= t < i + 1 && x == (Side::Left, found_left@[t]) && x != (side, dir) {
                    let t = choose|t: int| 0 <= t < i + 1 && x == (Side::Left, found_left@[t]) && x != (side, dir);
                    if t < i {
                        assert(before.contains(x));
                        let u = choose|u: int| 0 <= u < before.len() && before[u] == x;
                        assert(moved_from@[u] == x);
                    } else {
                        assert(moved_from@[moved_from@.len() - 1] == x);
                    }
                }
                if before.contains(x) {
                    let u = choose|u: int| 0 <= u < before.len() && before[u] == x;
                    assert(moved_from@[u] == x);
                }
            }
        }
        i = i + 1;
    }
    let ghost after_left = moved_from@;
    let found_right = unbind_all(right, key);
    let mut j: usize = 0;
    while j < found_right.len()
        invariant
            0 <= j <= found_right@.len(),
            forall|x: (Side, Dir)| #[trigger] moved_from@.contains(x) <==> after_left.contains(x) || exists|t: int|
                0 <= t < j && x == (Side::Right, found_right@[t]) && x != (side, dir),
        decreases found_right@.len() - j,
    {
        let old_dir = found_right[j];
        let ghost before = moved_from@;
        if !(side == Side::Right && old_dir == dir) {
            moved_from.push((Side::Right, old_dir));
        }
        proof {
            assert forall|x: (Side, Dir)| #[trigger] moved_from@.contains(x) <==> after_left.contains(x) || exists|t: int|
                0 <= t < j + 1 && x == (Side::Right, found_right@[t]) && x != (side, dir) by {
                if moved_from@.contains(x) && !before.contains(x) {
                    assert(x == (Side::Right, found_right@[j as int]));
                }
                if exists|t: int| 0 <= t < j + 1 && x == (Side::Right, found_right@[t]) && x != (side, dir) {
                    let t = choose|t: int| 0 <= t < j + 1 && x == (Side::Right, found_right@[t]) && x != (side, dir);
                    if t < j {
                        assert(before.contains(x));
                        let u = choose|u: int| 0 <= u < before.len() && before[u] == x;
                        assert(moved_from@[u] == x);
                    } else {
                        assert(moved_from@[moved_from@.len() - 1] == x);
                    }
                }
                if before.contains(x) {
                    let u = choose|u: int| 0 <= u < before.len() && before[u] == x;
                    assert(moved_from@[u] == x);
                }
            }
        }
        j = j + 1;
    }
    match side {
        Side::Left => left.set(dir, Some(key)),
        Side::Right => right.set(dir, Some(key)),
    }
    proof {
        assert forall|d: Dir| #[trigger] moved_from@.contains((Side::Left, d)) <==> (Side::Left, d) != (side, dir)
            && old(left).keys()[dir_index(d)] == Some(key) by {
            if old(left).keys()[dir_index(d)] == Some(key) && (Side::Left, d) != (side, dir) {
                assert(found_left@.contains(d));
                let t = choose|t: int| 0 <= t < found_left@.len() && found_left@[t] == d;
                assert(after_left.contains((Side::Left, d)));
            }
            if moved_from@.contains((Side::Left, d)) {
                assert(after_left.contains((Side::Left, d)));
                let t = choose|t: int| 0 <= t < found_left@.len() && (Side::Left, d) == (Side::Left, found_left@[t]) && (Side::Left, d) != (side, dir);
                assert(found_left@.contains(d));
            }
        }
        assert forall|d: Dir| #[trigger] moved_from@.contains((Side::Right, d)) <==> (Side::Right, d) != (side, dir)
            && old(right).keys()[dir_index(d)] == Some(key) by {
            if old(right).keys()[dir_index(d)] == Some(key) && (Side::Right, d) != (side, dir) {
                assert(found_right@.contains(d));
                let t = choose|t: int| 0 <= t < found_right@.len() && found_right@[t] == d;
            }
            if moved_from@.contains((Side::Right, d)) {
                if after_left.contains((Side::Right, d)) {
                    let t = choose|t: int| 0 <= t < found_left@.len() && (Side::Right, d) == (Side::Left, found_left@[t]) && (Side::Right, d) != (side, dir);
                } else {
                    let t = choose|t: int| 0 <= t < found_right@.len() && (Side::Right, d) == (Side::Right, found_right@[t]) && (Side::Right, d) != (side, dir);
                    assert(found_right@.contains(d));
                }
            }
        }
        assert forall|d: Dir| #![trigger left.keys()[dir_index(d)]] #![trigger right.keys()[dir_index(d)]]
            (left.keys()[dir_index(d)] == Some(key) <==> (side == Side::Left && d == dir))
                && (right.keys()[dir_index(d)] == Some(key) <==> (side == Side::Right && d == dir)) by {
            lemma_dir_index_injective(d, dir);
        }
    }
    moved_from
}

} // verus!
