//! What a running game does once an option of its menu has changed: the
//! note it shows, what it has to draw afresh, and what changes in play.

use vstd::prelude::*;

use crate::fps_control::State;
use crate::hex::{Dir, HexDim, HexPoint};
use crate::key::{Key, KeyCode};
use crate::menu::Toggle;
use crate::message::MessageID;
use crate::prefs::{push_all, DrawGrid, HintStyle, Prefs};
use crate::rendering::Style;
use crate::text::{chars_of, decimal, string_of, write_u64};

verus! {

/// A part of the game's picture that an option change makes stale.
#[derive(Copy, Clone, PartialEq, Eq, Debug, Structural)]
pub enum Redraw {
    Border,
    Grid,
    /// The hints fade from their old colors: start them afresh
    BorderHints,
    DistanceGrid,
    /// The player's path, over and beside its eaten segments
    PlayerPath,
    Snakes,
    Apples,
}

/// What the game does after an option changed (the menu has already changed
/// the preference).
pub struct Followup {
    /// A note shown in the top-right corner for a while, replacing any other
    pub notification: Option<String>,
    /// What to draw afresh
    pub redraw: Vec<Redraw>,
    /// A message to take down
    pub remove_message: Option<MessageID>,
    /// The player's autopilot switched: whether it now steers. When it lets
    /// go, the player's own controller starts afresh from the snake's heading.
    pub autopilot: Option<bool>,
    /// Special apples on the board turn into food apples
    pub replace_special_apples: bool,
}

/// The note shown after `t` changed to `p`. `players` is the number of
/// players; `player` is, with one player, whether the player's autopilot
/// steers (`None` for a snake without one).
pub open spec fn followup_note(t: Toggle, p: Prefs, players: nat, player: Option<Option<bool>>) -> Option<Seq<char>> {
    match t {
        Toggle::Border => Some(
            if p.draw_border {
                "Border on"@
            } else {
                "Border off"@
            },
        ),
        Toggle::Grid => Some(
            match p.draw_grid {
                DrawGrid::Grid => "Grid"@,
                DrawGrid::Dots => "Dot grid"@,
                DrawGrid::Off => "Grid off"@,
            },
        ),
        Toggle::Hints => Some(
            match p.hint_style {
                HintStyle::Border => "Border hints"@,
                HintStyle::Gradient => "Gradient hints"@,
                HintStyle::Teleport => "Teleport hints"@,
                HintStyle::Off => "Hints off"@,
            },
        ),
        Toggle::DistanceGrid => Some(
            if p.draw_distance_grid {
                "Distance grid on"@
            } else {
                "Distance grid off"@
            },
        ),
        Toggle::PlayerPath => Some(
            if p.draw_player_path {
                "Path on"@
            } else {
                "Path off"@
            },
        ),
        Toggle::Fps => None,
        Toggle::Stats => None,
        Toggle::Autopilot => Some(
            if players == 1 {
                match player->0 {
                    Some(steers) => if !steers {
                        "Autopilot on"@
                    } else {
                        "Autopilot off"@
                    },
                    None => "Autopilot not available"@,
                }
            } else {
                "Can't use autopilot with "@ + decimal(players) + " players"@
            },
        ),
        Toggle::DrawStyle => Some(
            match p.draw_style {
                Style::Smooth => "draw style: smooth"@,
                Style::Hexagon => "draw style: hexagon"@,
            },
        ),
        Toggle::SpecialApples => Some(
            if p.special_apples {
                "Special apples enabled"@
            } else {
                "Special apples disabled"@
            },
        ),
    }
}

/// What the game draws afresh after `t` changed to `p`.
pub open spec fn followup_redraw(t: Toggle, p: Prefs) -> Seq<Redraw> {
    match t {
        Toggle::Border => seq![Redraw::Border],
        Toggle::Grid => seq![Redraw::Grid],
        Toggle::Hints => seq![Redraw::BorderHints],
        Toggle::DistanceGrid => if p.draw_distance_grid {
            seq![]
        } else {
            seq![Redraw::DistanceGrid]
        },
        Toggle::PlayerPath => if p.draw_player_path {
            seq![]
        } else {
            seq![Redraw::PlayerPath]
        },
        Toggle::DrawStyle => seq![Redraw::Snakes, Redraw::Apples],
        Toggle::SpecialApples => if p.special_apples {
            seq![]
        } else {
            seq![Redraw::Apples]
        },
        _ => seq![],
    }
}

/// The message taken down after `t` changed to `p`.
pub open spec fn followup_removal(t: Toggle, p: Prefs) -> Option<MessageID> {
    match t {
        Toggle::Fps => if p.display_fps {
            None
        } else {
            Some(MessageID::Fps)
        },
        Toggle::Stats => if p.display_stats {
            None
        } else {
            Some(MessageID::Stats)
        },
        _ => None,
    }
}

/// Whether the player's autopilot steers after `t` changed.
pub open spec fn followup_autopilot(t: Toggle, players: nat, player: Option<Option<bool>>) -> Option<bool> {
    if t is Autopilot && players == 1 && player->0 is Some {
        Some(!player->0->0)
    } else {
        None
    }
}

/// What the game says and does after an option changed: the note names the
/// setting and its new value; hiding the frame rate or the statistics takes
/// their message down; the autopilot switch flips whether the single
/// player's autopilot steers, and the note says what it now does; with
/// several players it is refused with their number.
pub proof fn lemma_followups(p: Prefs, players: nat, player: Option<Option<bool>>)
    ensures
        followup_note(Toggle::Border, p, players, player) == Some(
            if p.draw_border {
                "Border on"@
            } else {
                "Border off"@
            },
        ),
        followup_note(Toggle::Grid, p, players, player) == Some(
            match p.draw_grid {
                DrawGrid::Grid => "Grid"@,
                DrawGrid::Dots => "Dot grid"@,
                DrawGrid::Off => "Grid off"@,
            },
        ),
        followup_note(Toggle::Hints, p, players, player) == Some(
            match p.hint_style {
                HintStyle::Border => "Border hints"@,
                HintStyle::Gradient => "Gradient hints"@,
                HintStyle::Teleport => "Teleport hints"@,
                HintStyle::Off => "Hints off"@,
            },
        ),
        followup_note(Toggle::DistanceGrid, p, players, player) == Some(
            if p.draw_distance_grid {
                "Distance grid on"@
            } else {
                "Distance grid off"@
            },
        ),
        followup_note(Toggle::PlayerPath, p, players, player) == Some(
            if p.draw_player_path {
                "Path on"@
            } else {
                "Path off"@
            },
        ),
        followup_note(Toggle::Fps, p, players, player) is None,
        followup_note(Toggle::Stats, p, players, player) is None,
        followup_note(Toggle::DrawStyle, p, players, player) == Some(
            match p.draw_style {
                Style::Smooth => "draw style: smooth"@,
                Style::Hexagon => "draw style: hexagon"@,
            },
        ),
        followup_note(Toggle::SpecialApples, p, players, player) == Some(
            if p.special_apples {
                "Special apples enabled"@
            } else {
                "Special apples disabled"@
            },
        ),
        followup_removal(Toggle::Fps, p) == if p.display_fps {
            None
        } else {
            Some(MessageID::Fps)
        },
        followup_removal(Toggle::Stats, p) == if p.display_stats {
            None
        } else {
            Some(MessageID::Stats)
        },
        forall|steers: bool|
            players == 1 && player == Some(Some(steers)) ==> #[trigger] followup_autopilot(
                Toggle::Autopilot,
                players,
                Some(Some(steers)),
            ) == Some(!steers) && followup_note(Toggle::Autopilot, p, players, player) == Some(
                if !steers {
                    "Autopilot on"@
                } else {
                    "Autopilot off"@
                },
            ),
        players == 1 && player == Some(None::<bool>) ==> followup_autopilot(Toggle::Autopilot, players, player)
            is None && followup_note(Toggle::Autopilot, p, players, player) == Some(
            "Autopilot not available"@,
        ),
        players != 1 ==> followup_autopilot(Toggle::Autopilot, players, player) is None
            && followup_note(Toggle::Autopilot, p, players, player) == Some(
            "Can't use autopilot with "@ + decimal(players) + " players"@,
        ),
{
}

pub open spec fn note_view(note: Option<String>) -> Option<Seq<char>> {
    match note {
        Some(s) => Some(s@),
        None => None,
    }
}

fn note(text: &str) -> (s: Option<String>)
    ensures
        note_view(s) == Some(text@),
{
    Some(string_of(&chars_of(text)))
}

/// What the game does after the menu changed `toggle`'s preference, now
/// `prefs`. `players` is the number of players; with one player, `player`
/// tells whether the player's autopilot steers (`Some(None)` for a snake
/// without one).
pub fn toggled(toggle: Toggle, prefs: &Prefs, players: usize, player: Option<Option<bool>>) -> (f: Followup)
    requires
        toggle is Autopilot && players == 1 ==> player is Some,
    ensures
        note_view(f.notification) == followup_note(toggle, *prefs, players as nat, player),
        f.redraw@ == followup_redraw(toggle, *prefs),
        f.remove_message == followup_removal(toggle, *prefs),
        f.autopilot == followup_autopilot(toggle, players as nat, player),
        f.replace_special_apples == (toggle is SpecialApples && !prefs.special_apples),
{
    let mut f = Followup {
        notification: None,
        redraw: Vec::new(),
        remove_message: None,
        autopilot: None,
        replace_special_apples: false,
    };
    match toggle {
        Toggle::Border => {
            f.redraw = vec![Redraw::Border];
            f.notification = note(
                if prefs.draw_border {
                    "Border on"
                } else {
                    "Border off"
                },
            );
        },
        Toggle::Grid => {
            f.redraw = vec![Redraw::Grid];
            f.notification = note(
                match prefs.draw_grid {
                    DrawGrid::Grid => "Grid",
                    DrawGrid::Dots => "Dot grid",
                    DrawGrid::Off => "Grid off",
                },
            );
        },
        Toggle::Hints => {
            f.redraw = vec![Redraw::BorderHints];
            f.notification = note(
                match prefs.hint_style {
                    HintStyle::Border => "Border hints",
                    HintStyle::Gradient => "Gradient hints",
                    HintStyle::Teleport => "Teleport hints",
                    HintStyle::Off => "Hints off",
                },
            );
        },
        Toggle::DistanceGrid => {
            if prefs.draw_distance_grid {
                f.notification = note("Distance grid on");
            } else {
                f.redraw = vec![Redraw::DistanceGrid];
                f.notification = note("Distance grid off");
            }
        },
        Toggle::PlayerPath => {
            if prefs.draw_player_path {
                f.notification = note("Path on");
            } else {
                f.redraw = vec![Redraw::PlayerPath];
                f.notification = note("Path off");
            }
        },
        Toggle::Fps => {
            if !prefs.display_fps {
                f.remove_message = Some(MessageID::Fps);
            }
        },
        Toggle::Stats => {
            if !prefs.display_stats {
                f.remove_message = Some(MessageID::Stats);
            }
        },
        Toggle::Autopilot => {
            if players == 1 {
                match player {
                    Some(Some(steers)) => {
                        let now = !steers;
                        f.autopilot = Some(now);
                        f.notification = note(
                            if now {
                                "Autopilot on"
                            } else {
                                "Autopilot off"
                            },
                        );
                    },
                    _ => {
                        f.notification = note("Autopilot not available");
                    },
                }
            } else {
                let mut text = chars_of("Can't use autopilot with ");
                push_all(&mut text, &write_u64(players as u64));
                push_all(&mut text, &chars_of(" players"));
                f.notification = Some(string_of(&text));
            }
        },
        Toggle::DrawStyle => {
            f.redraw = vec![Redraw::Snakes, Redraw::Apples];
            f.notification = note(
                match prefs.draw_style {
                    Style::Smooth => "draw style: smooth",
                    Style::Hexagon => "draw style: hexagon",
                },
            );
        },
        Toggle::SpecialApples => {
            if prefs.special_apples {
                f.notification = note("Special apples enabled");
            } else {
                f.replace_special_apples = true;
                f.redraw = vec![Redraw::Apples];
                f.notification = note("Special apples disabled");
            }
        },
    }
    f
}

/// What a key pressed in a running game does, once the menus have not taken
/// it.
#[derive(Copy, Clone, PartialEq, Eq, Debug, Structural)]
pub enum KeyAction {
    /// Esc: open the menus, pausing the game
    OpenMenu,
    /// Space after a game over: start over, playing
    Restart,
    Pause,
    Play,
    /// A debug key: change this option as the menu would
    Debug(Toggle),
    /// A digit: apples feed this much from now on, existing ones included
    AppleFood(u32),
    /// Down or up: smaller or larger cells
    CellSize { larger: bool },
    /// `[` or `]`: a slower or faster game
    Speed { faster: bool },
    /// Anything else steers the snakes, while playing
    Steer,
    Ignore,
}

/// What `key` does in a running game whose menus are `menu_open` and whose
/// play is in `state`, once the menus have not taken the key.
pub open spec fn key_action_of(key: Key, menu_open: bool, state: State) -> KeyAction {
    match key {
        Key::Code(KeyCode::Escape) => KeyAction::OpenMenu,
        Key::Code(KeyCode::Space) if !menu_open => match state {
            State::GameOver => KeyAction::Restart,
            State::Playing => KeyAction::Pause,
            State::Paused => KeyAction::Play,
        },
        Key::Char('X') => KeyAction::Debug(Toggle::SpecialApples),
        Key::Char('D') => KeyAction::Debug(Toggle::DistanceGrid),
        Key::Char(c) if '1' <= c <= '9' => KeyAction::AppleFood((c as u32 - '0' as u32) as u32),
        Key::Code(KeyCode::Down) => KeyAction::CellSize { larger: false },
        Key::Code(KeyCode::Up) => KeyAction::CellSize { larger: true },
        Key::Char('[') => KeyAction::Speed { faster: false },
        Key::Char(']') => KeyAction::Speed { faster: true },
        _ => if state == State::Playing {
            KeyAction::Steer
        } else {
            KeyAction::Ignore
        },
    }
}

/// The keys of a running game, one by one: Esc opens the menus; Space (with
/// the menus closed) restarts after a game over, pauses a game being played
/// and resumes a paused one; `X` and `D` toggle the special apples and the
/// distance grid; a digit from 1 to 9 sets the apples' food to its value;
/// Down makes the cells smaller and Up larger; `[` slows the game and `]`
/// speeds it up; any other key steers while playing and is ignored
/// otherwise.
pub open spec fn key_action_law(key: Key, menu_open: bool, state: State, action: KeyAction) -> bool {
    &&& key == Key::Code(KeyCode::Escape) ==> action == KeyAction::OpenMenu
    &&& key == Key::Code(KeyCode::Space) && !menu_open && state == State::GameOver ==> action
        == KeyAction::Restart
    &&& key == Key::Code(KeyCode::Space) && !menu_open && state == State::Playing ==> action
        == KeyAction::Pause
    &&& key == Key::Code(KeyCode::Space) && !menu_open && state == State::Paused ==> action
        == KeyAction::Play
    &&& key == Key::Char('X') ==> action == KeyAction::Debug(Toggle::SpecialApples)
    &&& key == Key::Char('D') ==> action == KeyAction::Debug(Toggle::DistanceGrid)
    &&& forall|c: char|
        '1' <= c <= '9' && key == Key::Char(c) ==> #[trigger] action_food(action) == Some(
            c as int - 48,
        )
    &&& key == Key::Code(KeyCode::Down) ==> action == (KeyAction::CellSize { larger: false })
    &&& key == Key::Code(KeyCode::Up) ==> action == (KeyAction::CellSize { larger: true })
    &&& key == Key::Char('[') ==> action == (KeyAction::Speed { faster: false })
    &&& key == Key::Char(']') ==> action == (KeyAction::Speed { faster: true })
    &&& !game_key(key, menu_open) ==> action == (if state == State::Playing {
        KeyAction::Steer
    } else {
        KeyAction::Ignore
    })
}

/// The food an action sets the apples to, if it is a digit's.
pub open spec fn action_food(action: KeyAction) -> Option<int> {
    match action {
        KeyAction::AppleFood(n) => Some(n as int),
        _ => None,
    }
}

/// Whether `key` has a meaning of its own in a running game (Space only with
/// the menus closed).
pub open spec fn game_key(key: Key, menu_open: bool) -> bool {
    ||| key == Key::Code(KeyCode::Escape)
    ||| key == Key::Code(KeyCode::Space) && !menu_open
    ||| key == Key::Code(KeyCode::Down)
    ||| key == Key::Code(KeyCode::Up)
    ||| match key {
        Key::Char(c) => c == 'X' || c == 'D' || c == '[' || c == ']' || '1' <= c <= '9',
        Key::Code(_) => false,
    }
}

/// Every key does in a running game what [`key_action_law`] says; in
/// particular Down and Up change the cells' size in opposite ways, and `[`
/// and `]` the game's speed.
pub proof fn lemma_key_actions(key: Key, menu_open: bool, state: State)
    ensures
        key_action_law(key, menu_open, state, key_action_of(key, menu_open, state)),
        key_action_of(Key::Code(KeyCode::Down), menu_open, state) != key_action_of(
            Key::Code(KeyCode::Up),
            menu_open,
            state,
        ),
{
    let action = key_action_of(key, menu_open, state);
    match key {
        Key::Char(c) => {
            assert forall|d: char| '1' <= d <= '9' && key == Key::Char(d) implies #[trigger] action_food(
                action,
            ) == Some(d as int - 48) by {
                assert(d == c);
            }
        },
        Key::Code(_) => {
        },
    }
}

/// What `key` does in a running game whose menus are `menu_open` and whose
/// play is in `state`, once the menus have not taken the key.
pub fn key_action(key: Key, menu_open: bool, state: State) -> (action: KeyAction)
    ensures
        action == key_action_of(key, menu_open, state),
        key_action_law(key, menu_open, state, action),
{
    proof {
        lemma_key_actions(key, menu_open, state);
    }
    match key {
        Key::Code(KeyCode::Escape) => KeyAction::OpenMenu,
        Key::Code(KeyCode::Space) if !menu_open => match state {
            State::GameOver => KeyAction::Restart,
            State::Playing => KeyAction::Pause,
            State::Paused => KeyAction::Play,
        },
        Key::Char('X') => KeyAction::Debug(Toggle::SpecialApples),
        Key::Char('D') => KeyAction::Debug(Toggle::DistanceGrid),
        Key::Char(c) if '1' <= c && c <= '9' => KeyAction::AppleFood((c as u32) - ('0' as u32)),
        Key::Code(KeyCode::Down) => KeyAction::CellSize { larger: false },
        Key::Code(KeyCode::Up) => KeyAction::CellSize { larger: true },
        Key::Char('[') => KeyAction::Speed { faster: false },
        Key::Char(']') => KeyAction::Speed { faster: true },
        _ => if state == State::Playing {
            KeyAction::Steer
        } else {
            KeyAction::Ignore
        },
    }
}

/// How many of the first `i` snakes have no start of their own.
pub open spec fn unplaced_before(simulated: Seq<bool>, i: int) -> nat
    decreases i,
{
    if i <= 0 {
        0
    } else {
        unplaced_before(simulated, i - 1) + if simulated[i - 1] {
            0nat
        } else {
            1nat
        }
    }
}

/// Where the `k`-th of `n` snakes without a start of their own begins: side
/// by side in the middle row, one column apart and centered, heading up and
/// down in turn.
pub open spec fn start_of(k: int, n: int, dim: HexDim) -> (HexPoint, Dir) {
    (
        HexPoint { h: (dim.h / 2 - n / 2 + k) as isize, v: (dim.v / 2) as isize },
        if k % 2 == 0 {
            Dir::U
        } else {
            Dir::D
        },
    )
}

/// The cell a start is at.
pub open spec fn start_cell(start: Option<(HexPoint, Dir)>) -> HexPoint {
    match start {
        Some((p, _)) => p,
        None => HexPoint { h: 0, v: 0 },
    }
}

/// Where each snake starts when a game starts over: `None` for the ones
/// that bring their own start (`simulated`), and side by side in the middle
/// row, one column apart and centered, heading up and down in turn, for the
/// others. There must be room for them in a row.
pub fn start_positions(simulated: &Vec<bool>, board_dim: HexDim) -> (starts: Vec<Option<(HexPoint, Dir)>>)
    requires
        unplaced_before(simulated@, simulated@.len() as int) > 0 ==> unplaced_before(
            simulated@,
            simulated@.len() as int,
        ) < board_dim.h,
        0 <= board_dim.v,
    ensures
        starts@.len() == simulated@.len(),
        forall|i: int|
            0 <= i < simulated@.len() ==> #[trigger] starts@[i] == if simulated@[i] {
                None
            } else {
                Some(
                    start_of(
                        unplaced_before(simulated@, i) as int,
                        unplaced_before(simulated@, simulated@.len() as int) as int,
                        board_dim,
                    ),
                )
            },
        // no two snakes start on the same cell
        forall|i: int, j: int|
            0 <= i < j < simulated@.len() && !simulated@[i] && !simulated@[j] ==> start_cell(#[trigger] starts@[i])
                != start_cell(#[trigger] starts@[j]),
{
    let ghost total = unplaced_before(simulated@, simulated@.len() as int);
    let mut n: usize = 0;
    let mut i: usize = 0;
    while i < simulated.len()
        invariant
            0 <= i <= simulated@.len(),
            n == unplaced_before(simulated@, i as int),
            n <= i,
        decreases simulated@.len() - i,
    {
        if !simulated[i] {
            n = n + 1;
        }
        i = i + 1;
    }
    proof {
        lemma_unplaced_monotone(simulated@, simulated@.len() as int);
    }
    let mut starts: Vec<Option<(HexPoint, Dir)>> = Vec::new();
    let mut k: usize = 0;
    let mut j: usize = 0;
    while j < simulated.len()
        invariant
            0 <= j <= simulated@.len(),
            n == total,
            total == unplaced_before(simulated@, simulated@.len() as int),
            total > 0 ==> total < board_dim.h,
            0 <= board_dim.v,
            k == unplaced_before(simulated@, j as int),
            forall|m: int| 0 <= m <= simulated@.len() ==> unplaced_before(simulated@, m) <= total,
            starts@.len() == j,
            forall|m: int|
                0 <= m < j ==> #[trigger] starts@[m] == if simulated@[m] {
                    None
                } else {
                    Some(
                        start_of(
                            unplaced_before(simulated@, m) as int,
                            total as int,
                            board_dim,
                        ),
                    )
                },
        decreases simulated@.len() - j,
    {
        if simulated[j] {
            starts.push(None);
        } else {
            assert(unplaced_before(simulated@, j + 1) == k + 1);
            let width = n as isize;
            let start = board_dim.h / 2 - width / 2;
            let dir = if k % 2 == 0 {
                Dir::U
            } else {
                Dir::D
            };
            starts.push(Some((HexPoint { h: start + k as isize, v: board_dim.v / 2 }, dir)));
            k = k + 1;
        }
        j = j + 1;
    }
    proof {
        assert forall|a: int, b: int|
            0 <= a < b < simulated@.len() && !simulated@[a] && !simulated@[b] implies start_cell(#[trigger] starts@[a])
                != start_cell(#[trigger] starts@[b]) by {
            lemma_unplaced_monotone(simulated@, b);
            assert(unplaced_before(simulated@, a + 1) == unplaced_before(simulated@, a) + 1);
            assert(unplaced_before(simulated@, a + 1) <= unplaced_before(simulated@, b));
        }
    }
    starts
}

proof fn lemma_unplaced_monotone(simulated: Seq<bool>, len: int)
    requires
        0 <= len <= simulated.len(),
    ensures
        forall|m: int| 0 <= m <= len ==> unplaced_before(simulated, m) <= unplaced_before(simulated, len),
        unplaced_before(simulated, len) <= len,
    decreases len,
{
    if len > 0 {
        lemma_unplaced_monotone(simulated, len - 1);
    }
}

/// The draw styles Esc rotates through, in a game played with the keys
/// alone
#[derive(Copy, Clone, PartialEq, Eq, Debug, Structural)]
pub enum DrawStyle {
    Hexagon,
    Rough,
    Smooth,
}

/// The preferences of a game played with the keys alone (no menus)
#[derive(Copy, Clone, PartialEq, Eq, Debug, Structural)]
pub struct GamePrefs {
    pub draw_grid: bool,
    pub display_fps: bool,
    /// What a food apple feeds
    pub apple_food: u32,
    /// How long a note is shown, in milliseconds
    pub message_duration: u64,
    pub draw_style: DrawStyle,
    pub special_apples: bool,
}

impl Default for GamePrefs {
    fn default() -> (prefs: Self)
        ensures
            prefs == (GamePrefs {
                draw_grid: false,
                display_fps: false,
                apple_food: 1,
                message_duration: 2000,
                draw_style: DrawStyle::Smooth,
                special_apples: true,
            }),
    {
        GamePrefs {
            draw_grid: false,
            display_fps: false,
            apple_food: 1,
            message_duration: 2000,
            draw_style: DrawStyle::Smooth,
            special_apples: true,
        }
    }
}

/// What an apple does when eaten
#[derive(Copy, Clone, PartialEq, Eq, Debug, Structural)]
pub enum AppleKind {
    /// Feeds this much
    Normal(u32),
    /// Brings in a new snake: the caller's seed with this number
    SpawnSnake(usize),
}

/// What a key does in a game played with the keys alone, beyond the
/// preferences and apples it changes
#[derive(Copy, Clone, PartialEq, Eq, Debug, Structural)]
pub enum KeyEffect {
    /// Space after a game over: start over, playing
    Restart,
    Pause,
    Play,
    /// G: the grid was turned on or off
    Grid,
    /// F: the frame rate is shown or not (when not, its message comes down)
    Fps { shown: bool },
    /// A: hand the player's snake to the autopilot or back (one player only)
    Autopilot,
    /// `[` or `]`: a slower or faster game
    Speed { faster: bool },
    /// Esc: the next draw style
    DrawStyle,
    /// X: special apples on or off; the special ones on the board became food
    SpecialApples,
    /// A digit: apples feed this much, those on the board included
    AppleFood(u32),
    /// Down or up: smaller or larger cells
    CellSize { larger: bool },
    /// Anything else steers the snakes, while playing
    Steer,
    Ignore,
}

/// The draw style after Esc.
pub open spec fn next_style(s: DrawStyle) -> DrawStyle {
    match s {
        DrawStyle::Hexagon => DrawStyle::Rough,
        DrawStyle::Rough => DrawStyle::Smooth,
        DrawStyle::Smooth => DrawStyle::Hexagon,
    }
}

/// The digit keys, as the food they set.
pub open spec fn digit_food(key: KeyCode) -> Option<u32> {
    match key {
        KeyCode::Key1 => Some(1u32),
        KeyCode::Key2 => Some(2u32),
        KeyCode::Key3 => Some(3u32),
        KeyCode::Key4 => Some(4u32),
        KeyCode::Key5 => Some(5u32),
        KeyCode::Key6 => Some(6u32),
        KeyCode::Key7 => Some(7u32),
        KeyCode::Key8 => Some(8u32),
        KeyCode::Key9 => Some(9u32),
        _ => None,
    }
}

/// What `key` does, in play `state`.
pub open spec fn key_effect_of(key: KeyCode, state: State, prefs: GamePrefs) -> KeyEffect {
    match key {
        KeyCode::Space => match state {
            State::GameOver => KeyEffect::Restart,
            State::Playing => KeyEffect::Pause,
            State::Paused => KeyEffect::Play,
        },
        KeyCode::G => KeyEffect::Grid,
        KeyCode::F => KeyEffect::Fps { shown: !prefs.display_fps },
        KeyCode::A => KeyEffect::Autopilot,
        KeyCode::LeftBracket => KeyEffect::Speed { faster: false },
        KeyCode::RightBracket => KeyEffect::Speed { faster: true },
        KeyCode::Escape => KeyEffect::DrawStyle,
        KeyCode::X => KeyEffect::SpecialApples,
        KeyCode::Down => KeyEffect::CellSize { larger: false },
        KeyCode::Up => KeyEffect::CellSize { larger: true },
        _ => match digit_food(key) {
            Some(food) => KeyEffect::AppleFood(food),
            None => if state == State::Playing {
                KeyEffect::Steer
            } else {
                KeyEffect::Ignore
            },
        },
    }
}

/// The preferences after `key`.
pub open spec fn prefs_after_key(key: KeyCode, prefs: GamePrefs) -> GamePrefs {
    match key {
        KeyCode::G => GamePrefs { draw_grid: !prefs.draw_grid, ..prefs },
        KeyCode::F => GamePrefs { display_fps: !prefs.display_fps, ..prefs },
        KeyCode::Escape => GamePrefs { draw_style: next_style(prefs.draw_style), ..prefs },
        KeyCode::X => GamePrefs { special_apples: !prefs.special_apples, ..prefs },
        _ => match digit_food(key) {
            Some(food) => GamePrefs { apple_food: food, ..prefs },
            None => prefs,
        },
    }
}

/// An apple after `key`: X turns special apples into food apples of the
/// food set before; a digit sets what food apples feed.
pub open spec fn apple_after_key(key: KeyCode, prefs: GamePrefs, apple: AppleKind) -> AppleKind {
    match key {
        KeyCode::X => match apple {
            AppleKind::Normal(f) => AppleKind::Normal(f),
            AppleKind::SpawnSnake(_) => AppleKind::Normal(prefs.apple_food),
        },
        _ => match (digit_food(key), apple) {
            (Some(food), AppleKind::Normal(_)) => AppleKind::Normal(food),
            _ => apple,
        },
    }
}

/// The note shown after `key`, the preferences now `after`.
pub open spec fn key_note(key: KeyCode, after: GamePrefs) -> Option<Seq<char>> {
    match key {
        KeyCode::G => Some(
            if after.draw_grid {
                "Grid on"@
            } else {
                "Grid off"@
            },
        ),
        KeyCode::Escape => Some(
            match after.draw_style {
                DrawStyle::Hexagon => "draw style: hexagon"@,
                DrawStyle::Rough => "draw style: rough"@,
                DrawStyle::Smooth => "draw style: smooth"@,
            },
        ),
        KeyCode::X => Some(
            if after.special_apples {
                "Special apples enabled"@
            } else {
                "Special apples disabled"@
            },
        ),
        _ => match digit_food(key) {
            Some(food) => Some("Apple food: "@ + decimal(food as nat)),
            None => None,
        },
    }
}

/// The keys of a game played with the keys alone: Space restarts after a
/// game over, pauses a game being played and resumes a paused one; G, F and
/// X turn the grid, the frame rate and the special apples on or off, and say
/// so; Esc goes through the three draw styles in turn, coming back after
/// three presses; `[` slows the game and `]` speeds it up; Down makes the
/// cells smaller and Up larger; the digit keys 1 to 9 set the apples' food to
/// their digit, the food apples on the board included; and X turns the
/// special apples on the board into food apples.
pub proof fn lemma_key_effects(state: State, prefs: GamePrefs, apple: AppleKind)
    ensures
        key_effect_of(KeyCode::Space, state, prefs) == match state {
            State::GameOver => KeyEffect::Restart,
            State::Playing => KeyEffect::Pause,
            State::Paused => KeyEffect::Play,
        },
        key_effect_of(KeyCode::Down, state, prefs) == (KeyEffect::CellSize { larger: false }),
        key_effect_of(KeyCode::Up, state, prefs) == (KeyEffect::CellSize { larger: true }),
        key_effect_of(KeyCode::LeftBracket, state, prefs) == (KeyEffect::Speed { faster: false }),
        key_effect_of(KeyCode::RightBracket, state, prefs) == (KeyEffect::Speed { faster: true }),
        key_effect_of(KeyCode::G, state, prefs) == KeyEffect::Grid,
        prefs_after_key(KeyCode::G, prefs).draw_grid == !prefs.draw_grid,
        key_note(KeyCode::G, prefs_after_key(KeyCode::G, prefs)) == Some(
            if !prefs.draw_grid {
                "Grid on"@
            } else {
                "Grid off"@
            },
        ),
        key_effect_of(KeyCode::F, state, prefs) == (KeyEffect::Fps { shown: !prefs.display_fps }),
        prefs_after_key(KeyCode::F, prefs).display_fps == !prefs.display_fps,
        key_effect_of(KeyCode::X, state, prefs) == KeyEffect::SpecialApples,
        prefs_after_key(KeyCode::X, prefs).special_apples == !prefs.special_apples,
        key_note(KeyCode::X, prefs_after_key(KeyCode::X, prefs)) == Some(
            if !prefs.special_apples {
                "Special apples enabled"@
            } else {
                "Special apples disabled"@
            },
        ),
        apple_after_key(KeyCode::X, prefs, apple) == match apple {
            AppleKind::SpawnSnake(_) => AppleKind::Normal(prefs.apple_food),
            AppleKind::Normal(f) => AppleKind::Normal(f),
        },
        key_effect_of(KeyCode::Escape, state, prefs) == KeyEffect::DrawStyle,
        prefs_after_key(KeyCode::Escape, prefs).draw_style != prefs.draw_style,
        next_style(next_style(next_style(prefs.draw_style))) == prefs.draw_style,
        next_style(DrawStyle::Hexagon) == DrawStyle::Rough,
        next_style(DrawStyle::Rough) == DrawStyle::Smooth,
        next_style(DrawStyle::Smooth) == DrawStyle::Hexagon,
        key_effect_of(KeyCode::Key1, state, prefs) == KeyEffect::AppleFood(1) && prefs_after_key(KeyCode::Key1, prefs).apple_food == 1,
        key_effect_of(KeyCode::Key2, state, prefs) == KeyEffect::AppleFood(2) && prefs_after_key(KeyCode::Key2, prefs).apple_food == 2,
        key_effect_of(KeyCode::Key3, state, prefs) == KeyEffect::AppleFood(3) && prefs_after_key(KeyCode::Key3, prefs).apple_food == 3,
        key_effect_of(KeyCode::Key4, state, prefs) == KeyEffect::AppleFood(4) && prefs_after_key(KeyCode::Key4, prefs).apple_food == 4,
        key_effect_of(KeyCode::Key5, state, prefs) == KeyEffect::AppleFood(5) && prefs_after_key(KeyCode::Key5, prefs).apple_food == 5,
        key_effect_of(KeyCode::Key6, state, prefs) == KeyEffect::AppleFood(6) && prefs_after_key(KeyCode::Key6, prefs).apple_food == 6,
        key_effect_of(KeyCode::Key7, state, prefs) == KeyEffect::AppleFood(7) && prefs_after_key(KeyCode::Key7, prefs).apple_food == 7,
        key_effect_of(KeyCode::Key8, state, prefs) == KeyEffect::AppleFood(8) && prefs_after_key(KeyCode::Key8, prefs).apple_food == 8,
        key_effect_of(KeyCode::Key9, state, prefs) == KeyEffect::AppleFood(9) && prefs_after_key(KeyCode::Key9, prefs).apple_food == 9,
        forall|q: GamePrefs|
            #[trigger] key_note(KeyCode::Escape, q) == Some(
                match q.draw_style {
                    DrawStyle::Hexagon => "draw style: hexagon"@,
                    DrawStyle::Rough => "draw style: rough"@,
                    DrawStyle::Smooth => "draw style: smooth"@,
                },
            ),
        forall|k: KeyCode, q: GamePrefs|
            #![trigger key_note(k, q)]
            digit_food(k) is Some ==> key_note(k, q) == Some(
                "Apple food: "@ + decimal(digit_food(k)->0 as nat),
            ),
        forall|k: KeyCode|
            (#[trigger] digit_food(k)) is Some ==> 1 <= digit_food(k)->0 <= 9 && apple_after_key(
                k,
                prefs,
                apple,
            ) == match apple {
                AppleKind::Normal(_) => AppleKind::Normal(digit_food(k)->0),
                AppleKind::SpawnSnake(seed) => AppleKind::SpawnSnake(seed),
            },
{
}

fn digit_food_of(key: KeyCode) -> (food: Option<u32>)
    ensures
        food == digit_food(key),
{
    match key {
        KeyCode::Key1 => Some(1),
        KeyCode::Key2 => Some(2),
        KeyCode::Key3 => Some(3),
        KeyCode::Key4 => Some(4),
        KeyCode::Key5 => Some(5),
        KeyCode::Key6 => Some(6),
        KeyCode::Key7 => Some(7),
        KeyCode::Key8 => Some(8),
        KeyCode::Key9 => Some(9),
        _ => None,
    }
}

/// What `key` does in a game played with the keys alone, in play `state`:
/// the preferences and the apples' kinds change as the key says, the
/// result tells the caller the rest, and the note, if any, is shown.
pub fn key_effect(key: KeyCode, state: State, prefs: &mut GamePrefs, apples: &mut Vec<AppleKind>) -> (r: (KeyEffect, Option<String>))
    ensures
        r.0 == key_effect_of(key, state, *old(prefs)),
        *final(prefs) == prefs_after_key(key, *old(prefs)),
        final(apples)@.len() == old(apples)@.len(),
        forall|i: int| 0 <= i < old(apples)@.len() ==> #[trigger] final(apples)@[i] == apple_after_key(key, *old(prefs), old(apples)@[i]),
        note_view(r.1) == key_note(key, *final(prefs)),
{
    let ghost p0 = *prefs;
    let ghost a0 = apples@;
    let effect = match key {
        KeyCode::Space => match state {
            State::GameOver => KeyEffect::Restart,
            State::Playing => KeyEffect::Pause,
            State::Paused => KeyEffect::Play,
        },
        KeyCode::G => {
            prefs.draw_grid = !prefs.draw_grid;
            KeyEffect::Grid
        },
        KeyCode::F => {
            prefs.display_fps = !prefs.display_fps;
            KeyEffect::Fps { shown: prefs.display_fps }
        },
        KeyCode::A => KeyEffect::Autopilot,
        KeyCode::LeftBracket => KeyEffect::Speed { faster: false },
        KeyCode::RightBracket => KeyEffect::Speed { faster: true },
        KeyCode::Escape => {
            prefs.draw_style = match prefs.draw_style {
                DrawStyle::Hexagon => DrawStyle::Rough,
                DrawStyle::Rough => DrawStyle::Smooth,
                DrawStyle::Smooth => DrawStyle::Hexagon,
            };
            KeyEffect::DrawStyle
        },
        KeyCode::X => {
            let food = prefs.apple_food;
            let mut i: usize = 0;
            while i < apples.len()
                invariant
                    0 <= i <= apples@.len(),
                    apples@.len() == a0.len(),
                    food == p0.apple_food,
                    key == KeyCode::X,
                    forall|j: int| 0 <= j < i ==> #[trigger] apples@[j] == apple_after_key(key, p0, a0[j]),
                    forall|j: int| i <= j < apples@.len() ==> #[trigger] apples@[j] == a0[j],
                decreases a0.len() - i,
            {
                if let AppleKind::SpawnSnake(_) = apples[i] {
                    apples.set(i, AppleKind::Normal(food));
                }
                i = i + 1;
            }
            prefs.special_apples = !prefs.special_apples;
            KeyEffect::SpecialApples
        },
        KeyCode::Down => KeyEffect::CellSize { larger: false },
        KeyCode::Up => KeyEffect::CellSize { larger: true },
        _ => match digit_food_of(key) {
            Some(food) => {
                prefs.apple_food = food;
                let mut i: usize = 0;
                while i < apples.len()
                    invariant
                        0 <= i <= apples@.len(),
                        apples@.len() == a0.len(),
                        digit_food(key) == Some(food),
                        key != KeyCode::X,
                        forall|j: int| 0 <= j < i ==> #[trigger] apples@[j] == apple_after_key(key, p0, a0[j]),
                        forall|j: int| i <= j < apples@.len() ==> #[trigger] apples@[j] == a0[j],
                    decreases a0.len() - i,
                {
                    if let AppleKind::Normal(_) = apples[i] {
                        apples.set(i, AppleKind::Normal(food));
                    }
                    i = i + 1;
                }
                KeyEffect::AppleFood(food)
            },
            None => if state == State::Playing {
                KeyEffect::Steer
            } else {
                KeyEffect::Ignore
            },
        },
    };
    let note = match key {
        KeyCode::G => note(
            if prefs.draw_grid {
                "Grid on"
            } else {
                "Grid off"
            },
        ),
        KeyCode::Escape => note(
            match prefs.draw_style {
                DrawStyle::Hexagon => "draw style: hexagon",
                DrawStyle::Rough => "draw style: rough",
                DrawStyle::Smooth => "draw style: smooth",
            },
        ),
        KeyCode::X => note(
            if prefs.special_apples {
                "Special apples enabled"
            } else {
                "Special apples disabled"
            },
        ),
        _ => match digit_food_of(key) {
            Some(food) => {
                let mut text = chars_of("Apple food: ");
                push_all(&mut text, &write_u64(food as u64));
                Some(string_of(&text))
            },
            None => None,
        },
    };
    (effect, note)
}

} // verus!
