//! The options of the menu drawn over a screen, and what it tells the
//! screen hosting it.

use vstd::prelude::*;

use crate::prefs::{
    lemma_read_back, lemma_rules_not_stored, prefs_text, push_all, stored_part, DrawGrid,
    HintStyle, Prefs,
};
use crate::controls_menu::{Flash, KeysAction, KeysScreen, PlayersAction};
use crate::hex::{dir_at, dir_index, Dir};
use crate::key::{bind_key, rebound, Controls, Key, KeyCode, Side};
use crate::rendering::Style;
use crate::text::{chars_of, string_of};

verus! {

/// An option in the options menu
#[derive(Copy, Clone, PartialEq, Eq, Debug, Structural)]
pub enum Toggle {
    Grid,
    Border,
    Hints,
    DrawStyle,
    Stats,
    Fps,
    PlayerPath,
    DistanceGrid,
    SpecialApples,
    Autopilot,
}

/// Something the host screen may need to act on
#[derive(Copy, Clone, PartialEq, Eq, Debug, Structural)]
pub enum MenuEvent {
    /// The menus were closed
    Closed,
    /// An option was clicked; its preference has already changed
    Toggled(Toggle),
    /// Restart the game (confirmed); the menus are closed
    Restart,
    /// Leave the game for the main menu (confirmed); the menus are closed
    MainMenu,
}

/// An action that asks "are you sure?" first
#[derive(Copy, Clone, PartialEq, Eq, Debug, Structural)]
pub enum Confirm {
    Restart,
    MainMenu,
}

pub open spec fn on_off(on: bool) -> Seq<char> {
    if on {
        "on"@
    } else {
        "off"@
    }
}

/// What an option's button says: the setting and its current value.
pub open spec fn toggle_label(t: Toggle, p: Prefs) -> Seq<char> {
    match t {
        Toggle::Grid => "Grid: "@ + match p.draw_grid {
            DrawGrid::Grid => "lines"@,
            DrawGrid::Dots => "dots"@,
            DrawGrid::Off => "off"@,
        },
        Toggle::Border => "Border: "@ + on_off(p.draw_border),
        Toggle::Hints => "Edge hints: "@ + match p.hint_style {
            HintStyle::Border => "border"@,
            HintStyle::Gradient => "gradient"@,
            HintStyle::Teleport => "teleport"@,
            HintStyle::Off => "off"@,
        },
        Toggle::DrawStyle => "Snake style: "@ + match p.draw_style {
            Style::Smooth => "smooth"@,
            Style::Hexagon => "hexagon"@,
        },
        Toggle::Stats => "Stats: "@ + on_off(p.display_stats),
        Toggle::Fps => "FPS counter: "@ + on_off(p.display_fps),
        Toggle::PlayerPath => "Autopilot path: "@ + on_off(p.draw_player_path),
        Toggle::DistanceGrid => "Distance grid: "@ + on_off(p.draw_distance_grid),
        Toggle::SpecialApples => "Special apples: "@ + on_off(p.special_apples),
        Toggle::Autopilot => "Autopilot"@,
    }
}

/// The preferences after an option is clicked: its setting moves to the
/// next value. The autopilot is the game's, not a preference.
pub open spec fn toggled(t: Toggle, p: Prefs) -> Prefs {
    match t {
        Toggle::Grid => Prefs {
            draw_grid: match p.draw_grid {
                DrawGrid::Grid => DrawGrid::Dots,
                DrawGrid::Dots => DrawGrid::Off,
                DrawGrid::Off => DrawGrid::Grid,
            },
            ..p
        },
        Toggle::Border => Prefs { draw_border: !p.draw_border, ..p },
        Toggle::Hints => Prefs {
            hint_style: match p.hint_style {
                HintStyle::Border => HintStyle::Gradient,
                HintStyle::Gradient => HintStyle::Teleport,
                HintStyle::Teleport => HintStyle::Off,
                HintStyle::Off => HintStyle::Border,
            },
            ..p
        },
        Toggle::DrawStyle => Prefs {
            draw_style: match p.draw_style {
                Style::Hexagon => Style::Smooth,
                Style::Smooth => Style::Hexagon,
            },
            ..p
        },
        Toggle::Stats => Prefs { display_stats: !p.display_stats, ..p },
        Toggle::Fps => Prefs { display_fps: !p.display_fps, ..p },
        Toggle::PlayerPath => Prefs { draw_player_path: !p.draw_player_path, ..p },
        Toggle::DistanceGrid => Prefs { draw_distance_grid: !p.draw_distance_grid, ..p },
        Toggle::SpecialApples => Prefs { special_apples: !p.special_apples, ..p },
        Toggle::Autopilot => p,
    }
}

/// Whether an option is a stored preference, to be saved the moment it
/// changes.
pub open spec fn is_stored(t: Toggle) -> bool {
    !(t is SpecialApples || t is Autopilot)
}

fn on_off_text(on: bool) -> (s: &'static str)
    ensures
        s@ == on_off(on),
{
    if on {
        "on"
    } else {
        "off"
    }
}

fn joined(prefix: &str, value: &str) -> (s: String)
    ensures
        s@ == prefix@ + value@,
{
    let mut out = chars_of(prefix);
    push_all(&mut out, &chars_of(value));
    string_of(&out)
}

impl Toggle {
    /// The options that are stored preferences, so they can be set before a
    /// game exists (the distance grid is one too, but it's a debug key).
    pub fn prefs() -> (toggles: [Toggle; 7])
        ensures
            forall|i: int| 0 <= i < 7 ==> is_stored(#[trigger] toggles@[i]),
    {
        [
            Toggle::DrawStyle,
            Toggle::Grid,
            Toggle::Border,
            Toggle::Hints,
            Toggle::PlayerPath,
            Toggle::Stats,
            Toggle::Fps,
        ]
    }

    /// What the option's button says: the setting and its current value.
    /// The autopilot's state is the game's, so it is the caller's to
    /// describe.
    pub fn label(self, prefs: &Prefs) -> (label: String)
        ensures
            label@ == toggle_label(self, *prefs),
    {
        match self {
            Toggle::Grid => joined(
                "Grid: ",
                match prefs.draw_grid {
                    DrawGrid::Grid => "lines",
                    DrawGrid::Dots => "dots",
                    DrawGrid::Off => "off",
                },
            ),
            Toggle::Border => joined("Border: ", on_off_text(prefs.draw_border)),
            Toggle::Hints => joined(
                "Edge hints: ",
                match prefs.hint_style {
                    HintStyle::Border => "border",
                    HintStyle::Gradient => "gradient",
                    HintStyle::Teleport => "teleport",
                    HintStyle::Off => "off",
                },
            ),
            Toggle::DrawStyle => joined(
                "Snake style: ",
                match prefs.draw_style {
                    Style::Smooth => "smooth",
                    Style::Hexagon => "hexagon",
                },
            ),
            Toggle::Stats => joined("Stats: ", on_off_text(prefs.display_stats)),
            Toggle::Fps => joined("FPS counter: ", on_off_text(prefs.display_fps)),
            Toggle::PlayerPath => joined("Autopilot path: ", on_off_text(prefs.draw_player_path)),
            Toggle::DistanceGrid => joined(
                "Distance grid: ",
                on_off_text(prefs.draw_distance_grid),
            ),
            Toggle::SpecialApples => joined("Special apples: ", on_off_text(prefs.special_apples)),
            Toggle::Autopilot => string_of(&chars_of("Autopilot")),
        }
    }

    /// Move the option's preference to its next value. Returns whether it is
    /// a stored preference, which the caller saves right away (the web
    /// build has no reliable moment to save later).
    pub fn apply(self, prefs: &mut Prefs) -> (stored: bool)
        ensures
            *final(prefs) == toggled(self, *old(prefs)),
            stored == is_stored(self),
    {
        match self {
            Toggle::Grid => {
                prefs.draw_grid.rotate_next();
            },
            Toggle::Border => {
                prefs.draw_border = !prefs.draw_border;
            },
            Toggle::Hints => {
                prefs.hint_style.rotate_next();
            },
            Toggle::DrawStyle => {
                prefs.draw_style = match prefs.draw_style {
                    Style::Hexagon => Style::Smooth,
                    Style::Smooth => Style::Hexagon,
                };
            },
            Toggle::Stats => {
                prefs.display_stats = !prefs.display_stats;
            },
            Toggle::Fps => {
                prefs.display_fps = !prefs.display_fps;
            },
            Toggle::PlayerPath => {
                prefs.draw_player_path = !prefs.draw_player_path;
            },
            Toggle::DistanceGrid => {
                prefs.draw_distance_grid = !prefs.draw_distance_grid;
            },
            // a game rule rather than a preference: not stored
            Toggle::SpecialApples => {
                prefs.special_apples = !prefs.special_apples;
                return false;
            },
            Toggle::Autopilot => {
                return false;
            },
        }
        true
    }
}


/// How many clicks bring an option back to where it was.
pub open spec fn cycle_len(t: Toggle) -> nat {
    match t {
        Toggle::Grid => 3,
        Toggle::Hints => 4,
        Toggle::Autopilot => 1,
        _ => 2,
    }
}

pub open spec fn toggled_times(t: Toggle, p: Prefs, n: nat) -> Prefs
    decreases n,
{
    if n == 0 {
        p
    } else {
        toggled(t, toggled_times(t, p, (n - 1) as nat))
    }
}

/// Clicking an option goes round its values: after as many clicks as it
/// has values, the preferences are as they were.
pub proof fn lemma_toggle_cycles(t: Toggle, p: Prefs)
    ensures
        toggled_times(t, p, cycle_len(t)) == p,
{
    reveal_with_fuel(toggled_times, 5);
}

/// What each option's button says: its name, then its current value.
pub proof fn lemma_toggle_labels(p: Prefs)
    ensures
        toggle_label(Toggle::Grid, p) == "Grid: "@ + match p.draw_grid {
            DrawGrid::Grid => "lines"@,
            DrawGrid::Dots => "dots"@,
            DrawGrid::Off => "off"@,
        },
        toggle_label(Toggle::Border, p) == "Border: "@ + if p.draw_border {
            "on"@
        } else {
            "off"@
        },
        toggle_label(Toggle::Hints, p) == "Edge hints: "@ + match p.hint_style {
            HintStyle::Border => "border"@,
            HintStyle::Gradient => "gradient"@,
            HintStyle::Teleport => "teleport"@,
            HintStyle::Off => "off"@,
        },
        toggle_label(Toggle::DrawStyle, p) == "Snake style: "@ + match p.draw_style {
            Style::Smooth => "smooth"@,
            Style::Hexagon => "hexagon"@,
        },
        toggle_label(Toggle::Stats, p) == "Stats: "@ + if p.display_stats {
            "on"@
        } else {
            "off"@
        },
        toggle_label(Toggle::Fps, p) == "FPS counter: "@ + if p.display_fps {
            "on"@
        } else {
            "off"@
        },
        toggle_label(Toggle::PlayerPath, p) == "Autopilot path: "@ + if p.draw_player_path {
            "on"@
        } else {
            "off"@
        },
        toggle_label(Toggle::DistanceGrid, p) == "Distance grid: "@ + if p.draw_distance_grid {
            "on"@
        } else {
            "off"@
        },
        toggle_label(Toggle::SpecialApples, p) == "Special apples: "@ + if p.special_apples {
            "on"@
        } else {
            "off"@
        },
        toggle_label(Toggle::Autopilot, p) == "Autopilot"@,
{
}

/// Clicking an option changes its own setting and no other: every other
/// option's button reads as before, and the clicked one's setting moves on
/// (the grid from lines to dots to none, the edge hints from border to
/// gradient to teleport to none, the two-valued ones to the other value);
/// the autopilot is not a preference and changes none.
pub proof fn lemma_toggle_changes_its_own(t: Toggle, p: Prefs)
    ensures
        forall|t2: Toggle| t2 != t ==> #[trigger] toggle_label(t2, toggled(t, p)) == toggle_label(t2, p),
        t == Toggle::Autopilot <==> toggled(t, p) == p,
        t == Toggle::Grid ==> toggled(t, p).draw_grid == match p.draw_grid {
            DrawGrid::Grid => DrawGrid::Dots,
            DrawGrid::Dots => DrawGrid::Off,
            DrawGrid::Off => DrawGrid::Grid,
        },
        t == Toggle::Hints ==> toggled(t, p).hint_style == match p.hint_style {
            HintStyle::Border => HintStyle::Gradient,
            HintStyle::Gradient => HintStyle::Teleport,
            HintStyle::Teleport => HintStyle::Off,
            HintStyle::Off => HintStyle::Border,
        },
        on_off(true) == "on"@,
        on_off(false) == "off"@,
{
}

/// An option needs saving exactly when clicking it changes the stored form
/// of the preferences.
pub proof fn lemma_stored_iff_text_changes(t: Toggle, p: Prefs)
    ensures
        is_stored(t) <==> prefs_text(toggled(t, p)) != prefs_text(p),
{
    let q = toggled(t, p);
    if is_stored(t) {
        lemma_read_back(p);
        lemma_read_back(q);
        assert(stored_part(q) != stored_part(p));
    } else {
        assert(stored_part(q) == stored_part(p));
        lemma_rules_not_stored(q, p);
    }
}

/// Which menu screen is open. How far the options are scrolled is the
/// drawing's to keep.
#[derive(Copy, Clone, PartialEq, Eq, Debug, Structural)]
pub enum Menu {
    Closed,
    Options,
    /// The choice of player whose keys to change
    Players,
    Keys(KeysScreen),
    Confirm(Confirm),
}

/// A button of the options menu
#[derive(Copy, Clone, PartialEq, Eq, Debug, Structural)]
pub enum Entry {
    Close,
    Toggle(Toggle),
    Controls,
    Confirm(Confirm),
}

/// Esc: the screen one back (a key waiting to be bound stops waiting), and
/// what the host should know.
pub open spec fn menu_back(m: Menu) -> (Menu, Option<MenuEvent>) {
    match m {
        Menu::Closed => (Menu::Closed, None),
        Menu::Options => (Menu::Closed, Some(MenuEvent::Closed)),
        Menu::Players => (Menu::Options, None),
        Menu::Keys(k) => if k.listening is Some {
            (Menu::Keys(KeysScreen { listening: None, ..k }), None)
        } else {
            (Menu::Players, None)
        },
        Menu::Confirm(_) => (Menu::Options, None),
    }
}

/// The last of a player's directions, clockwise from `U` and below `i`,
/// whose key is `key`, leaving out `skip`.
pub open spec fn last_bound(keys: Seq<Option<Key>>, key: Key, skip: Option<Dir>, i: int) -> Option<Dir>
    decreases i,
{
    if i <= 0 {
        None
    } else if keys[i - 1] == Some(key) && skip != Some(dir_at(i - 1)) {
        Some(dir_at(i - 1))
    } else {
        last_bound(keys, key, skip, i - 1)
    }
}

/// What flashes after `key` is bound to `dir` of the player on `side`: the
/// last place it left (the right player's after the left's), if any.
pub open spec fn flash_after(
    left: Seq<Option<Key>>,
    right: Seq<Option<Key>>,
    side: Side,
    dir: Dir,
    key: Key,
    now: u64,
    before: Option<Flash>,
) -> Option<Flash> {
    let skip_left = if side == Side::Left { Some(dir) } else { None };
    let skip_right = if side == Side::Right { Some(dir) } else { None };
    match last_bound(right, key, skip_right, 6) {
        Some(d) => Some(Flash { side: Side::Right, dir: d, since: now }),
        None => match last_bound(left, key, skip_left, 6) {
            Some(d) => Some(Flash { side: Side::Left, dir: d, since: now }),
            None => before,
        },
    }
}

/// `last_bound` finds a direction, other than `skip`, whose key is `key`
/// exactly when there is one below `i`, and the one it finds is the last.
pub proof fn lemma_last_bound(keys: Seq<Option<Key>>, key: Key, skip: Option<Dir>, i: int)
    requires
        0 <= i <= 6,
    ensures
        last_bound(keys, key, skip, i) matches Some(d) ==> 0 <= dir_index(d) < i && keys[dir_index(d)]
            == Some(key) && skip != Some(d) && forall|j: int|
            dir_index(d) < j < i ==> !(#[trigger] keys[j] == Some(key) && skip != Some(dir_at(j))),
        last_bound(keys, key, skip, i) is None ==> forall|j: int|
            0 <= j < i ==> !(#[trigger] keys[j] == Some(key) && skip != Some(dir_at(j))),
    decreases i,
{
    if i > 0 {
        lemma_last_bound(keys, key, skip, i - 1);
        assert(dir_index(dir_at(i - 1)) == i - 1);
    }
}

/// Whether `f` flashes, from `now`, a direction of either player other than
/// `(side, dir)` whose key was `key`.
pub open spec fn marks_lost_binding(
    f: Flash,
    left: Seq<Option<Key>>,
    right: Seq<Option<Key>>,
    side: Side,
    dir: Dir,
    key: Key,
    now: u64,
) -> bool {
    &&& f.since == now
    &&& (f.side, f.dir) != (side, dir)
    &&& (if f.side == Side::Left {
        left
    } else {
        right
    })[dir_index(f.dir)] == Some(key)
}

/// Whether `key` is bound to some direction of either player other than
/// `(side, dir)`.
pub open spec fn bound_elsewhere(left: Seq<Option<Key>>, right: Seq<Option<Key>>, side: Side, dir: Dir, key: Key) -> bool {
    exists|d: Dir|
        #![trigger dir_index(d)]
        ((Side::Left, d) != (side, dir) && left[dir_index(d)] == Some(key)) || ((Side::Right, d) != (
        side,
        dir,
        ) && right[dir_index(d)] == Some(key))
}

/// What flashes after a key is bound marks where the key was bound before:
/// where the key was bound to a direction of either player other than the
/// one it is now bound to, one such direction flashes from `now` (the right
/// player's last such direction if there is one, else the left player's);
/// where it was bound nowhere else, what flashed before goes on.
pub proof fn lemma_flash_marks_lost_binding(
    left: Seq<Option<Key>>,
    right: Seq<Option<Key>>,
    side: Side,
    dir: Dir,
    key: Key,
    now: u64,
    before: Option<Flash>,
)
    ensures
        bound_elsewhere(left, right, side, dir, key) ==> flash_after(left, right, side, dir, key, now, before)
            is Some && marks_lost_binding(
            flash_after(left, right, side, dir, key, now, before)->0,
            left,
            right,
            side,
            dir,
            key,
            now,
        ),
        !bound_elsewhere(left, right, side, dir, key) ==> flash_after(left, right, side, dir, key, now, before)
            == before,
{
    let skip_left = if side == Side::Left { Some(dir) } else { None };
    let skip_right = if side == Side::Right { Some(dir) } else { None };
    lemma_last_bound(left, key, skip_left, 6);
    lemma_last_bound(right, key, skip_right, 6);
    if bound_elsewhere(left, right, side, dir, key) {
        let d = choose|d: Dir|
            #![trigger dir_index(d)]
            ((Side::Left, d) != (side, dir) && left[dir_index(d)] == Some(key)) || ((Side::Right, d)
                != (side, dir) && right[dir_index(d)] == Some(key));
        assert(dir_at(dir_index(d)) == d);
    } else {
        match last_bound(right, key, skip_right, 6) {
            Some(d) => {
                assert(dir_index(d) >= 0);
            },
            None => {
            },
        }
        match last_bound(left, key, skip_left, 6) {
            Some(d) => {
                assert(dir_index(d) >= 0);
            },
            None => {
            },
        }
    }
}

fn last_bound_of(controls: &Controls, key: Key, skip: Option<Dir>) -> (r: Option<Dir>)
    ensures
        r == last_bound(controls.keys(), key, skip, 6),
{
    let dirs = Dir::iter();
    let mut found: Option<Dir> = None;
    let mut i: usize = 0;
    while i < 6
        invariant
            0 <= i <= 6,
            dirs@.len() == 6,
            forall|j: int| 0 <= j < 6 ==> #[trigger] dirs@[j] == dir_at(j),
            found == last_bound(controls.keys(), key, skip, i as int),
        decreases 6 - i,
    {
        let d = dirs[i];
        assert(dir_index(d) == i);
        if controls.get(d) == Some(key) && skip != Some(d) {
            found = Some(d);
        }
        i = i + 1;
    }
    found
}

impl Menu {
    pub fn is_open(&self) -> (open: bool)
        ensures
            open == !(*self is Closed),
    {
        !matches!(self, Menu::Closed)
    }

    pub fn open(&mut self)
        ensures
            *final(self) == Menu::Options,
    {
        *self = Menu::Options;
    }

    /// Esc: go back one screen (or cancel a key waiting to be bound)
    pub fn back(&mut self) -> (event: Option<MenuEvent>)
        ensures
            (*final(self), event) == menu_back(*old(self)),
    {
        match *self {
            Menu::Closed => None,
            Menu::Options => {
                *self = Menu::Closed;
                Some(MenuEvent::Closed)
            },
            Menu::Players => {
                self.open();
                None
            },
            Menu::Keys(keys) => {
                if keys.listening.is_some() {
                    *self = Menu::Keys(KeysScreen { listening: None, ..keys });
                } else {
                    *self = Menu::Players;
                }
                None
            },
            Menu::Confirm(_) => {
                self.open();
                None
            },
        }
    }

    /// Handle a key press while the menus are open: Esc goes back, and a key
    /// waiting to be bound takes any other press, except Space (play/pause)
    /// and keys that aren't recognised. Returns whether the press was used,
    /// and what the host should know about. A used press other than Esc
    /// changed the players' keys, `left` and `right`, which the caller
    /// saves. `now` is the time, in milliseconds, a key that lost its
    /// binding starts flashing.
    pub fn key_pressed(
        &mut self,
        code: KeyCode,
        key: Key,
        left: &mut Controls,
        right: &mut Controls,
        now: u64,
    ) -> (r: (bool, Option<MenuEvent>))
        ensures
            *old(self) is Closed ==> r == (false, Option::<MenuEvent>::None) && *final(self) == *old(self)
                && final(left).keys() == old(left).keys() && final(right).keys() == old(right).keys(),
            !(*old(self) is Closed) && code == KeyCode::Escape ==> r.0 && (*final(self), r.1) == menu_back(
                *old(self),
            ) && final(left).keys() == old(left).keys() && final(right).keys() == old(right).keys(),
            !(*old(self) is Closed) && code != KeyCode::Escape ==> match *old(self) {
                Menu::Keys(k) => match k.listening {
                    Some(dir) => {
                        &&& r == (true, Option::<MenuEvent>::None)
                        &&& if code == KeyCode::Space || code == KeyCode::Unknown {
                            &&& *final(self) == *old(self)
                            &&& final(left).keys() == old(left).keys()
                            &&& final(right).keys() == old(right).keys()
                        } else {
                            &&& final(left).keys() == rebound(old(left).keys(), Side::Left, k.side, dir, key)
                            &&& final(right).keys() == rebound(old(right).keys(), Side::Right, k.side, dir, key)
                            &&& *final(self) == Menu::Keys(
                                KeysScreen {
                                    listening: None,
                                    flash: flash_after(old(left).keys(), old(right).keys(), k.side, dir, key, now, k.flash),
                                    ..k
                                },
                            )
                        }
                    },
                    None => r == (false, Option::<MenuEvent>::None) && *final(self) == *old(self)
                        && final(left).keys() == old(left).keys() && final(right).keys() == old(right).keys(),
                },
                _ => r == (false, Option::<MenuEvent>::None) && *final(self) == *old(self)
                    && final(left).keys() == old(left).keys() && final(right).keys() == old(right).keys(),
            },
    {
        if !self.is_open() {
            return (false, None);
        }
        if code == KeyCode::Escape {
            let event = self.back();
            return (true, event);
        }
        match *self {
            Menu::Keys(keys) => match keys.listening {
                Some(dir) => {
                    if !(code == KeyCode::Space || code == KeyCode::Unknown) {
                        let skip_left = if keys.side == Side::Left { Some(dir) } else { None };
                        let skip_right = if keys.side == Side::Right { Some(dir) } else { None };
                        let flash = match last_bound_of(right, key, skip_right) {
                            Some(d) => Some(Flash { side: Side::Right, dir: d, since: now }),
                            None => match last_bound_of(left, key, skip_left) {
                                Some(d) => Some(Flash { side: Side::Left, dir: d, since: now }),
                                None => keys.flash,
                            },
                        };
                        let _moved = bind_key(left, right, keys.side, dir, key);
                        *self = Menu::Keys(KeysScreen { listening: None, flash, ..keys });
                    }
                    (true, None)
                },
                None => (false, None),
            },
            _ => (false, None),
        }
    }

    /// A click on the options screen; nothing happens on another screen.
    /// Returns what the host should know, and whether the preferences
    /// changed in their stored part (to be saved right away).
    pub fn options_clicked(&mut self, entry: Entry, prefs: &mut Prefs) -> (r: (Option<MenuEvent>, bool))
        ensures
            !(*old(self) is Options) ==> *final(self) == *old(self) && *final(prefs) == *old(prefs)
                && r == (Option::<MenuEvent>::None, false),
            *old(self) is Options ==> match entry {
                Entry::Close => *final(self) == Menu::Closed && *final(prefs) == *old(prefs) && r == (
                Some(MenuEvent::Closed), false),
                Entry::Toggle(t) => *final(self) == Menu::Options && *final(prefs) == toggled(
                    t,
                    *old(prefs),
                ) && r == (Some(MenuEvent::Toggled(t)), is_stored(t)),
                Entry::Controls => *final(self) == Menu::Players && *final(prefs) == *old(prefs) && r == (
                Option::<MenuEvent>::None, false),
                Entry::Confirm(c) => *final(self) == Menu::Confirm(c) && *final(prefs) == *old(prefs)
                    && r == (Option::<MenuEvent>::None, false),
            },
    {
        if !matches!(self, Menu::Options) {
            return (None, false);
        }
        match entry {
            Entry::Close => {
                *self = Menu::Closed;
                (Some(MenuEvent::Closed), false)
            },
            Entry::Toggle(toggle) => {
                let stored = toggle.apply(prefs);
                (Some(MenuEvent::Toggled(toggle)), stored)
            },
            Entry::Controls => {
                *self = Menu::Players;
                (None, false)
            },
            Entry::Confirm(confirm) => {
                *self = Menu::Confirm(confirm);
                (None, false)
            },
        }
    }

    /// A click on the players screen; nothing happens on another screen.
    /// Returns whether the single player's side changed (to be saved).
    pub fn players_clicked(&mut self, action: PlayersAction, single_player: &mut Side) -> (changed: bool)
        ensures
            !(*old(self) is Players) ==> {
                &&& *final(self) == *old(self)
                &&& *final(single_player) == *old(single_player)
                &&& !changed
            },
            *old(self) is Players ==> match action {
                PlayersAction::Back => {
                    &&& *final(self) == Menu::Options
                    &&& *final(single_player) == *old(single_player)
                    &&& !changed
                },
                PlayersAction::Open(side) => {
                    &&& *final(self) == Menu::Keys(KeysScreen { side, listening: None, flash: None })
                    &&& *final(single_player) == *old(single_player)
                    &&& !changed
                },
                PlayersAction::SinglePlayer(side) => {
                    &&& *final(self) == Menu::Players
                    &&& *final(single_player) == side
                    &&& changed
                },
            },
    {
        if !matches!(self, Menu::Players) {
            return false;
        }
        match action {
            PlayersAction::Back => {
                self.open();
                false
            },
            PlayersAction::Open(side) => {
                *self = Menu::Keys(KeysScreen::new(side));
                false
            },
            PlayersAction::SinglePlayer(side) => {
                *single_player = side;
                true
            },
        }
    }

    /// A click on a player's keys screen; nothing happens on another
    /// screen. Clicking the key that is listening stops it.
    pub fn keys_clicked(&mut self, action: KeysAction)
        ensures
            match *old(self) {
                Menu::Keys(k) => match action {
                    KeysAction::Back => *final(self) == Menu::Players,
                    KeysAction::Select(dir) => *final(self) == Menu::Keys(
                        KeysScreen {
                            listening: if k.listening == Some(dir) {
                                None
                            } else {
                                Some(dir)
                            },
                            ..k
                        },
                    ),
                },
                _ => *final(self) == *old(self),
            },
    {
        match *self {
            Menu::Keys(keys) => match action {
                KeysAction::Back => {
                    *self = Menu::Players;
                },
                KeysAction::Select(dir) => {
                    let listening = if keys.listening == Some(dir) {
                        None
                    } else {
                        Some(dir)
                    };
                    *self = Menu::Keys(KeysScreen { listening, ..keys });
                },
            },
            _ => {},
        }
    }

    /// The answer to "are you sure?"; nothing happens on another screen. Yes
    /// closes the menus and tells the host what to do; no goes back to the
    /// options.
    pub fn confirm_answered(&mut self, yes: bool) -> (event: Option<MenuEvent>)
        ensures
            match *old(self) {
                Menu::Confirm(c) => if yes {
                    *final(self) == Menu::Closed && event == Some(
                        match c {
                            Confirm::Restart => MenuEvent::Restart,
                            Confirm::MainMenu => MenuEvent::MainMenu,
                        },
                    )
                } else {
                    *final(self) == Menu::Options && event is None
                },
                _ => *final(self) == *old(self) && event is None,
            },
    {
        match *self {
            Menu::Confirm(confirm) => {
                if yes {
                    *self = Menu::Closed;
                    Some(
                        match confirm {
                            Confirm::Restart => MenuEvent::Restart,
                            Confirm::MainMenu => MenuEvent::MainMenu,
                        },
                    )
                } else {
                    self.open();
                    None
                }
            },
            _ => None,
        }
    }
}

/// The menu after Esc is pressed `n` times.
pub open spec fn backed(m: Menu, n: nat) -> Menu
    decreases n,
{
    if n == 0 {
        m
    } else {
        menu_back(backed(m, (n - 1) as nat)).0
    }
}

/// Esc leads out of the menus: four presses close them from any screen,
/// and only leaving the options screen tells the host they closed.
pub proof fn lemma_back_closes(m: Menu)
    ensures
        backed(m, 4) == Menu::Closed,
        menu_back(m).1 is Some <==> m == Menu::Options,
{
    reveal_with_fuel(backed, 5);
}

} // verus!
