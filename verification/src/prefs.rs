//! The player's preferences and how they are stored: one `key=value` per
//! line, read key by key so that an old file keeps working.

use vstd::prelude::*;

use crate::rendering::Style;
use crate::text::{
    bool_text, chars_of, decimal, is_word, join_entries, keys_distinct, lemma_decimal,
    lemma_join_entries_read_back, lemma_lookup_distinct, lines, lookup, lookup_key, pair_views,
    pairs_of, parse, parse_bool, parse_u64, read_bool, read_u64, string_of, text_is, write_bool,
    write_u64,
};

verus! {

/// Bumped when a stored preference changes meaning rather than merely coming or
/// going — adding and removing settings is already handled by reading key by
/// key. Nothing migrates yet; this is here so that an old file can be
/// recognised as old when something eventually does.
pub const VERSION: u64 = 1;

#[derive(Copy, Clone, PartialEq, Eq, Debug, Structural)]
pub enum DrawGrid {
    Grid,
    Dots,
    /// No grid at all (stored as `none`)
    Off,
}

/// How wrap-around edges hint at what lies on the other side.
#[derive(Copy, Clone, PartialEq, Eq, Debug, Structural)]
pub enum HintStyle {
    /// Recolor the edge's stretch of the border
    Border,
    /// A gradient fading from the edge into its cell
    Gradient,
    /// Where the head would come out if it teleported
    Teleport,
    /// No hints (stored as `none`)
    Off,
}

impl DrawGrid {
    /// The next setting, cycling back to the first after the last.
    pub fn rotate_next(&mut self)
        ensures
            *final(self) == match *old(self) {
                DrawGrid::Grid => DrawGrid::Dots,
                DrawGrid::Dots => DrawGrid::Off,
                DrawGrid::Off => DrawGrid::Grid,
            },
    {
        *self = match *self {
            DrawGrid::Grid => DrawGrid::Dots,
            DrawGrid::Dots => DrawGrid::Off,
            DrawGrid::Off => DrawGrid::Grid,
        };
    }
}

impl HintStyle {
    /// The next setting, cycling back to the first after the last.
    pub fn rotate_next(&mut self)
        ensures
            *final(self) == match *old(self) {
                HintStyle::Border => HintStyle::Gradient,
                HintStyle::Gradient => HintStyle::Teleport,
                HintStyle::Teleport => HintStyle::Off,
                HintStyle::Off => HintStyle::Border,
            },
    {
        *self = match *self {
            HintStyle::Border => HintStyle::Gradient,
            HintStyle::Gradient => HintStyle::Teleport,
            HintStyle::Teleport => HintStyle::Off,
            HintStyle::Off => HintStyle::Border,
        };
    }
}

/// The name a grid setting goes by in the stored file.
pub open spec fn draw_grid_name(value: DrawGrid) -> Seq<char> {
    match value {
        DrawGrid::Grid => "grid"@,
        DrawGrid::Dots => "dots"@,
        DrawGrid::Off => "none"@,
    }
}

/// The grid setting named `text`, if any.
pub open spec fn draw_grid_named(text: Seq<char>) -> Option<DrawGrid> {
    if text == "grid"@ {
        Some(DrawGrid::Grid)
    } else if text == "dots"@ {
        Some(DrawGrid::Dots)
    } else if text == "none"@ {
        Some(DrawGrid::Off)
    } else {
        None
    }
}

pub open spec fn hint_style_name(value: HintStyle) -> Seq<char> {
    match value {
        HintStyle::Border => "border"@,
        HintStyle::Gradient => "gradient"@,
        HintStyle::Teleport => "teleport"@,
        HintStyle::Off => "none"@,
    }
}

pub open spec fn hint_style_named(text: Seq<char>) -> Option<HintStyle> {
    if text == "border"@ {
        Some(HintStyle::Border)
    } else if text == "gradient"@ {
        Some(HintStyle::Gradient)
    } else if text == "teleport"@ {
        Some(HintStyle::Teleport)
    } else if text == "none"@ {
        Some(HintStyle::Off)
    } else {
        None
    }
}

pub open spec fn draw_style_name(value: Style) -> Seq<char> {
    match value {
        Style::Hexagon => "hexagon"@,
        Style::Smooth => "smooth"@,
    }
}

pub open spec fn draw_style_named(text: Seq<char>) -> Option<Style> {
    if text == "hexagon"@ {
        Some(Style::Hexagon)
    } else if text == "smooth"@ {
        Some(Style::Smooth)
    } else {
        None
    }
}

// The names each enum goes by in the stored file. These live here rather than
// on the enums because they are a file-format concern: renaming a variant
// should not silently invalidate everyone's saved preferences.
pub fn draw_grid(value: DrawGrid) -> (name: &'static str)
    ensures
        name@ == draw_grid_name(value),
{
    match value {
        DrawGrid::Grid => "grid",
        DrawGrid::Dots => "dots",
        DrawGrid::Off => "none",
    }
}

fn read_draw_grid_chars(text: &Vec<char>) -> (r: Option<DrawGrid>)
    ensures
        r == draw_grid_named(text@),
{
    if text_is(text, "grid") {
        Some(DrawGrid::Grid)
    } else if text_is(text, "dots") {
        Some(DrawGrid::Dots)
    } else if text_is(text, "none") {
        Some(DrawGrid::Off)
    } else {
        None
    }
}

pub fn read_draw_grid(text: &str) -> (r: Option<DrawGrid>)
    ensures
        r == draw_grid_named(text@),
{
    read_draw_grid_chars(&chars_of(text))
}

pub fn hint_style(value: HintStyle) -> (name: &'static str)
    ensures
        name@ == hint_style_name(value),
{
    match value {
        HintStyle::Border => "border",
        HintStyle::Gradient => "gradient",
        HintStyle::Teleport => "teleport",
        HintStyle::Off => "none",
    }
}

fn read_hint_style_chars(text: &Vec<char>) -> (r: Option<HintStyle>)
    ensures
        r == hint_style_named(text@),
{
    if text_is(text, "border") {
        Some(HintStyle::Border)
    } else if text_is(text, "gradient") {
        Some(HintStyle::Gradient)
    } else if text_is(text, "teleport") {
        Some(HintStyle::Teleport)
    } else if text_is(text, "none") {
        Some(HintStyle::Off)
    } else {
        None
    }
}

pub fn read_hint_style(text: &str) -> (r: Option<HintStyle>)
    ensures
        r == hint_style_named(text@),
{
    read_hint_style_chars(&chars_of(text))
}

pub fn draw_style(value: Style) -> (name: &'static str)
    ensures
        name@ == draw_style_name(value),
{
    match value {
        Style::Hexagon => "hexagon",
        Style::Smooth => "smooth",
    }
}

fn read_draw_style_chars(text: &Vec<char>) -> (r: Option<Style>)
    ensures
        r == draw_style_named(text@),
{
    if text_is(text, "hexagon") {
        Some(Style::Hexagon)
    } else if text_is(text, "smooth") {
        Some(Style::Smooth)
    } else {
        None
    }
}

pub fn read_draw_style(text: &str) -> (r: Option<Style>)
    ensures
        r == draw_style_named(text@),
{
    read_draw_style_chars(&chars_of(text))
}


proof fn lemma_names_are_words()
    ensures
        forall|g: DrawGrid| #[trigger] is_word(draw_grid_name(g)),
        forall|h: HintStyle| #[trigger] is_word(hint_style_name(h)),
        forall|s: Style| #[trigger] is_word(draw_style_name(s)),
{
    reveal_strlit("grid");
    reveal_strlit("dots");
    reveal_strlit("none");
    reveal_strlit("border");
    reveal_strlit("gradient");
    reveal_strlit("teleport");
    reveal_strlit("hexagon");
    reveal_strlit("smooth");
}


/// The player's settings, and beside them, for now, a few rules of the game.
///
/// Fractions are held as whole numbers of thousandths, durations as whole
/// milliseconds.
#[derive(Copy, Clone, PartialEq, Eq, Debug, Structural)]
pub struct Prefs {
    pub draw_grid: DrawGrid,
    pub draw_border: bool,
    pub draw_distance_grid: bool,
    pub draw_player_path: bool,
    pub hint_style: HintStyle,
    pub display_fps: bool,
    pub display_stats: bool,
    /// How long a message stays up, in milliseconds
    pub message_duration: u64,
    /// How much a snake grows from an apple, in thousandths of a segment
    pub apple_food: u64,
    pub special_apples: bool,
    /// The chance, in thousandths, that a competitor spawns
    pub prob_spawn_competitor: u64,
    /// The chance, in thousandths, that a killer spawns
    pub prob_spawn_killer: u64,
    /// The chance, in thousandths, that rain spawns
    pub prob_spawn_rain: u64,
    pub draw_style: Style,
    pub hide_cursor: bool,
}

pub open spec fn default_prefs() -> Prefs {
    Prefs {
        draw_grid: DrawGrid::Grid,
        draw_border: true,
        draw_distance_grid: false,
        draw_player_path: false,
        hint_style: HintStyle::Border,
        display_fps: false,
        display_stats: false,
        message_duration: 2000,
        apple_food: 1000,
        special_apples: true,
        prob_spawn_competitor: 25,
        prob_spawn_killer: 15,
        prob_spawn_rain: 2,
        draw_style: Style::Smooth,
        hide_cursor: true,
    }
}

/// The preferences a first start has: a grid of lines, the border drawn,
/// no distance grid or autopilot path, border hints, no frame rate or
/// statistics, messages up for two seconds, apples feeding one segment,
/// special apples on with a 2.5% chance of a competitor, 1.5% of a killer
/// and 0.2% of rain, smooth snakes, and the cursor hidden.
pub proof fn lemma_defaults()
    ensures
        default_prefs().draw_grid == DrawGrid::Grid,
        default_prefs().draw_border,
        !default_prefs().draw_distance_grid,
        !default_prefs().draw_player_path,
        default_prefs().hint_style == HintStyle::Border,
        !default_prefs().display_fps,
        !default_prefs().display_stats,
        default_prefs().message_duration == 2000,
        default_prefs().apple_food == 1000,
        default_prefs().special_apples,
        default_prefs().prob_spawn_competitor == 25,
        default_prefs().prob_spawn_killer == 15,
        default_prefs().prob_spawn_rain == 2,
        default_prefs().draw_style == Style::Smooth,
        default_prefs().hide_cursor,
{
}

impl Default for Prefs {
    fn default() -> (prefs: Self)
        ensures
            prefs == default_prefs(),
    {
        Prefs {
            draw_grid: DrawGrid::Grid,
            draw_border: true,
            draw_distance_grid: false,
            draw_player_path: false,
            hint_style: HintStyle::Border,
            display_fps: false,
            display_stats: false,
            message_duration: 2000,
            apple_food: 1000,
            special_apples: true,
            prob_spawn_competitor: 25,
            prob_spawn_killer: 15,
            prob_spawn_rain: 2,
            draw_style: Style::Smooth,
            hide_cursor: true,
        }
    }
}

/// What is stored of `p`, key by key, in the order it is written.
pub open spec fn stored_entries(p: Prefs) -> Seq<(Seq<char>, Seq<char>)> {
    seq![
        ("version"@, decimal(VERSION as nat)),
        ("draw_grid"@, draw_grid_name(p.draw_grid)),
        ("draw_border"@, bool_text(p.draw_border)),
        ("draw_distance_grid"@, bool_text(p.draw_distance_grid)),
        ("draw_player_path"@, bool_text(p.draw_player_path)),
        ("hint_style"@, hint_style_name(p.hint_style)),
        ("display_fps"@, bool_text(p.display_fps)),
        ("display_stats"@, bool_text(p.display_stats)),
        ("message_duration_ms"@, decimal(p.message_duration as nat)),
        ("draw_style"@, draw_style_name(p.draw_style)),
        ("hide_cursor"@, bool_text(p.hide_cursor)),
    ]
}

/// The stored form of `p`: one `key=value` line per stored setting.
pub open spec fn prefs_text(p: Prefs) -> Seq<char> {
    join_entries(stored_entries(p))
}

/// `p` with the game-rule fields, which are not stored, at their defaults.
pub open spec fn stored_part(p: Prefs) -> Prefs {
    let d = default_prefs();
    Prefs {
        apple_food: d.apple_food,
        special_apples: d.special_apples,
        prob_spawn_competitor: d.prob_spawn_competitor,
        prob_spawn_killer: d.prob_spawn_killer,
        prob_spawn_rain: d.prob_spawn_rain,
        ..p
    }
}

/// The flag stored under `key`, or `current` where there is none that reads.
pub open spec fn flag_field(fields: Seq<(Seq<char>, Seq<char>)>, key: Seq<char>, current: bool) -> bool {
    match lookup(fields, key) {
        Some(v) => match parse_bool(v) {
            Some(b) => b,
            None => current,
        },
        None => current,
    }
}

pub open spec fn grid_field(fields: Seq<(Seq<char>, Seq<char>)>, current: DrawGrid) -> DrawGrid {
    match lookup(fields, "draw_grid"@) {
        Some(v) => match draw_grid_named(v) {
            Some(g) => g,
            None => current,
        },
        None => current,
    }
}

pub open spec fn hint_field(fields: Seq<(Seq<char>, Seq<char>)>, current: HintStyle) -> HintStyle {
    match lookup(fields, "hint_style"@) {
        Some(v) => match hint_style_named(v) {
            Some(h) => h,
            None => current,
        },
        None => current,
    }
}

pub open spec fn style_field(fields: Seq<(Seq<char>, Seq<char>)>, current: Style) -> Style {
    match lookup(fields, "draw_style"@) {
        Some(v) => match draw_style_named(v) {
            Some(st) => st,
            None => current,
        },
        None => current,
    }
}

pub open spec fn millis_field(fields: Seq<(Seq<char>, Seq<char>)>, current: u64) -> u64 {
    match lookup(fields, "message_duration_ms"@) {
        Some(v) => match parse_u64(v) {
            Some(n) => n,
            None => current,
        },
        None => current,
    }
}

/// The preferences a stored text gives: each stored setting that is present
/// and reads replaces its default; everything else keeps the default.
pub open spec fn prefs_read(text: Seq<char>) -> Prefs {
    let fields = pairs_of(lines(text));
    let d = default_prefs();
    Prefs {
        draw_grid: grid_field(fields, d.draw_grid),
        hint_style: hint_field(fields, d.hint_style),
        draw_style: style_field(fields, d.draw_style),
        draw_border: flag_field(fields, "draw_border"@, d.draw_border),
        draw_distance_grid: flag_field(fields, "draw_distance_grid"@, d.draw_distance_grid),
        draw_player_path: flag_field(fields, "draw_player_path"@, d.draw_player_path),
        display_fps: flag_field(fields, "display_fps"@, d.display_fps),
        display_stats: flag_field(fields, "display_stats"@, d.display_stats),
        hide_cursor: flag_field(fields, "hide_cursor"@, d.hide_cursor),
        message_duration: millis_field(fields, d.message_duration),
        ..d
    }
}

pub(crate) fn push_all(out: &mut Vec<char>, chars: &Vec<char>)
    ensures
        final(out)@ == old(out)@ + chars@,
{
    let mut i: usize = 0;
    while i < chars.len()
        invariant
            0 <= i <= chars@.len(),
            out@ == old(out)@ + chars@.take(i as int),
        decreases chars@.len() - i,
    {
        out.push(chars[i]);
        i = i + 1;
        assert(out@ =~= old(out)@ + chars@.take(i as int));
    }
    assert(chars@.take(i as int) =~= chars@);
}

fn flag_of(fields: &Vec<(Vec<char>, Vec<char>)>, key: &str, current: bool) -> (b: bool)
    ensures
        b == flag_field(pair_views(fields@), key@, current),
{
    match lookup_key(fields, key) {
        Some(v) => match read_bool(&v) {
            Some(b) => b,
            None => current,
        },
        None => current,
    }
}

impl Prefs {
    /// The stored form: one `key=value` per line.
    pub fn to_text(&self) -> (text: String)
        ensures
            text@ == prefs_text(*self),
    {
        let mut entries: Vec<(Vec<char>, Vec<char>)> = Vec::new();
        entries.push((chars_of("version"), write_u64(VERSION)));
        entries.push((chars_of("draw_grid"), chars_of(draw_grid(self.draw_grid))));
        entries.push((chars_of("draw_border"), write_bool(self.draw_border)));
        entries.push((chars_of("draw_distance_grid"), write_bool(self.draw_distance_grid)));
        entries.push((chars_of("draw_player_path"), write_bool(self.draw_player_path)));
        entries.push((chars_of("hint_style"), chars_of(hint_style(self.hint_style))));
        entries.push((chars_of("display_fps"), write_bool(self.display_fps)));
        entries.push((chars_of("display_stats"), write_bool(self.display_stats)));
        entries.push((chars_of("message_duration_ms"), write_u64(self.message_duration)));
        entries.push((chars_of("draw_style"), chars_of(draw_style(self.draw_style))));
        entries.push((chars_of("hide_cursor"), write_bool(self.hide_cursor)));
        let ghost es = pair_views(entries@);
        assert(es =~= stored_entries(*self));
        let mut out: Vec<char> = Vec::new();
        let mut i: usize = 0;
        assert(es.take(0) =~= Seq::<(Seq<char>, Seq<char>)>::empty());
        while i < entries.len()
            invariant
                0 <= i <= entries@.len(),
                es == pair_views(entries@),
                out@ == join_entries(es.take(i as int)),
            decreases entries@.len() - i,
        {
            let ghost before = out@;
            push_all(&mut out, &entries[i].0);
            out.push('=');
            push_all(&mut out, &entries[i].1);
            out.push('\n');
            proof {
                let taken = es.take(i + 1);
                assert(taken.drop_last() =~= es.take(i as int));
                assert(taken.last() == es[i as int]);
                assert(es[i as int] == (entries@[i as int].0@, entries@[i as int].1@));
                assert(out@ =~= join_entries(taken));
            }
            i = i + 1;
        }
        assert(es.take(i as int) =~= es);
        string_of(&out)
    }

    /// Read the stored form key by key against the defaults: a key that is
    /// not known is ignored, one that is missing keeps its default, and a
    /// value that does not read costs only its own setting.
    pub fn read(text: &str) -> (prefs: Prefs)
        ensures
            prefs == prefs_read(text@),
    {
        let fields = parse(&chars_of(text));
        let d = Prefs::default();
        let mut prefs = d;
        match lookup_key(&fields, "draw_grid") {
            Some(v) => match read_draw_grid_chars(&v) {
                Some(g) => {
                    prefs.draw_grid = g;
                },
                None => {},
            },
            None => {},
        }
        match lookup_key(&fields, "hint_style") {
            Some(v) => match read_hint_style_chars(&v) {
                Some(h) => {
                    prefs.hint_style = h;
                },
                None => {},
            },
            None => {},
        }
        match lookup_key(&fields, "draw_style") {
            Some(v) => match read_draw_style_chars(&v) {
                Some(st) => {
                    prefs.draw_style = st;
                },
                None => {},
            },
            None => {},
        }
        prefs.draw_border = flag_of(&fields, "draw_border", d.draw_border);
        prefs.draw_distance_grid = flag_of(&fields, "draw_distance_grid", d.draw_distance_grid);
        prefs.draw_player_path = flag_of(&fields, "draw_player_path", d.draw_player_path);
        prefs.display_fps = flag_of(&fields, "display_fps", d.display_fps);
        prefs.display_stats = flag_of(&fields, "display_stats", d.display_stats);
        prefs.hide_cursor = flag_of(&fields, "hide_cursor", d.hide_cursor);
        match lookup_key(&fields, "message_duration_ms") {
            Some(v) => match read_u64(&v) {
                Some(n) => {
                    prefs.message_duration = n;
                },
                None => {},
            },
            None => {},
        }
        prefs
    }

    /// Set how much a snake grows from an apple, in thousandths of a segment.
    pub fn apple_food(self, food: u64) -> (prefs: Prefs)
        ensures
            prefs == (Prefs { apple_food: food, ..self }),
    {
        let mut prefs = self;
        prefs.apple_food = food;
        prefs
    }

    pub fn special_apples(self, special_apples: bool) -> (prefs: Prefs)
        ensures
            prefs == (Prefs { special_apples: special_apples, ..self }),
    {
        let mut prefs = self;
        prefs.special_apples = special_apples;
        prefs
    }
}

/// The position of each stored key in the stored form.
spec fn key_position(key: Seq<char>) -> int {
    if key == "version"@ {
        0
    } else if key == "draw_grid"@ {
        1
    } else if key == "draw_border"@ {
        2
    } else if key == "draw_distance_grid"@ {
        3
    } else if key == "draw_player_path"@ {
        4
    } else if key == "hint_style"@ {
        5
    } else if key == "display_fps"@ {
        6
    } else if key == "display_stats"@ {
        7
    } else if key == "message_duration_ms"@ {
        8
    } else if key == "draw_style"@ {
        9
    } else if key == "hide_cursor"@ {
        10
    } else {
        -1
    }
}

/// Every key and every value of the stored form is a word, and no key is
/// stored twice.
proof fn lemma_stored_entries(p: Prefs)
    ensures
        forall|i: int|
            0 <= i < stored_entries(p).len() ==> is_word(#[trigger] stored_entries(p)[i].0)
                && is_word(stored_entries(p)[i].1),
        keys_distinct(stored_entries(p)),
{
    reveal_strlit("version");
    reveal_strlit("draw_grid");
    reveal_strlit("draw_border");
    reveal_strlit("draw_distance_grid");
    reveal_strlit("draw_player_path");
    reveal_strlit("hint_style");
    reveal_strlit("display_fps");
    reveal_strlit("display_stats");
    reveal_strlit("message_duration_ms");
    reveal_strlit("draw_style");
    reveal_strlit("hide_cursor");
    lemma_names_are_words();
    lemma_decimal(VERSION as nat);
    lemma_decimal(p.message_duration as nat);
    let es = stored_entries(p);
    assert(is_word(draw_grid_name(p.draw_grid)));
    assert(is_word(hint_style_name(p.hint_style)));
    assert(is_word(draw_style_name(p.draw_style)));
    assert(is_word(bool_text(true)));
    assert(is_word(bool_text(false)));
    assert forall|i: int| 0 <= i < es.len() implies key_position(#[trigger] es[i].0) == i by {
        if i == 0 {
            assert(es[0].0 == "version"@);
            assert(key_position("version"@) == 0);
        } else if i == 1 {
            assert(es[1].0 == "draw_grid"@);
            assert(key_position("draw_grid"@) == 1);
        } else if i == 2 {
            assert(es[2].0 == "draw_border"@);
            assert(key_position("draw_border"@) == 2);
        } else if i == 3 {
            assert(es[3].0 == "draw_distance_grid"@);
            assert(key_position("draw_distance_grid"@) == 3);
        } else if i == 4 {
            assert(es[4].0 == "draw_player_path"@);
            assert(key_position("draw_player_path"@) == 4);
        } else if i == 5 {
            assert(es[5].0 == "hint_style"@);
            assert(key_position("hint_style"@) == 5);
        } else if i == 6 {
            assert(es[6].0 == "display_fps"@);
            assert("display_fps"@[1] != "draw_border"@[1]);
            assert(key_position("display_fps"@) == 6);
        } else if i == 7 {
            assert(es[7].0 == "display_stats"@);
            assert(key_position("display_stats"@) == 7);
        } else if i == 8 {
            assert(es[8].0 == "message_duration_ms"@);
            assert(key_position("message_duration_ms"@) == 8);
        } else if i == 9 {
            assert(es[9].0 == "draw_style"@);
            assert("draw_style"@[0] != "hint_style"@[0]);
            assert(key_position("draw_style"@) == 9);
        } else {
            assert(es[10].0 == "hide_cursor"@);
            assert("hide_cursor"@[0] != "draw_border"@[0]);
            assert("hide_cursor"@[0] != "display_fps"@[0]);
            assert(key_position("hide_cursor"@) == 10);
        }
    }
    assert forall|i: int, j: int| 0 <= i < j < es.len() implies #[trigger] es[i].0
        != #[trigger] es[j].0 by {
        assert(key_position(es[i].0) == i);
        assert(key_position(es[j].0) == j);
    }
}


/// The stored file's names of the settings, fixed by the file format: each
/// setting is written under its own name, and each name reads as that
/// setting.
pub proof fn lemma_setting_names()
    ensures
        draw_grid_name(DrawGrid::Grid) == "grid"@,
        draw_grid_name(DrawGrid::Dots) == "dots"@,
        draw_grid_name(DrawGrid::Off) == "none"@,
        hint_style_name(HintStyle::Border) == "border"@,
        hint_style_name(HintStyle::Gradient) == "gradient"@,
        hint_style_name(HintStyle::Teleport) == "teleport"@,
        hint_style_name(HintStyle::Off) == "none"@,
        draw_style_name(Style::Hexagon) == "hexagon"@,
        draw_style_name(Style::Smooth) == "smooth"@,
        draw_grid_named("grid"@) == Some(DrawGrid::Grid),
        draw_grid_named("dots"@) == Some(DrawGrid::Dots),
        draw_grid_named("none"@) == Some(DrawGrid::Off),
        hint_style_named("border"@) == Some(HintStyle::Border),
        hint_style_named("gradient"@) == Some(HintStyle::Gradient),
        hint_style_named("teleport"@) == Some(HintStyle::Teleport),
        hint_style_named("none"@) == Some(HintStyle::Off),
        draw_style_named("hexagon"@) == Some(Style::Hexagon),
        draw_style_named("smooth"@) == Some(Style::Smooth),
        bool_text(true) == "true"@,
        bool_text(false) == "false"@,
{
    lemma_names_read_back();
    reveal_strlit("true");
    reveal_strlit("false");
    assert(draw_grid_named(draw_grid_name(DrawGrid::Dots)) == Some(DrawGrid::Dots));
    assert(draw_grid_named(draw_grid_name(DrawGrid::Off)) == Some(DrawGrid::Off));
    assert(hint_style_named(hint_style_name(HintStyle::Gradient)) == Some(HintStyle::Gradient));
    assert(hint_style_named(hint_style_name(HintStyle::Teleport)) == Some(HintStyle::Teleport));
    assert(hint_style_named(hint_style_name(HintStyle::Off)) == Some(HintStyle::Off));
    assert(draw_style_named(draw_style_name(Style::Smooth)) == Some(Style::Smooth));
}

/// The stored form's keys, in the order they are written, and what is
/// written under each.
pub proof fn lemma_stored_keys(p: Prefs)
    ensures
        stored_entries(p).len() == 11,
        stored_entries(p)[0] == ("version"@, decimal(VERSION as nat)),
        stored_entries(p)[1] == ("draw_grid"@, draw_grid_name(p.draw_grid)),
        stored_entries(p)[2] == ("draw_border"@, bool_text(p.draw_border)),
        stored_entries(p)[3] == ("draw_distance_grid"@, bool_text(p.draw_distance_grid)),
        stored_entries(p)[4] == ("draw_player_path"@, bool_text(p.draw_player_path)),
        stored_entries(p)[5] == ("hint_style"@, hint_style_name(p.hint_style)),
        stored_entries(p)[6] == ("display_fps"@, bool_text(p.display_fps)),
        stored_entries(p)[7] == ("display_stats"@, bool_text(p.display_stats)),
        stored_entries(p)[8] == ("message_duration_ms"@, decimal(p.message_duration as nat)),
        stored_entries(p)[9] == ("draw_style"@, draw_style_name(p.draw_style)),
        stored_entries(p)[10] == ("hide_cursor"@, bool_text(p.hide_cursor)),
{
}

/// Reading a stored text: each setting is taken from the last line of its
/// own key where that line's value reads, and kept at its default
/// otherwise.
pub proof fn lemma_read_keys(text: Seq<char>)
    ensures
        ({
            let fields = pairs_of(lines(text));
            let d = default_prefs();
            let r = prefs_read(text);
            &&& forall|v: Seq<char>|
                lookup(fields, "draw_grid"@) == Some(v) ==> r.draw_grid == match #[trigger] draw_grid_named(v) {
                    Some(x) => x,
                    None => d.draw_grid,
                }
            &&& forall|v: Seq<char>|
                lookup(fields, "hint_style"@) == Some(v) ==> r.hint_style == match #[trigger] hint_style_named(v) {
                    Some(x) => x,
                    None => d.hint_style,
                }
            &&& forall|v: Seq<char>|
                lookup(fields, "draw_style"@) == Some(v) ==> r.draw_style == match #[trigger] draw_style_named(v) {
                    Some(x) => x,
                    None => d.draw_style,
                }
            &&& lookup(fields, "draw_grid"@) is None ==> r.draw_grid == d.draw_grid
            &&& lookup(fields, "hint_style"@) is None ==> r.hint_style == d.hint_style
            &&& lookup(fields, "draw_style"@) is None ==> r.draw_style == d.draw_style
            &&& r.draw_border == flag_field(fields, "draw_border"@, d.draw_border)
            &&& r.draw_distance_grid == flag_field(fields, "draw_distance_grid"@, d.draw_distance_grid)
            &&& r.draw_player_path == flag_field(fields, "draw_player_path"@, d.draw_player_path)
            &&& r.display_fps == flag_field(fields, "display_fps"@, d.display_fps)
            &&& r.display_stats == flag_field(fields, "display_stats"@, d.display_stats)
            &&& r.hide_cursor == flag_field(fields, "hide_cursor"@, d.hide_cursor)
            &&& r.message_duration == millis_field(fields, d.message_duration)
        }),
{
}

/// Each name reads back as what it names.
proof fn lemma_names_read_back()
    ensures
        forall|g: DrawGrid| #[trigger] draw_grid_named(draw_grid_name(g)) == Some(g),
        forall|h: HintStyle| #[trigger] hint_style_named(hint_style_name(h)) == Some(h),
        forall|st: Style| #[trigger] draw_style_named(draw_style_name(st)) == Some(st),
{
    reveal_strlit("grid");
    reveal_strlit("dots");
    reveal_strlit("none");
    reveal_strlit("border");
    reveal_strlit("gradient");
    reveal_strlit("teleport");
    reveal_strlit("hexagon");
    reveal_strlit("smooth");
    assert("grid"@[0] != "dots"@[0]);
    assert("border"@.len() != "none"@.len());
    assert("gradient"@[0] != "teleport"@[0]);
    assert("smooth"@.len() != "hexagon"@.len());
}

/// Reading back the stored form of some preferences gives them back, but
/// for the game-rule fields, which are not stored and so come back at their
/// defaults; and the stored form of what was read back is the stored form
/// it was read from.
pub proof fn lemma_read_back(p: Prefs)
    ensures
        prefs_read(prefs_text(p)) == stored_part(p),
        prefs_text(prefs_read(prefs_text(p))) == prefs_text(p),
{
    let es = stored_entries(p);
    lemma_stored_entries(p);
    lemma_join_entries_read_back(es);
    lemma_lookup_distinct(es, 1);
    lemma_lookup_distinct(es, 2);
    lemma_lookup_distinct(es, 3);
    lemma_lookup_distinct(es, 4);
    lemma_lookup_distinct(es, 5);
    lemma_lookup_distinct(es, 6);
    lemma_lookup_distinct(es, 7);
    lemma_lookup_distinct(es, 8);
    lemma_lookup_distinct(es, 9);
    lemma_lookup_distinct(es, 10);
    lemma_names_read_back();
    lemma_decimal(p.message_duration as nat);
    assert(prefs_read(prefs_text(p)) == stored_part(p));
    assert(stored_entries(stored_part(p)) == es);
}

/// The game-rule fields are not part of the stored form: preferences that
/// differ only in them are stored alike.
pub proof fn lemma_rules_not_stored(p: Prefs, q: Prefs)
    requires
        stored_part(p) == stored_part(q),
    ensures
        prefs_text(p) == prefs_text(q),
{
    assert(stored_entries(p) == stored_entries(q));
}

} // verus!
