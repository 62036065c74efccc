use hexsnake::prefs::{
    draw_grid, draw_style, hint_style, read_draw_grid, read_draw_style, read_hint_style, DrawGrid,
    HintStyle, Prefs,
};
use hexsnake::rendering::Style;

#[test]
fn a_saved_file_reads_back_the_same() {
    let mut prefs = Prefs::default();
    prefs.draw_grid = DrawGrid::Dots;
    prefs.hint_style = HintStyle::Gradient;
    prefs.draw_style = Style::Hexagon;
    prefs.draw_border = false;
    prefs.display_fps = true;
    prefs.message_duration = 4500;

    assert_eq!(Prefs::read(&prefs.to_text()).to_text(), prefs.to_text());
}

/// A file from an older or newer build still loads.
#[test]
fn unknown_and_missing_keys_are_survivable() {
    let prefs = Prefs::read("version=1\ndraw_border=false\na_setting_from_the_future=42\n");

    assert!(!prefs.draw_border, "the key that was there applied");
    assert_eq!(
        prefs.display_stats,
        Prefs::default().display_stats,
        "the key that was missing kept its default",
    );
}

/// One unparseable value costs one setting rather than the whole file.
#[test]
fn a_bad_value_costs_only_itself() {
    let prefs = Prefs::read("draw_border=perhaps\ndisplay_fps=true\ndraw_grid=spirals\n");

    assert_eq!(prefs.draw_border, Prefs::default().draw_border, "fell back");
    assert!(matches!(prefs.draw_grid, DrawGrid::Grid), "fell back");
    assert!(prefs.display_fps, "but the good value beside it still applied");
}

/// Blank lines and anything without a `=` are skipped.
#[test]
fn stray_lines_are_ignored() {
    assert!(!Prefs::read("\n# a comment\n  draw_border = false  \n\ngarbage\n").draw_border);
}

/// The game-rule fields are not preferences and stay out of what is written.
#[test]
fn rules_are_not_part_of_the_stored_form() {
    let mut prefs = Prefs::default();
    let before = prefs.to_text();

    prefs.apple_food = 5000;
    prefs.special_apples = !prefs.special_apples;
    prefs.prob_spawn_killer = 500;

    assert_eq!(prefs.to_text(), before);
}

#[test]
fn the_default_stored_form_is_exact() {
    assert_eq!(
        Prefs::default().to_text(),
        "version=1\ndraw_grid=grid\ndraw_border=true\ndraw_distance_grid=false\n\
         draw_player_path=false\nhint_style=border\ndisplay_fps=false\ndisplay_stats=false\n\
         message_duration_ms=2000\ndraw_style=smooth\nhide_cursor=true\n"
    );
}

#[test]
fn reading_back_keeps_every_stored_setting() {
    let mut prefs = Prefs::default();
    prefs.draw_grid = DrawGrid::Off;
    prefs.draw_distance_grid = true;
    prefs.draw_player_path = true;
    prefs.hint_style = HintStyle::Teleport;
    prefs.display_stats = true;
    prefs.message_duration = 18446744073709551615;
    prefs.hide_cursor = false;
    prefs.apple_food = 7;
    let read = Prefs::read(&prefs.to_text());
    assert_eq!(read, Prefs { apple_food: Prefs::default().apple_food, ..prefs });
}

#[test]
fn later_lines_win_and_values_are_trimmed() {
    let prefs = Prefs::read("display_fps=true\r\ndisplay_fps = false\nmessage_duration_ms=+250\n");
    assert!(!prefs.display_fps);
    assert_eq!(prefs.message_duration, 250);
    let prefs = Prefs::read("message_duration_ms=18446744073709551616\n");
    assert_eq!(prefs.message_duration, 2000, "too large for a u64");
}

#[test]
fn builders_set_the_rules() {
    let prefs = Prefs::default().apple_food(3000).special_apples(false);
    assert_eq!(prefs.apple_food, 3000);
    assert!(!prefs.special_apples);
}

#[test]
fn names_read_back() {
    for g in [DrawGrid::Grid, DrawGrid::Dots, DrawGrid::Off] {
        assert_eq!(read_draw_grid(draw_grid(g)), Some(g));
    }
    for h in [HintStyle::Border, HintStyle::Gradient, HintStyle::Teleport, HintStyle::Off] {
        assert_eq!(read_hint_style(hint_style(h)), Some(h));
    }
    for s in [Style::Hexagon, Style::Smooth] {
        assert_eq!(read_draw_style(draw_style(s)), Some(s));
    }
    assert_eq!(draw_grid(DrawGrid::Off), "none");
    assert_eq!(read_hint_style("none"), Some(HintStyle::Off));
    assert_eq!(read_draw_style("Smooth"), None);
}

#[test]
fn settings_rotate_round() {
    let mut g = DrawGrid::Grid;
    g.rotate_next();
    assert_eq!(g, DrawGrid::Dots);
    g.rotate_next();
    g.rotate_next();
    assert_eq!(g, DrawGrid::Grid);
    let mut h = HintStyle::Teleport;
    h.rotate_next();
    assert_eq!(h, HintStyle::Off);
    h.rotate_next();
    assert_eq!(h, HintStyle::Border);
}
