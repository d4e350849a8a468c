use tui_do_ui::theme::{index_for, parse_hex, Color, ColorDepth, Theme};

#[test]
fn no_colour_means_no_colour() {
    let theme = Theme::new(ColorDepth::NoColor);
    assert_eq!(theme.error().fg, Some(Color::Reset));
    assert_eq!(theme.label("e05454"), theme.text());
}

#[test]
fn a_shallow_terminal_gets_an_ansi_name_not_an_rgb_triple() {
    assert_eq!(Theme::new(ColorDepth::Ansi16).error().fg, Some(Color::Red));
    assert!(matches!(
        Theme::new(ColorDepth::Ansi256).error().fg,
        Some(Color::Indexed(_))
    ));
    assert_eq!(
        Theme::new(ColorDepth::TrueColor).error().fg,
        Some(Color::Rgb(224, 84, 84))
    );
}

#[test]
fn a_near_grey_maps_to_the_grey_ramp_rather_than_a_tinted_cube_colour() {
    assert!((232..=255).contains(&index_for((122, 128, 140))));
    assert!((16..=231).contains(&index_for((224, 84, 84))));
}

#[test]
fn a_hex_colour_survives_the_missing_hash_and_a_bad_one_falls_back() {
    assert_eq!(parse_hex("e05454"), Some((224, 84, 84)));
    assert_eq!(parse_hex("#e05454"), Some((224, 84, 84)));
    assert_eq!(parse_hex(""), None);
    assert_eq!(parse_hex("nonsense"), None);

    let theme = Theme::new(ColorDepth::TrueColor);
    assert_eq!(theme.label(""), theme.accent());
}

#[test]
fn a_pale_label_gets_dark_text_and_a_dark_one_gets_pale_text() {
    let theme = Theme::new(ColorDepth::TrueColor);
    assert_eq!(theme.label("ffee55").fg, Some(Color::Black));
    assert_eq!(theme.label("1d3f8f").fg, Some(Color::White));
}

/// 2026-08-24T12:00:00Z, in seconds.
const NOW: i64 = 1_787_572_800;
const DAY: i64 = 86_400;

#[test]
fn a_due_date_reads_by_how_soon_it_is_and_a_done_task_stops_shouting() {
    let theme = Theme::new(ColorDepth::TrueColor);
    let yesterday = NOW - DAY;
    let tomorrow = NOW + DAY;
    let next_month = NOW + 30 * DAY;

    assert_eq!(theme.due(Some(yesterday), false, NOW), theme.error());
    assert_eq!(theme.due(Some(tomorrow), false, NOW), theme.warning());
    assert_eq!(theme.due(Some(next_month), false, NOW), theme.text());
    assert_eq!(theme.due(None, false, NOW), theme.muted());
    assert_eq!(theme.due(Some(yesterday), true, NOW), theme.muted());
}

#[test]
fn only_the_priorities_worth_noticing_are_coloured() {
    let theme = Theme::new(ColorDepth::TrueColor);
    assert_eq!(theme.priority(0), theme.muted());
    assert_eq!(theme.priority(2), theme.muted());
    assert_ne!(theme.priority(3), theme.muted());
    assert_ne!(theme.priority(5), theme.priority(4));
}

#[test]
fn the_palette_ends_are_black_and_white() {
    assert_eq!(index_for((0, 0, 0)), 16);
    assert_eq!(index_for((255, 255, 255)), 231);
    assert_eq!(index_for((175, 0, 0)), 160);
}

#[test]
fn selection_is_a_background_and_focus_makes_it_bold() {
    let theme = Theme::new(ColorDepth::TrueColor);
    assert_eq!(theme.selected(true).bg, Some(Color::Rgb(46, 82, 148)));
    assert!(theme.selected(true).modifiers.bold);
    assert_eq!(theme.selected(false).bg, Some(Color::Rgb(38, 46, 64)));
    assert_eq!(theme.selected(false).fg, None);
    assert_eq!(theme.pane(false), theme.border());
}
