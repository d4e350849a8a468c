use chrono::{DateTime, FixedOffset, TimeZone, Utc};
use tui_do_ui::grid::on_the_calendar;
use tui_do_ui::columns::{Column, ColumnLayout, ColumnSpec};
use tui_do_ui::models::{Project, Task};
use tui_do_ui::rows::{
    display_width, edit_layout, first_visible, fit, height_of, measure, plain_text,
    priority_name, relative_date, render, truncate, wrap, MeasuredColumn, RowContext, GAP,
    MAX_ROW_LINES,
};
use tui_do_ui::theme::{ColorDepth, Theme};

fn layout(columns: Vec<ColumnSpec>) -> ColumnLayout {
    ColumnLayout {
        name: "test".into(),
        description: None,
        columns,
    }
}

#[test]
fn the_spare_space_goes_to_the_title() {
    let measured = measure(
        &layout(vec![
            ColumnSpec {
                min_width: Some(25),
                ..ColumnSpec::new(Column::Title)
            },
            ColumnSpec {
                min_width: Some(10),
                max_width: Some(15),
                ..ColumnSpec::new(Column::Project)
            },
            ColumnSpec {
                min_width: Some(10),
                max_width: Some(12),
                ..ColumnSpec::new(Column::DueDate)
            },
        ]),
        120,
    );
    let widths: Vec<u16> = measured.iter().map(|column| column.width).collect();
    assert_eq!(widths, vec![91, 15, 12]);
    assert_eq!(widths.iter().sum::<u16>() + GAP * 2, 120);
}

#[test]
fn a_narrow_terminal_drops_columns_from_the_right_and_keeps_the_title() {
    let measured = measure(
        &layout(vec![
            ColumnSpec::new(Column::Title),
            ColumnSpec::new(Column::Project),
            ColumnSpec::new(Column::Labels),
            ColumnSpec::new(Column::DueDate),
        ]),
        34,
    );
    let kept: Vec<Column> = measured.iter().map(|column| column.column).collect();
    assert_eq!(kept, vec![Column::Title, Column::Project]);
    assert!(measured.iter().map(|c| c.width).sum::<u16>() + GAP <= 34);
}

#[test]
fn a_column_that_leads_with_something_other_than_the_title_still_keeps_it() {
    let measured = measure(
        &layout(vec![
            ColumnSpec::new(Column::Identifier),
            ColumnSpec::new(Column::Title),
            ColumnSpec::new(Column::Assignees),
        ]),
        30,
    );
    assert!(measured.iter().any(|column| column.column == Column::Title));
}

#[test]
fn a_percentage_width_is_still_honoured() {
    let measured = measure(
        &layout(vec![
            ColumnSpec {
                width_percent: Some(50),
                ..ColumnSpec::new(Column::Title)
            },
            ColumnSpec {
                width_percent: Some(25),
                max_width: Some(25),
                ..ColumnSpec::new(Column::DueDate)
            },
        ]),
        100,
    );
    assert_eq!(measured[1].width, 25);
    assert_eq!(measured[0].width + measured[1].width + GAP, 100);
}

#[test]
fn truncation_marks_that_something_was_lost() {
    assert_eq!(truncate("short", 10), "short");
    assert_eq!(truncate("a longer title", 8), "a longe…");
    assert_eq!(truncate("anything", 1), "…");
    assert_eq!(truncate("anything", 0), "");
}

#[test]
fn wrapping_breaks_at_words_and_caps_the_row() {
    let lines = wrap("fix the authentication token refresh bug", 12, 3);
    assert_eq!(lines, vec!["fix the", "authenticati", "on token …"]);
    assert!(lines.len() <= 3);
}

#[test]
fn a_word_longer_than_the_column_is_broken_rather_than_looping() {
    let lines = wrap("supercalifragilistic", 6, 3);
    assert_eq!(lines.len(), 3);
    assert!(lines.iter().all(|line| display_width(line) <= 6));
}

#[test]
fn width_is_measured_in_terminal_cells_not_characters() {
    assert_eq!(display_width("日本語だ"), 8);
    assert_eq!(display_width("abcd"), 4);
    assert!(display_width(&truncate("日本語だよ", 6)) <= 6);
}

#[test]
fn html_from_the_web_editor_reads_as_text() {
    let html = "<p>The refresh call needs the cookie set by \
                <a target=\"_blank\" rel=\"noopener\" href=\"http://x\">POST /login</a>.</p>\
                <ul><li>one</li><li>two</li></ul>";
    assert_eq!(
        plain_text(html),
        "The refresh call needs the cookie set by POST /login.\n• one\n• two"
    );
}

#[test]
fn prose_that_contains_angle_brackets_is_not_eaten() {
    assert_eq!(
        plain_text("<http://Www.ftc.gov> Report fraud"),
        "<http://Www.ftc.gov> Report fraud"
    );
    assert_eq!(
        plain_text("# - CAM_<CAMERA_MAC>_NAME=fr"),
        "# - CAM_<CAMERA_MAC>_NAME=fr"
    );
    assert_eq!(plain_text("Use Vec<String> here"), "Use Vec<String> here");
    assert_eq!(plain_text("a < b and b > c"), "a < b and b > c");
}

#[test]
fn something_that_merely_starts_like_a_tag_is_still_text() {
    assert_eq!(plain_text("a <b"), "a <b");
    assert_eq!(plain_text("<pre-release plan>"), "<pre-release plan>");
}

#[test]
fn entities_decode_once_including_the_numeric_forms() {
    assert_eq!(plain_text("Tom &amp; Jerry &lt;3"), "Tom & Jerry <3");
    assert_eq!(plain_text("&amp;lt; stays escaped"), "&lt; stays escaped");
    assert_eq!(plain_text("TechHut&#x27;s homelab"), "TechHut's homelab");
    assert_eq!(plain_text("say &#34;hello&#34;"), "say \"hello\"");
    assert_eq!(plain_text("an &#8212; dash"), "an — dash");
    assert_eq!(plain_text("Q&A session"), "Q&A session");
    assert_eq!(plain_text("just a note"), "just a note");
}

#[test]
fn a_paragraph_break_does_not_depend_on_whether_the_markup_was_pretty_printed() {
    assert_eq!(plain_text("<p>a</p><p>b</p>"), "a\nb");
    assert_eq!(plain_text("<p>a</p>\n<p>b</p>"), "a\nb");
    assert_eq!(plain_text("<p>one</p><p></p><p></p><p>two</p>"), "one\ntwo");
}

#[test]
fn table_cells_are_separated_rather_than_run_together() {
    assert_eq!(
        plain_text("<table><tr><td>one</td><td>two</td></tr><tr><td>three</td></tr></table>"),
        "one two\nthree"
    );
}

#[test]
fn markup_that_is_not_prose_is_dropped_rather_than_shown() {
    assert_eq!(
        plain_text("<p>Hello</p><style>.x{color:red}</style>"),
        "Hello"
    );
    assert_eq!(plain_text("<script>alert('x')</script>after"), "after");
    assert_eq!(plain_text("<!-- a comment -->text"), "text");
}

#[test]
fn whitespace_collapses_the_way_html_says_it_does() {
    assert_eq!(plain_text("one    two\n\tthree"), "one two three");
    assert_eq!(plain_text("<p>&nbsp;leading</p>"), "leading");
}

fn here() -> (i64, i32) {
    let now = Utc.with_ymd_and_hms(2026, 8, 24, 12, 0, 0).unwrap();
    (now.timestamp(), 0)
}

fn now() -> DateTime<Utc> {
    Utc.with_ymd_and_hms(2026, 8, 24, 12, 0, 0).unwrap()
}

fn context_at(projects: &[Project], theme: Theme) -> RowContext<'_> {
    let (now, offset) = here();
    RowContext {
        projects,
        theme,
        now,
        offset,
    }
}

#[test]
fn a_rows_height_is_the_tallest_cell_capped() {
    let theme = Theme::new(ColorDepth::TrueColor);
    let columns = measure(
        &layout(vec![ColumnSpec {
            min_width: Some(10),
            max_width: Some(10),
            wrap: true,
            ..ColumnSpec::new(Column::Title)
        }]),
        10,
    );
    let task = Task {
        id: 1,
        title: "one two three four five six seven".to_string(),
        ..Task::default()
    };
    let rows = render(&[task], &columns, context_at(&[], theme));
    assert_eq!(rows[0].height, MAX_ROW_LINES);
    assert_eq!(rows[0].task, 1);
}

/// Eighteen tasks whose titles all wrap to the cap.
fn wrapping(count: i64) -> Vec<Task> {
    (1..=count)
        .map(|n| Task {
            id: n,
            title: format!("task {n} one two three four five six seven"),
            ..Task::default()
        })
        .collect()
}

fn narrow() -> Vec<MeasuredColumn> {
    measure(
        &layout(vec![ColumnSpec {
            min_width: Some(10),
            max_width: Some(10),
            wrap: true,
            ..ColumnSpec::new(Column::Title)
        }]),
        10,
    )
}

fn plain_context() -> RowContext<'static> {
    context_at(&[], Theme::new(ColorDepth::TrueColor))
}

#[test]
fn what_fits_is_counted_in_rows_not_lines() {
    // Twelve lines of room, but every row is three lines tall, so four tasks fit.
    let tasks = wrapping(18);
    let context = plain_context();
    assert_eq!(fit(&tasks, &narrow(), context, 0, 12), 4);
}

#[test]
fn a_selection_below_the_fold_pulls_the_offset_down_to_it() {
    let tasks = wrapping(18);
    let context = plain_context();
    // Four rows fit, so showing the twelfth means starting at the ninth.
    assert_eq!(first_visible(&tasks, &narrow(), context, 11, 12), 8);
    assert_eq!(first_visible(&tasks, &narrow(), context, 17, 12), 14);
}

#[test]
fn a_row_taller_than_the_body_is_still_shown() {
    let tasks = wrapping(4);
    let context = plain_context();
    assert_eq!(first_visible(&tasks, &narrow(), context, 2, 1), 2);
    assert_eq!(fit(&tasks, &narrow(), context, 2, 1), 1);
}

#[test]
fn a_date_is_read_in_the_users_own_zone() {
    // 2026-08-27T02:00Z is still the evening of the 26th in New York.
    let eastern = FixedOffset::west_opt(5 * 3600).unwrap();
    let evening = Utc.with_ymd_and_hms(2026, 8, 27, 2, 0, 0).unwrap();

    let before = eastern.with_ymd_and_hms(2026, 8, 26, 16, 0, 0).unwrap();
    assert_eq!(
        relative_date(
            Some(evening.timestamp()),
            before.timestamp(),
            before.offset().local_minus_utc()
        ),
        "Today"
    );

    let after = eastern.with_ymd_and_hms(2026, 8, 27, 1, 0, 0).unwrap();
    assert_eq!(
        relative_date(
            Some(evening.timestamp()),
            after.timestamp(),
            after.offset().local_minus_utc()
        ),
        "Yesterday"
    );
}

#[test]
fn a_date_reads_the_way_a_person_would_say_it() {
    let (at, offset) = here();
    let date = |d: DateTime<Utc>| Some(d.timestamp());
    assert_eq!(relative_date(None, at, offset), "—");
    assert_eq!(relative_date(date(now()), at, offset), "Today");
    assert_eq!(
        relative_date(date(now() + chrono::Duration::days(1)), at, offset),
        "Tomorrow"
    );
    assert_eq!(
        relative_date(date(now() + chrono::Duration::days(3)), at, offset),
        "in 3 days"
    );
    assert_eq!(
        relative_date(date(now() - chrono::Duration::days(3)), at, offset),
        "3 days ago"
    );
    assert_eq!(
        relative_date(date(now() + chrono::Duration::days(30)), at, offset),
        "Sep 23"
    );
    assert_eq!(
        relative_date(date(now() + chrono::Duration::days(400)), at, offset),
        "Sep 28, 27"
    );
}

#[test]
fn a_date_a_week_or_more_away_is_named_by_its_day() {
    let (at, offset) = here();
    let day = 86_400;
    assert_eq!(relative_date(Some(at + 6 * day), at, offset), "in 6 days");
    assert_eq!(relative_date(Some(at - 6 * day), at, offset), "6 days ago");
    assert_eq!(relative_date(Some(at - day), at, offset), "Yesterday");
    assert_eq!(relative_date(Some(at + 7 * day), at, offset), "Aug 31");
}

#[test]
fn an_explicit_newline_is_a_hard_break() {
    assert_eq!(wrap("one\ntwo", 40, 4), vec!["one", "two"]);
    assert_eq!(wrap("one\n\ntwo", 40, 4), vec!["one", "", "two"]);
}

#[test]
fn a_hard_break_still_word_wraps_each_paragraph() {
    assert_eq!(wrap("aaa bbb\nccc ddd", 7, 4), vec!["aaa bbb", "ccc ddd"]);
}

#[test]
fn the_caret_lands_on_the_row_the_newline_made() {
    let (rows, caret) = edit_layout("one\ntwo", 40, 4, 4);
    assert_eq!(rows, vec!["one", "two"]);
    assert_eq!(
        caret,
        (1, 0),
        "just after the newline is the start of row two"
    );
}

#[test]
fn the_caret_at_the_end_sits_past_the_last_character() {
    let (_, caret) = edit_layout("one\ntwo", 40, 4, 7);
    assert_eq!(caret, (1, 3));
}

#[test]
fn a_line_wider_than_the_box_continues_on_the_next_row() {
    let (rows, caret) = edit_layout("abcdef", 3, 4, 4);
    assert_eq!(rows, vec!["abc", "def"]);
    assert_eq!(caret, (1, 1));
}

#[test]
fn the_window_follows_the_caret_past_the_bottom() {
    let text = "a\nb\nc\nd\ne";
    let (rows, caret) = edit_layout(text, 40, 4, text.chars().count());
    assert_eq!(rows, vec!["b", "c", "d", "e"]);
    assert_eq!(caret, (3, 1));
}

#[test]
fn a_priority_is_named_the_way_vikunja_names_it() {
    assert_eq!(priority_name(0), "Unset");
    assert_eq!(priority_name(1), "Low");
    assert_eq!(priority_name(3), "High");
    assert_eq!(priority_name(5), "DO NOW");
    assert_eq!(priority_name(9), "Unset");
}

#[test]
fn a_wide_column_list_fills_the_width_exactly() {
    let measured = measure(
        &layout(vec![
            ColumnSpec::new(Column::Title),
            ColumnSpec::new(Column::Priority),
        ]),
        80,
    );
    let total: u16 = measured.iter().map(|c| c.width).sum::<u16>() + GAP;
    assert_eq!(total, 80);
    assert_eq!(measured[0].heading, "Title");
}

#[test]
fn no_room_wraps_to_one_empty_line() {
    assert_eq!(wrap("anything at all", 0, 3), vec![""]);
    assert_eq!(wrap("anything at all", 10, 0), vec![""]);
    assert_eq!(edit_layout("abc", 0, 4, 1), (vec![String::new()], (0, 0)));
}

#[test]
fn unknown_markup_and_entities_are_text() {
    assert_eq!(plain_text("<blink>hi</blink>"), "<blink>hi</blink>");
    assert_eq!(plain_text("&bogus; &#xD800; ok"), "&bogus; &#xD800; ok");
    assert_eq!(plain_text("<!-- never closed"), "");
    assert_eq!(plain_text("<P>Upper</P>"), "Upper");
}

fn labelled(titles: &[&str]) -> Task {
    Task {
        id: 7,
        labels: titles
            .iter()
            .map(|t| tui_do_ui::models::Label {
                id: 1,
                title: t.to_string(),
                hex_color: "e8e8e8".to_string(),
            })
            .collect(),
        ..Task::default()
    }
}

fn column(column: Column, width: u16) -> MeasuredColumn {
    MeasuredColumn {
        column,
        heading: String::new(),
        width,
        wrap: false,
    }
}

fn texts_of(lines: &[Vec<tui_do_ui::rows::Span>]) -> Vec<Vec<String>> {
    lines
        .iter()
        .map(|line| line.iter().map(|span| span.text.clone()).collect())
        .collect()
}

#[test]
fn label_chips_fill_the_cell_and_an_ellipsis_says_there_are_more() {
    let task = labelled(&["work", "home", "errands"]);
    let lines = tui_do_ui::rows::cell(&task, &column(Column::Labels, 14), plain_context());
    assert_eq!(texts_of(&lines), vec![vec![" work ", " home ", "…"]]);
    let theme = Theme::new(ColorDepth::TrueColor);
    assert_eq!(lines[0][0].style, theme.label("e8e8e8"));
    assert_eq!(lines[0][2].style, theme.muted());
}

#[test]
fn a_first_label_too_wide_is_cut_rather_than_hidden() {
    let task = labelled(&["errands"]);
    let lines = tui_do_ui::rows::cell(&task, &column(Column::Labels, 4), plain_context());
    assert_eq!(texts_of(&lines), vec![vec![" er…"]]);
}

#[test]
fn a_full_cell_with_no_room_left_adds_nothing() {
    let task = labelled(&["ab", "cd"]);
    let lines = tui_do_ui::rows::cell(&task, &column(Column::Labels, 4), plain_context());
    assert_eq!(texts_of(&lines), vec![vec![" ab "]]);
}

#[test]
fn each_column_says_its_own_thing() {
    let projects = vec![Project {
        id: 3,
        title: "Home".to_string(),
        ..Project::default()
    }];
    let theme = Theme::new(ColorDepth::TrueColor);
    let context = context_at(&projects, theme);
    let task = Task {
        id: 1,
        title: "Water the plants".to_string(),
        done: true,
        priority: 4,
        project_id: 3,
        assignees: vec!["Ann".to_string(), "Bob".to_string()],
        identifier: "#12".to_string(),
        percent_done: Some(40),
        ..Task::default()
    };
    let text = |c: Column| texts_of(&tui_do_ui::rows::cell(&task, &column(c, 30), context));
    assert_eq!(text(Column::Title), vec![vec!["Water the plants"]]);
    assert_eq!(text(Column::Project), vec![vec!["Home"]]);
    assert_eq!(text(Column::Priority), vec![vec!["P4"]]);
    assert_eq!(text(Column::Status), vec![vec!["✓"]]);
    assert_eq!(text(Column::Assignees), vec![vec!["Ann, Bob"]]);
    assert_eq!(text(Column::Identifier), vec![vec!["#12"]]);
    assert_eq!(text(Column::PercentDone), vec![vec!["40%"]]);
    assert_eq!(text(Column::DueDate), vec![vec!["—"]]);
    let title = tui_do_ui::rows::cell(&task, &column(Column::Title, 30), context);
    assert_eq!(title[0][0].style, theme.done());

    let unset = Task::default();
    let none = |c: Column| texts_of(&tui_do_ui::rows::cell(&unset, &column(c, 30), context));
    assert_eq!(none(Column::Priority), vec![vec![""]]);
    assert_eq!(none(Column::Project), vec![vec![""]]);
    assert_eq!(none(Column::PercentDone), vec![vec![""]]);
}

#[test]
fn a_rows_height_is_its_tallest_cell_between_one_and_the_cap() {
    assert_eq!(height_of(&[]), 1);
    assert_eq!(height_of(&[0]), 1);
    assert_eq!(height_of(&[2, 1]), 2);
    assert_eq!(height_of(&[5, 2]), MAX_ROW_LINES);
    let task = wrapping(1).remove(0);
    assert_eq!(
        tui_do_ui::rows::row_height(&task, &narrow(), plain_context()),
        MAX_ROW_LINES
    );
}

#[test]
fn a_layout_too_wide_for_the_numbers_is_refused_before_measuring() {
    let wide = layout(vec![
        ColumnSpec {
            min_width: Some(40000),
            ..ColumnSpec::new(Column::Title)
        },
        ColumnSpec {
            min_width: Some(40000),
            ..ColumnSpec::new(Column::Project)
        },
    ]);
    assert!(!tui_do_ui::rows::measurable(&wide, 100));
    let ordinary = layout(vec![ColumnSpec::new(Column::Title)]);
    assert!(tui_do_ui::rows::measurable(&ordinary, 100));
}

#[test]
fn dates_off_the_calendar_are_caught_before_a_cell_reads_them() {
    let mut task = Task::default();
    assert!(tui_do_ui::grid::sanely_dated(&task));
    task.due_date = Some(i64::MAX);
    assert!(!tui_do_ui::grid::sanely_dated(&task));
    let mut context = plain_context();
    assert!(tui_do_ui::grid::readable_context(context));
    context.offset = 90_000;
    assert!(!tui_do_ui::grid::readable_context(context));
}

#[test]
fn paragraphs_left_over_are_marked_on_the_last_row() {
    assert_eq!(wrap("a\nb\nc", 40, 2), vec!["a", "b …"]);
    assert_eq!(wrap("one\ntwo\nthree", 5, 2), vec!["one", "two …"]);
    assert_eq!(wrap("one\ntwo", 40, 2), vec!["one", "two"]);
}

#[test]
fn the_calendar_reaches_as_far_as_chrono_less_a_day() {
    assert!(on_the_calendar(8_210_266_790_399));
    assert!(!on_the_calendar(8_210_266_790_400));
    assert!(on_the_calendar(-8_334_601_228_800));
    assert!(!on_the_calendar(-8_334_601_228_801));
    assert!(on_the_calendar(8_100_000_000_000));
    assert!(!relative_date(Some(8_100_000_000_000), 1_787_572_800, 36_000).is_empty());
}

#[test]
fn measured_columns_keep_their_order_and_their_maximums() {
    let spec = |column: Column, max_width: Option<u16>| ColumnSpec {
        max_width,
        ..ColumnSpec::new(column)
    };
    let layout = ColumnLayout {
        name: "capped".to_string(),
        description: None,
        columns: vec![
            spec(Column::Priority, Some(3)),
            spec(Column::Title, Some(30)),
            spec(Column::DueDate, Some(12)),
            spec(Column::Project, None),
        ],
    };
    let measured = measure(&layout, 120);
    let columns: Vec<Column> = measured.iter().map(|m| m.column).collect();
    assert_eq!(columns, [Column::Priority, Column::Title, Column::DueDate, Column::Project]);
    let widths: Vec<u16> = measured.iter().map(|m| m.width).collect();
    assert!(widths[0] <= 3 && widths[1] <= 30 && widths[2] <= 12);
    assert_eq!(widths.iter().sum::<u16>() + GAP * 3, 120);
}

#[test]
fn plain_text_lines_are_never_blank_and_never_padded() {
    let text = plain_text("<p>  first   line </p>\n\n<p> </p><ul><li> second </li></ul>\n  ");
    assert!(!text.is_empty());
    for line in text.split('\n') {
        assert!(!line.is_empty());
        assert_eq!(line, line.trim());
    }
}

#[test]
fn plain_text_collapses_runs_of_whitespace_into_single_spaces() {
    let text = plain_text("<p>one\t\ttwo &nbsp; three</p><table><tr><td>a</td><td> b</td></tr></table>");
    for line in text.split('\n') {
        assert!(!line.contains("  "));
        assert!(line.chars().all(|c| !c.is_whitespace() || c == ' '));
    }
    assert!(text.starts_with("one two three"));
}
