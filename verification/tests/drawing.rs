use tui_do_ui::drawing::{
    ago, centered, fit, help_column_width, help_columns, help_layout, help_split, interleave,
    interleave_all, line_width, pad, row_lines, scrolled_to, Rect,
};
use tui_do_ui::keymap::{help_rows, Context, HelpRow};
use tui_do_ui::rows::{MeasuredColumn, RenderedRow, Span};
use tui_do_ui::columns::Column;
use tui_do_ui::theme::{ColorDepth, Style, Theme};

fn span(text: &str) -> Span {
    Span {
        text: text.to_string(),
        style: Style::new(),
    }
}

fn texts(spans: &[Span]) -> Vec<String> {
    spans.iter().map(|s| s.text.clone()).collect()
}

#[test]
fn how_long_ago_reads_in_minutes_then_hours() {
    assert_eq!(ago(-5), "just now");
    assert_eq!(ago(0), "just now");
    assert_eq!(ago(45), "just now");
    assert_eq!(ago(46), "1m ago");
    assert_eq!(ago(5400), "90m ago");
    assert_eq!(ago(5401), "2h ago");
    assert_eq!(ago(7200), "2h ago");
}

#[test]
fn a_long_list_scrolls_to_keep_the_highlight_inside_the_edge() {
    assert_eq!(scrolled_to(0, 5, 10), 0);
    assert_eq!(scrolled_to(5, 20, 0), 0);
    assert_eq!(scrolled_to(3, 20, 5), 0);
    assert_eq!(scrolled_to(10, 20, 5), 6);
    assert_eq!(scrolled_to(19, 20, 5), 15);
}

#[test]
fn a_box_is_centred_and_never_larger_than_the_screen() {
    let screen = Rect { x: 0, y: 0, width: 80, height: 24 };
    assert_eq!(centered(screen, 40, 10), Rect { x: 20, y: 7, width: 40, height: 10 });
    let small = Rect { x: 5, y: 5, width: 10, height: 10 };
    assert_eq!(centered(small, 40, 4), Rect { x: 5, y: 8, width: 10, height: 4 });
}

#[test]
fn padding_brings_text_to_the_width_and_never_cuts_it() {
    assert_eq!(pad("ab", 5), "ab   ");
    assert_eq!(pad("abcdef", 3), "abcdef");
    assert_eq!(pad("日本", 5), "日本 ");
}

#[test]
fn a_line_is_measured_in_cells_and_cut_inside_the_span_that_overflows() {
    assert_eq!(line_width(&[span("ab"), span("日本")]), 6);
    let spans = vec![span("hello"), span(" world")];
    assert_eq!(texts(&fit(&spans, 20)), ["hello", " world"]);
    assert_eq!(texts(&fit(&spans, 8)), ["hello", " w…"]);
    assert_eq!(texts(&fit(&spans, 5)), ["hello"]);
}

#[test]
fn cells_are_joined_with_a_gap() {
    let joined = interleave_all(&vec![vec![span("a")], vec![span("b"), span("c")]]);
    assert_eq!(texts(&joined), ["a", " ", "b", "c"]);
    assert_eq!(texts(&interleave(&vec![span("a"), span("b")])), ["a", " ", "b"]);
    assert!(interleave(&Vec::new()).is_empty());
}

#[test]
fn a_row_draws_each_cell_padded_to_its_column() {
    let row = RenderedRow {
        task: 1,
        cells: vec![
            vec![vec![span("ab")]],
            vec![vec![span("x")], vec![span("y")]],
        ],
        height: 2,
    };
    let column = |width| MeasuredColumn {
        column: Column::Title,
        heading: String::new(),
        width,
        wrap: false,
    };
    let lines = row_lines(&row, &[column(4), column(3)]);
    assert_eq!(texts(&lines[0]), ["ab", "  ", " ", "x", "  "]);
    assert_eq!(texts(&lines[1]), ["    ", " ", "y", "  "]);
}

#[test]
fn the_key_reference_folds_at_a_heading_only_when_it_must_and_can() {
    let rows = help_rows(Context::List);
    let split = help_split(&rows);
    assert!(split < rows.len());
    assert!(matches!(rows[split], HelpRow::Heading(_)));
    let (left, right) = help_columns(&rows, split);
    assert_eq!(left.len() + right.len() + 1, rows.len());
    assert!(!matches!(left.last(), Some(HelpRow::Blank)));

    let column = help_column_width(&rows);
    assert!(column > 0);
    let tall = Rect { x: 0, y: 0, width: 200, height: 200 };
    assert_eq!(help_layout(&rows, tall).split, None);
    let short_and_wide = Rect { x: 0, y: 0, width: 200, height: 20 };
    assert_eq!(help_layout(&rows, short_and_wide).split, Some(split));
    let short_and_narrow = Rect { x: 0, y: 0, width: 60, height: 20 };
    assert_eq!(help_layout(&rows, short_and_narrow).split, None);
    let _ = Theme::new(ColorDepth::TrueColor);
}
