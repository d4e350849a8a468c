use tui_do_ui::markdown::{agent_css, description_html, kept_lines, looks_like_html, Deco};
use tui_do_ui::theme::{ColorDepth, Modifier, Theme};

#[test]
fn html_from_the_web_editor_is_recognised() {
    assert!(looks_like_html("<p>Install the Wyze bridge in docker</p>"));
    assert!(looks_like_html(
        "<h1>Hermes Report</h1><p><strong>Date:</strong> 2026-07-03</p>"
    ));
    assert!(looks_like_html("<ul><li>one</li><li>two</li></ul>"));
    assert!(looks_like_html(
        "<pre><code>1. Enable RTSP streams</code></pre>"
    ));
    assert!(looks_like_html(
        "<p><a target=\"_blank\" rel=\"noopener\" href=\"http://x\">POST /login</a></p>"
    ));
}

#[test]
fn prose_that_contains_angle_brackets_is_not_html() {
    assert!(!looks_like_html("Use Vec<String> here"));
    assert!(!looks_like_html("# - CAM_<CAMERA_MAC>_NAME=fr"));
    assert!(!looks_like_html("a < b and b > c"));
    assert!(!looks_like_html("a <b"));
    assert!(!looks_like_html("<pre-release plan>"));
    assert!(!looks_like_html("<http://Www.ftc.gov> Report fraud"));
}

#[test]
fn plain_text_and_markdown_are_not_html() {
    assert!(!looks_like_html(""));
    assert!(!looks_like_html("Call the VA about the case number"));
    assert!(!looks_like_html(
        "# Plan: Migrate Forgejo\n\n## Overview\n\n- one\n- two"
    ));
    assert!(!looks_like_html("| a | b |\n|---|---|\n| 1 | 2 |"));
}

fn deco() -> Deco {
    Deco {
        theme: Theme::new(ColorDepth::TrueColor),
    }
}

#[test]
fn the_decorator_answers_in_the_projects_own_theme() {
    let theme = Theme::new(ColorDepth::TrueColor);
    let d = deco();
    assert_eq!(d.strong_style(), theme.text().add_modifier(Modifier::Bold));
    assert_eq!(d.em_style(), theme.text().add_modifier(Modifier::Italic));
    assert_eq!(d.code_style(), theme.accent());
    assert_eq!(
        d.link_style(),
        theme.accent().add_modifier(Modifier::Underlined)
    );
    assert_eq!(d.preformat_style(), theme.muted());
}

#[test]
fn list_and_quote_prefixes_are_the_ones_the_preview_pane_already_uses() {
    let d = deco();
    assert_eq!(d.unordered_item_prefix(), "• ");
    assert_eq!(d.ordered_item_prefix(3), "3. ");
    assert_eq!(d.quote_prefix(), "│ ");
}

#[test]
fn a_heading_prefix_has_a_hash_per_level() {
    assert_eq!(deco().header_prefix(2), "## ");
    assert_eq!(deco().image("diagram"), ("[diagram]".to_string(), deco().theme.muted()));
}

#[test]
fn an_empty_description_renders_nothing() {
    assert_eq!(description_html(""), None);
    assert_eq!(description_html("   \n  \n"), None);
}

#[test]
fn web_editor_html_is_kept_and_markdown_is_converted() {
    assert_eq!(
        description_html("<p>already html</p>").as_deref(),
        Some("<p>already html</p>")
    );
    let html = description_html("a *b*").unwrap();
    assert!(html.contains("<em>b</em>"), "{html}");
    let escaped = description_html("Use Vec<String> here").unwrap();
    assert!(escaped.contains("&lt;String&gt;"), "{escaped}");
}

#[test]
fn headings_take_the_accent_and_quotes_the_muted_colour() {
    assert_eq!(
        agent_css(Theme::new(ColorDepth::TrueColor)),
        "h1,h2,h3,h4,h5,h6 { color: #1973ff; }\nblockquote { color: #7a808c; }\n"
    );
    assert_eq!(agent_css(Theme::new(ColorDepth::Ansi16)), "");
}

#[test]
fn trailing_blank_lines_are_not_content() {
    let lines = vec!["one".to_string(), " ".to_string(), String::new()];
    assert_eq!(kept_lines(&lines), 1);
    assert_eq!(kept_lines(&vec![" ".to_string()]), 0);
}
