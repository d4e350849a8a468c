use tui_do_ui::models::Task;
use tui_do_ui::urls::{extract, Source};

fn task(title: &str, description: &str) -> Task {
    Task {
        title: title.to_string(),
        description: description.to_string(),
        ..Task::default()
    }
}

fn urls(title: &str, description: &str) -> Vec<String> {
    extract(&task(title, description))
        .into_iter()
        .map(|link| link.url)
        .collect()
}

#[test]
fn a_task_with_no_link_yields_none() {
    assert!(urls("Call the VA", "about the case number").is_empty());
    assert!(urls("", "").is_empty());
}

#[test]
fn a_bare_url_in_the_title_is_found() {
    assert_eq!(
        urls(
            "https://www.youtube.com/watch?v=aN3X5h9Vfx0&feature=share",
            ""
        ),
        vec!["https://www.youtube.com/watch?v=aN3X5h9Vfx0&feature=share"]
    );
    assert_eq!(
        urls("Synology - http://QuickConnect.to/swaskonas", ""),
        vec!["http://QuickConnect.to/swaskonas"]
    );
}

#[test]
fn a_markdown_link_yields_its_target_and_keeps_its_text() {
    let links = extract(&task(
        "",
        "Original Video: [10 Github Repos That Will Kill Your Monthly Subscriptions]\
         (https://youtu.be/jMAe1h39rHo)",
    ));
    assert_eq!(links.len(), 1);
    assert_eq!(links[0].url, "https://youtu.be/jMAe1h39rHo");
    assert_eq!(
        links[0].label.as_deref(),
        Some("10 Github Repos That Will Kill Your Monthly Subscriptions")
    );
}

#[test]
fn an_html_anchor_yields_its_href_once_not_twice() {
    let html = "<p><a target=\"_blank\" rel=\"noopener noreferrer nofollow\" \
                href=\"https://github.com/nikitabobko/AeroSpace\">\
                https://github.com/nikitabobko/AeroSpace</a> </p>";
    assert_eq!(
        urls("", html),
        vec!["https://github.com/nikitabobko/AeroSpace"]
    );
}

#[test]
fn an_html_href_has_its_entities_decoded() {
    assert_eq!(
        urls(
            "",
            "<a href=\"https://x.test/a?b=1&amp;c=2&amp;d=3\">go</a>"
        ),
        vec!["https://x.test/a?b=1&c=2&d=3"]
    );
}

#[test]
fn sentence_punctuation_is_not_part_of_the_address() {
    assert_eq!(
        urls("", "See https://example.com/a."),
        vec!["https://example.com/a"]
    );
    assert_eq!(
        urls("", "Try https://example.com/a, then stop"),
        vec!["https://example.com/a"]
    );
    assert_eq!(
        urls("", "(see https://example.com/a)"),
        vec!["https://example.com/a"]
    );
}

#[test]
fn a_paren_the_url_opened_is_kept() {
    assert_eq!(
        urls(
            "",
            "https://en.wikipedia.org/wiki/Rust_(programming_language)"
        ),
        vec!["https://en.wikipedia.org/wiki/Rust_(programming_language)"]
    );
}

#[test]
fn a_long_query_string_survives_intact() {
    let url = "https://www.amazon.com/dp/B0B7S3JSG7/ref=sr_1_1?crid=BPG9MCNTE1BC\
               &dib=eyJ2IjoiMSJ9.2iYe9TPokHq1xsgdw3FID5oCqJBaVdWbcNIuCGgwBBzB3d0O6\
               &sr=8-1&th=1";
    assert_eq!(urls("", url), vec![url]);
}

#[test]
fn several_links_come_back_in_order_title_first() {
    let found = urls(
        "https://one.test",
        "then https://two.test and https://three.test",
    );
    assert_eq!(
        found,
        vec!["https://one.test", "https://two.test", "https://three.test"]
    );
}

#[test]
fn the_same_address_twice_is_offered_once() {
    assert_eq!(
        urls("https://one.test", "again: https://one.test"),
        vec!["https://one.test"]
    );
}

#[test]
fn where_a_link_came_from_is_recorded() {
    let links = extract(&task("https://one.test", "https://two.test"));
    assert_eq!(links[0].source, Source::Title);
    assert_eq!(links[1].source, Source::Description);
    assert_eq!(Source::Title.hint(), "title");
}

#[test]
fn a_scheme_with_nothing_after_it_is_not_a_link() {
    assert!(urls("", "https:// and that is all").is_empty());
}

#[test]
fn multibyte_text_around_a_link_does_not_panic() {
    assert_eq!(
        urls("", "日本語 https://example.com/x — 📌 done"),
        vec!["https://example.com/x"]
    );
    assert_eq!(
        urls("", "🔗https://example.com/y"),
        vec!["https://example.com/y"]
    );
}

#[test]
fn a_link_inside_a_markdown_autolink_loses_its_brackets() {
    assert_eq!(
        urls("", "<https://example.com/z>"),
        vec!["https://example.com/z"]
    );
}

#[test]
fn a_markdown_link_whose_text_is_its_address_carries_no_label() {
    let links = extract(&task("", "[https://a.test](https://a.test)"));
    assert_eq!(links.len(), 1);
    assert_eq!(links[0].label, None);
}

#[test]
fn a_full_stop_before_an_unmatched_bracket_is_prose_too() {
    assert_eq!(urls("", "(see https://example.com/a.)"), vec!["https://example.com/a"]);
    assert_eq!(urls("", "(see https://example.com/a)."), vec!["https://example.com/a"]);
}

#[test]
fn a_url_named_in_both_fields_is_found_once_from_the_title_and_title_links_come_first() {
    let links = extract(&task(
        "Read https://b.example/x",
        "See https://a.example/y and https://b.example/x again, or ftp://c.example",
    ));
    let found: Vec<(&str, Source)> = links.iter().map(|l| (l.url.as_str(), l.source)).collect();
    assert_eq!(
        found,
        [("https://b.example/x", Source::Title), ("https://a.example/y", Source::Description)]
    );
    assert!(links.iter().all(|l| l.url.starts_with("https://") || l.url.starts_with("http://")));
}

#[test]
fn a_url_stops_at_whitespace() {
    let links = extract(&task("", "go to https://example.com/a\tand https://example.org/b\u{a0}now"));
    let found: Vec<&str> = links.iter().map(|l| l.url.as_str()).collect();
    assert_eq!(found, ["https://example.com/a", "https://example.org/b"]);
    assert!(links.iter().all(|l| !l.url.chars().any(char::is_whitespace)));
}
