use tui_do_ui::models::{Label, Project};
use tui_do_ui::resolve::{label_names, plural, resolve_labels, resolve_project, truncated};

fn a_project(id: i64, title: &str) -> Project {
    Project {
        id,
        title: title.to_string(),
        ..Project::default()
    }
}

fn a_label(id: i64, title: &str) -> Label {
    Label {
        id,
        title: title.to_string(),
        hex_color: String::new(),
    }
}

#[test]
fn a_labels_field_is_split_on_commas_trimmed_and_blanks_dropped() {
    assert_eq!(label_names(" work , Errands,,  "), ["work", "Errands"]);
    assert!(label_names("").is_empty());
    assert_eq!(label_names("one"), ["one"]);
}

#[test]
fn one_takes_no_ending_and_every_other_count_an_s() {
    assert_eq!(plural(1), "");
    assert_eq!(plural(0), "s");
    assert_eq!(plural(2), "s");
}

#[test]
fn a_long_title_is_cut_for_a_message() {
    let long = "a".repeat(60);
    let cut = truncated(&long);
    assert!(cut.chars().count() <= 40);
    assert_eq!(truncated("short"), "short");
}

#[test]
fn a_project_is_found_by_id_then_by_title() {
    let mut archived = a_project(3, "Old");
    archived.is_archived = true;
    let projects = vec![
        a_project(-1, "Favorites"),
        a_project(12, "Work"),
        a_project(7, "#12"),
        archived,
    ];
    assert_eq!(resolve_project(&projects, "#12"), Some(12));
    assert_eq!(resolve_project(&projects, "  work "), Some(12));
    // An id that names nothing falls through to the title match.
    assert_eq!(resolve_project(&projects, "#99"), None);
    assert_eq!(resolve_project(&projects, "Old"), None);
    assert_eq!(resolve_project(&projects, "#3"), None);
    assert_eq!(resolve_project(&projects, "favorites"), None);
    assert_eq!(resolve_project(&projects, "#-1"), None);
}

#[test]
fn a_project_called_like_a_missing_id_is_still_reachable() {
    let projects = vec![a_project(7, "#12")];
    assert_eq!(resolve_project(&projects, "#12"), Some(7));
}

#[test]
fn labels_are_matched_ignoring_case_and_a_repeated_unknown_name_is_missing_once() {
    let known = vec![a_label(1, "Waiting"), a_label(2, "home")];
    let wanted = vec![
        " waiting ".to_string(),
        "Typo".to_string(),
        "HOME".to_string(),
        "typo".to_string(),
    ];
    let (found, missing) = resolve_labels(&known, &wanted);
    assert_eq!(found, [a_label(1, "Waiting"), a_label(2, "home")]);
    assert_eq!(missing, ["Typo"]);
}
