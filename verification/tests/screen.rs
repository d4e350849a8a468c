use tui_do_ui::columns::{Column, ColumnLayout, ColumnSpec};
use tui_do_ui::label_forms::LabelsState;
use tui_do_ui::modal::TextInput;
use tui_do_ui::model::{Model, Scope, SyncStatus, Toast};
use tui_do_ui::models::{Label, Project, Task};
use tui_do_ui::rows::Span;
use tui_do_ui::screen::{
    breadcrumb, can_preview, empty_message, field, header, input_line, labels_offer, preview,
    rule, sidebar_line, status, sync_indicator, value_style,
};
use tui_do_ui::sidebar::{SidebarRow, SidebarTarget};
use tui_do_ui::theme::{ColorDepth, Modifier, Theme};

const NOW: i64 = 1_787_572_800;

fn model(scope: Scope) -> Model {
    let layout = ColumnLayout {
        name: "default".to_string(),
        description: None,
        columns: vec![ColumnSpec::new(Column::Title)],
    };
    Model::new(vec![layout], None, scope, NOW, (80, 24), None)
}

fn texts(spans: &[Span]) -> Vec<String> {
    spans.iter().map(|s| s.text.clone()).collect()
}

#[test]
fn the_breadcrumb_names_what_the_list_shows() {
    let mut m = model(Scope::All);
    assert_eq!(breadcrumb(&m), "All tasks");
    m.query.scope = Scope::Favorites;
    assert_eq!(breadcrumb(&m), "Favorites");
    m.data.projects = vec![Project {
        id: 3,
        title: "Home".to_string(),
        ..Project::default()
    }];
    m.data.labels = vec![Label {
        id: 2,
        title: "urgent".to_string(),
        hex_color: String::new(),
    }];
    m.query.scope = Scope::Project(3);
    assert_eq!(breadcrumb(&m), "Home");
    m.query.scope = Scope::Project(9);
    assert_eq!(breadcrumb(&m), "Project 9");
    m.query.scope = Scope::Label(2);
    assert_eq!(breadcrumb(&m), "#urgent");
    m.query.scope = Scope::Label(5);
    assert_eq!(breadcrumb(&m), "Label 5");
}

#[test]
fn the_sync_state_says_what_sync_is_doing() {
    let mut m = model(Scope::All);
    assert_eq!(texts(&sync_indicator(&m)), ["⟳ not synced yet "]);
    m.status.last_sync = Some(NOW - 120);
    assert_eq!(texts(&sync_indicator(&m)), ["⟳ synced 2m ago "]);
    m.status.sync = SyncStatus::Working {
        detail: "pushing".to_string(),
    };
    assert_eq!(texts(&sync_indicator(&m)), ["⟳ pushing "]);
    m.status.sync = SyncStatus::Failed {
        message: "connection refused".to_string(),
    };
    let failed = sync_indicator(&m);
    assert_eq!(texts(&failed), ["⚠ offline — connection refused "]);
    assert_eq!(failed[0].style, m.theme.error());
}

#[test]
fn an_empty_list_says_which_kind_of_empty_it_is() {
    let mut m = model(Scope::All);
    assert_eq!(empty_message(&m).as_deref(), Some("Loading…"));
    m.data.loading = false;
    assert_eq!(
        empty_message(&m).as_deref(),
        Some("No open tasks here. Press t to include completed ones.")
    );
    m.query.include_done = true;
    assert_eq!(empty_message(&m).as_deref(), Some("No tasks here."));
    m.query.search = Some("milk".to_string());
    assert_eq!(empty_message(&m).as_deref(), Some("Nothing matches that search."));
    m.data.tasks = vec![Task::default()];
    assert_eq!(empty_message(&m), None);
    m.data.error = Some("disk full".to_string());
    assert_eq!(
        empty_message(&m).as_deref(),
        Some("Could not read the local store: disk full")
    );
}

#[test]
fn the_small_pieces_of_a_form() {
    let theme = Theme::new(ColorDepth::TrueColor);
    let line = field("Due", "Today", theme);
    assert_eq!(texts(&line), ["Due       ", "Today"]);
    assert_eq!(line[0].style, theme.muted());
    assert_eq!(texts(&field("A very long name", "x", theme)), ["A very long name", "x"]);
    assert_eq!(value_style(theme, true), theme.text().add_modifier(Modifier::Underlined));
    assert_eq!(value_style(theme, false), theme.text());
    let prompt = input_line(&TextInput::new("buy milk"), theme);
    assert_eq!(texts(&prompt), ["> ", "buy milk"]);
    assert_eq!(prompt[0].style, theme.accent());
    assert_eq!(texts(&rule(3, theme)), ["───"]);
}

#[test]
fn a_sidebar_line_is_indented_marked_cut_and_counted() {
    let mut m = model(Scope::All);
    let row = SidebarRow::Target {
        target: SidebarTarget::Project(2),
        title: "Errands".to_string(),
        open: 3,
        depth: 1,
        has_children: true,
        collapsed: true,
    };
    let (spans, whole) = sidebar_line(&row, &m, true, 20);
    assert_eq!(texts(&spans), ["  ▸ Errands", "      ", " 3 "]);
    assert_eq!(whole, None);
    assert_eq!(spans[2].style, m.theme.muted());

    m.sidebar.selected = SidebarTarget::Project(2);
    let (narrow, whole) = sidebar_line(&row, &m, true, 10);
    assert_eq!(texts(&narrow), ["  ▸ Er…", "", " 3 "]);
    assert_eq!(whole, Some(m.theme.selected(true)));

    let heading = SidebarRow::Heading("Projects");
    let (spans, whole) = sidebar_line(&heading, &m, false, 20);
    assert_eq!(texts(&spans), ["Projects"]);
    assert_eq!(spans[0].style, m.theme.heading());
    assert_eq!(whole, None);
}

#[test]
fn the_label_form_offers_to_edit_what_is_highlighted() {
    let theme = Theme::new(ColorDepth::TrueColor);
    let work = Label {
        id: 1,
        title: "work".to_string(),
        hex_color: String::new(),
    };
    let state = LabelsState::new(vec![work], Vec::new());
    let offer = labels_offer(&state, theme, 40).expect("an offer");
    assert_eq!(texts(&offer), [" C-e ", "edits \"work\""]);
    let none = LabelsState::new(Vec::new(), Vec::new());
    assert!(labels_offer(&none, theme, 40).is_none());
}

#[test]
fn the_status_line_counts_and_hints_and_a_toast_takes_all_of_it() {
    let mut m = model(Scope::All);
    m.data.tasks = vec![Task::default(), Task::default()];
    m.status.queued = 3;
    m.status.failing = 1;
    let line = status(&m, 80);
    let t = texts(&line);
    assert_eq!(&t[..3], ["2 tasks", " · 3 queued", " (1 failing)"]);
    assert_eq!(t.last().map(String::as_str), Some("?:help  /:search  g:go  q:quit"));
    let total: usize = t.iter().map(|s| s.chars().count()).sum();
    assert_eq!(total, 80);

    m.query.search = Some("milk".to_string());
    let filtered = texts(&status(&m, 80));
    assert!(filtered.contains(&" · filtered".to_string()));
    assert_eq!(filtered.last().map(String::as_str), Some("Esc:clear filter  ?:help  q:quit"));

    m.toast(Toast::info("Saved".to_string()));
    assert_eq!(texts(&status(&m, 80)), ["Saved"]);
}

#[test]
fn a_narrow_header_keeps_the_breadcrumb_and_the_sync_state() {
    let m = model(Scope::All);
    let wide = texts(&header(&m, 80));
    assert_eq!(
        wide,
        [
            "tui-do",
            "  ",
            "All tasks",
            " › ",
            "List",
            "  Table  Kanban",
            &" ".repeat(24),
            "⟳ not synced yet "
        ]
    );
    let narrow = texts(&header(&m, 30));
    assert_eq!(narrow, ["All tasks", "    ", "⟳ not synced yet "]);
}

fn preview_model() -> Model {
    let mut m = model(Scope::All);
    m.data.projects = vec![Project {
        id: 3,
        title: "Home".to_string(),
        ..Project::default()
    }];
    m.data.tasks = vec![Task {
        id: 1,
        title: "Buy milk".to_string(),
        description: "Pick up on the way home".to_string(),
        priority: 2,
        project_id: 3,
        labels: vec![Label {
            id: 2,
            title: "urgent".to_string(),
            hex_color: String::new(),
        }],
        due_date: Some(NOW),
        assignees: vec!["Ann".to_string(), "Bo".to_string()],
        identifier: "#1".to_string(),
        ..Task::default()
    }];
    m.list.selected = Some(1);
    m
}

fn line_texts(lines: &[Vec<Span>]) -> Vec<String> {
    lines.iter().map(|l| texts(l).concat()).collect()
}

#[test]
fn the_preview_shows_the_selected_task_in_full() {
    let m = preview_model();
    assert!(can_preview(&m, 0));
    let lines = preview(&m, 11, 20, 0);
    assert_eq!(
        line_texts(&lines),
        [
            " Buy milk",
            " ──────────",
            " Project  Home",
            " ID       #1",
            " Due      Today",
            " Priority P2",
            " Labels    urgent ",
            " AssigneesAnn, Bo",
            "",
            " Pick up on",
            " the way",
            " home",
        ]
    );
    assert_eq!(lines[0][0].style, m.theme.text().add_modifier(Modifier::Bold));
    assert_eq!(lines[6][1].style, m.theme.label(""));
}

#[test]
fn the_preview_scrolls_and_is_empty_without_a_selection() {
    let mut m = preview_model();
    m.list.preview_scroll = 2;
    let lines = preview(&m, 11, 20, 0);
    assert_eq!(line_texts(&lines)[0], " Project  Home");
    assert_eq!(lines.len(), 10);
    m.list.selected = None;
    assert!(preview(&m, 11, 20, 0).is_empty());
    m.now = i64::MAX;
    assert!(!can_preview(&m, 0));
}

fn listed_model() -> Model {
    let mut m = model(Scope::All);
    m.data.tasks = ["One", "Two", "Three"]
        .iter()
        .enumerate()
        .map(|(i, title)| Task {
            id: i as i64 + 1,
            title: title.to_string(),
            ..Task::default()
        })
        .collect();
    m.list.selected = Some(2);
    m.list.offset = 1;
    m
}

#[test]
fn the_list_body_shows_the_rows_from_the_offset_and_marks_the_selection() {
    let m = listed_model();
    let layout = m.layout().unwrap().clone();
    let columns = tui_do_ui::rows::measure(&layout, 10);
    let context = tui_do_ui::rows::RowContext {
        projects: &m.data.projects,
        theme: m.theme,
        now: NOW,
        offset: 0,
    };
    let lines = tui_do_ui::listing::list_lines(&m, &columns, context, 5);
    let shown: Vec<String> = lines
        .iter()
        .map(|l| texts(&l.spans).concat().trim_end().to_string())
        .collect();
    assert_eq!(shown, ["Two", "Three"]);
    assert_eq!(lines[0].style, Some(m.theme.selected(true)));
    assert_eq!(lines[1].style, None);
    let one = tui_do_ui::listing::list_lines(&m, &columns, context, 1);
    assert_eq!(one.len(), 1);
    assert!(tui_do_ui::listing::list_lines(&m, &columns, context, 0).is_empty());
}

#[test]
fn an_empty_list_body_is_its_message() {
    let m = model(Scope::All);
    let layout = m.layout().unwrap().clone();
    let columns = tui_do_ui::rows::measure(&layout, 10);
    let context = tui_do_ui::rows::RowContext {
        projects: &m.data.projects,
        theme: m.theme,
        now: NOW,
        offset: 0,
    };
    let lines = tui_do_ui::listing::list_lines(&m, &columns, context, 4);
    assert_eq!(lines.len(), 1);
    assert_eq!(texts(&lines[0].spans), ["Loading…"]);
    let mut loaded = model(Scope::All);
    loaded.data.loading = false;
    let projects = loaded.data.projects.clone();
    let context = tui_do_ui::rows::RowContext {
        projects: &projects,
        theme: loaded.theme,
        now: NOW,
        offset: 0,
    };
    let lines = tui_do_ui::listing::list_lines(&loaded, &columns, context, 4);
    assert_eq!(
        texts(&lines[0].spans),
        ["No open tasks here. Press t to include completed ones."]
    );
    assert_eq!(lines[0].spans[0].style, m.theme.muted());
    assert_eq!(lines[0].style, None);
}
