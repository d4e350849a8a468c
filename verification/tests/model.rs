use tui_do_ui::dates::past_due_note;
use tui_do_ui::model::{landing_scope, tick_toast, Level, PaneState, Scope, Toast, SIDEBAR_AUTO_MIN};
use tui_do_ui::columns::{Column, ColumnLayout, ColumnSpec};
use tui_do_ui::keymap::Context;
use tui_do_ui::model::{Focus, Model};
use tui_do_ui::models::{Project, Task};
use tui_do_ui::sidebar::SidebarTarget;

fn project(id: i64, title: &str) -> Project {
    Project {
        id,
        title: title.to_string(),
        ..Project::default()
    }
}

#[test]
fn an_auto_pane_follows_the_width_and_a_pinned_one_is_never_second_guessed() {
    let auto = PaneState::Auto;
    assert!(auto.wanted(120, SIDEBAR_AUTO_MIN));
    assert!(!auto.wanted(80, SIDEBAR_AUTO_MIN));

    let pinned = PaneState::Shown;
    assert!(pinned.wanted(80, SIDEBAR_AUTO_MIN));
    assert!(pinned.wanted(40, SIDEBAR_AUTO_MIN));

    assert!(!PaneState::Hidden.wanted(200, SIDEBAR_AUTO_MIN));
}

#[test]
fn toggling_pins_the_opposite_of_what_is_showing() {
    assert_eq!(PaneState::Auto.toggled(true), PaneState::Hidden);
    assert_eq!(PaneState::Auto.toggled(false), PaneState::Shown);
    assert_eq!(PaneState::Hidden.toggled(false), PaneState::Shown);
}

#[test]
fn a_toast_lasts_five_ticks_and_then_goes() {
    let mut toast = Some(Toast::warning("Deleted".to_string()));
    for _ in 0..4 {
        tick_toast(&mut toast);
        assert!(toast.is_some());
    }
    assert_eq!(toast.as_ref().map(|t| t.ticks), Some(1));
    assert_eq!(toast.as_ref().map(|t| t.level), Some(Level::Warning));
    tick_toast(&mut toast);
    assert!(toast.is_none());
}

#[test]
fn the_configured_project_wins_the_landing_and_a_stale_name_falls_back() {
    let projects = vec![project(1, "Work"), project(2, "Personal")];
    assert_eq!(
        landing_scope(Some("personal"), Some(1), &projects),
        Scope::Project(2)
    );
    assert_eq!(landing_scope(Some("Deleted"), Some(1), &projects), Scope::Project(1));
    assert_eq!(landing_scope(Some("Deleted"), None, &projects), Scope::All);
}

#[test]
fn a_remembered_project_that_no_longer_exists_lands_on_everything() {
    let projects = vec![project(1, "Work")];
    assert_eq!(landing_scope(None, Some(99), &projects), Scope::All);
}

#[test]
fn a_configured_id_and_an_archived_project_can_both_be_landed_on() {
    let mut archived = project(3, "Old");
    archived.is_archived = true;
    let projects = vec![project(1, "Work"), archived, project(-1, "Favorites")];
    assert_eq!(landing_scope(Some(" #3 "), None, &projects), Scope::Project(3));
    assert_eq!(landing_scope(Some("old"), None, &projects), Scope::Project(3));
    assert_eq!(landing_scope(Some("favorites"), None, &projects), Scope::All);
    assert_eq!(landing_scope(Some("#-1"), Some(-1), &projects), Scope::Project(-1));
}

#[test]
fn a_past_due_date_is_said_and_a_future_one_is_not() {
    let now = 1_787_572_800; // 2026-08-24T12:00:00Z
    let day = 86_400;
    assert_eq!(
        past_due_note(Some(now - 3 * day), now, 0).as_deref(),
        Some("that date has passed (due 3 days ago)")
    );
    assert_eq!(past_due_note(Some(now + day), now, 0), None);
    assert_eq!(past_due_note(Some(now), now, 0), None);
    assert_eq!(past_due_note(None, now, 0), None);
}

fn named_layout(name: &str) -> ColumnLayout {
    ColumnLayout {
        name: name.to_string(),
        description: None,
        columns: vec![ColumnSpec::new(Column::Title)],
    }
}

fn model() -> Model {
    Model::new(
        vec![named_layout("default"), named_layout("compact")],
        Some("compact"),
        Scope::Project(2),
        1_787_572_800,
        (120, 40),
        None,
    )
}

#[test]
fn the_active_layout_comes_from_the_config_by_name() {
    let model = model();
    assert_eq!(model.layout().map(|layout| layout.name.as_str()), Some("compact"));
    assert_eq!(model.sidebar.selected, SidebarTarget::Project(2));
    assert!(model.data.loading);
    assert!(model.running);

    let unknown = Model::new(vec![named_layout("default")], Some("wide"), Scope::All, 0, (80, 24), None);
    assert_eq!(unknown.layout_ix, 0);
    assert_eq!(unknown.sidebar.selected, SidebarTarget::AllTasks);
}

#[test]
fn the_selection_is_found_by_id_and_lost_when_its_task_goes() {
    let mut model = model();
    model.data.tasks = vec![
        Task { id: 5, title: "five".to_string(), ..Task::default() },
        Task { id: 9, title: "nine".to_string(), ..Task::default() },
    ];
    assert!(model.selected_task().is_none());
    model.list.selected = Some(9);
    assert_eq!(model.selected_index(), Some(1));
    assert_eq!(model.selected_task().map(|t| t.title.as_str()), Some("nine"));
    model.list.selected = Some(7);
    assert_eq!(model.selected_index(), None);
    assert!(!model.preview_wanted());
}

#[test]
fn the_preview_is_wanted_only_with_something_to_show() {
    let mut model = model();
    model.size = (200, 40);
    assert!(!model.preview_wanted());
    model.data.tasks = vec![Task { id: 1, ..Task::default() }];
    model.list.selected = Some(1);
    assert!(model.preview_wanted());
}

#[test]
fn a_project_is_looked_up_and_the_focus_names_the_context() {
    let mut model = model();
    model.data.projects = vec![project(3, "Home")];
    assert_eq!(model.project(3).map(|p| p.title.as_str()), Some("Home"));
    assert!(model.project(4).is_none());
    assert_eq!(model.context(), Context::List);
    model.focus = Focus::Sidebar;
    assert_eq!(model.context(), Context::Sidebar);
    model.toast(Toast::info("Saved".to_string()));
    assert_eq!(model.status.toast.as_ref().map(|t| t.text.as_str()), Some("Saved"));
}
