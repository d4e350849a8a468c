use tui_do_ui::actions::{act, can_act, on_submit, page};
use tui_do_ui::columns::{Column, ColumnLayout, ColumnSpec};
use tui_do_ui::drawing::Rect;
use tui_do_ui::keymap::Action;
use tui_do_ui::modal::{Modal, Pick, Submission};
use tui_do_ui::model::{Focus, Level, Model, Scope};
use tui_do_ui::models::{Label, Project, Task};
use tui_do_ui::mutation::Mutation;
use tui_do_ui::update::{Effect, Frames, Geometry};

const NOW: i64 = 1_787_572_800;

fn rect(x: u16, width: u16, height: u16) -> Rect {
    Rect { x, y: 2, width, height }
}

/// A 120 by 20 terminal: a 28-column sidebar when wanted, a third for the preview.
fn geometry() -> Geometry {
    let frames = |sidebar: bool, preview: bool| Frames {
        sidebar: sidebar.then(|| rect(0, 28, 17)),
        list: rect(if sidebar { 28 } else { 0 }, 120 - if sidebar { 28 } else { 0 } - if preview { 40 } else { 0 }, 17),
        preview: preview.then(|| rect(80, 40, 17)),
    };
    Geometry {
        neither: frames(false, false),
        sidebar: frames(true, false),
        preview: frames(false, true),
        both: frames(true, true),
    }
}

fn task(id: i64, title: &str) -> Task {
    Task {
        id,
        title: title.to_string(),
        project_id: 3,
        ..Task::default()
    }
}

fn model() -> Model {
    let layout = ColumnLayout {
        name: "default".to_string(),
        description: None,
        columns: vec![ColumnSpec::new(Column::Title)],
    };
    let mut m = Model::new(vec![layout], None, Scope::All, NOW, (120, 20), None);
    m.data.projects = vec![
        Project { id: 3, title: "Home".to_string(), ..Project::default() },
        Project { id: 4, title: "Work".to_string(), ..Project::default() },
    ];
    m.data.tasks = (1..=30).map(|i| task(i, &format!("Task {i}"))).collect();
    m.data.loading = false;
    m.list.selected = Some(1);
    m
}

fn run(m: &mut Model, action: Action) -> Vec<Effect> {
    let g = geometry();
    assert!(can_act(m, &g, 0));
    act(m, action, &g, 0)
}

#[test]
fn moving_and_jumping_move_the_selection_and_keep_it_on_screen() {
    let mut m = model();
    assert!(run(&mut m, Action::MoveDown).is_empty());
    assert_eq!(m.list.selected, Some(2));
    run(&mut m, Action::MoveUp);
    run(&mut m, Action::MoveUp);
    assert_eq!(m.list.selected, Some(1));
    run(&mut m, Action::Bottom);
    assert_eq!(m.list.selected, Some(30));
    assert!(m.list.offset > 0 && m.list.offset <= 29);
    run(&mut m, Action::Top);
    assert_eq!(m.list.selected, Some(1));
    assert_eq!(m.list.offset, 0);
}

#[test]
fn a_page_moves_by_the_rows_on_screen() {
    let mut m = model();
    let g = geometry();
    let n = page(&m, &g, 0);
    // Sixteen lines under the heading, one line a row.
    assert_eq!(n, 16);
    run(&mut m, Action::PageDown);
    assert_eq!(m.list.selected, Some(17));
    run(&mut m, Action::PageUp);
    assert_eq!(m.list.selected, Some(1));
}

#[test]
fn tab_visits_only_the_panes_on_screen() {
    let mut m = model();
    // At 120 columns the sidebar is wanted and the preview is not.
    run(&mut m, Action::FocusNext);
    assert_eq!(m.focus, Focus::Sidebar);
    run(&mut m, Action::FocusNext);
    assert_eq!(m.focus, Focus::List);
    run(&mut m, Action::FocusPrevious);
    assert_eq!(m.focus, Focus::Sidebar);
}

#[test]
fn marking_done_hides_the_task_and_undo_brings_it_back() {
    let mut m = model();
    let effects = run(&mut m, Action::ToggleDone);
    assert_eq!(effects.len(), 2);
    assert!(matches!(&effects[0], Effect::Apply(Mutation::UpdateTask { after, .. }) if after.done && after.done_at == Some(NOW)));
    assert!(matches!(effects[1], Effect::LoadPending));
    assert_eq!(m.data.tasks.len(), 29);
    assert_eq!(m.list.selected, Some(2));
    assert_eq!(m.undo.len(), 1);
    assert_eq!(m.status.toast.as_ref().unwrap().text, "Done");
    run(&mut m, Action::Undo);
    assert_eq!(m.data.tasks.len(), 29);
    assert_eq!(m.undo.len(), 0);
    assert_eq!(m.redo.len(), 1);
    assert_eq!(m.status.toast.as_ref().unwrap().text, "Undone — \"Task 1\"");
}

#[test]
fn deleting_says_so_and_selects_the_next_row() {
    let mut m = model();
    run(&mut m, Action::DeleteTask);
    assert_eq!(m.data.tasks.len(), 29);
    assert_eq!(m.list.selected, Some(2));
    let toast = m.status.toast.clone().unwrap();
    assert_eq!(toast.text, "Deleted \"Task 1\" — u to undo");
    assert_eq!(toast.level, Level::Warning);
    run(&mut m, Action::Undo);
    assert_eq!(m.data.tasks.len(), 30);
    assert_eq!(m.list.selected, Some(1));
    assert_eq!(m.data.tasks[0].title, "Task 1");
}

#[test]
fn a_task_key_with_nothing_selected_says_so() {
    for action in [Action::DeleteTask, Action::EditTask, Action::ToggleDone, Action::SetPriority, Action::SetDue, Action::MoveTask, Action::SetLabels, Action::QuickAction] {
        let mut m = model();
        m.list.selected = None;
        assert!(run(&mut m, action).is_empty());
        assert_eq!(m.status.toast.as_ref().unwrap().text, "No task selected");
        assert!(m.modals.is_empty());
        assert_eq!(m.data.tasks.len(), 30);
    }
}

#[test]
fn forms_open_over_the_selected_task() {
    let mut m = model();
    run(&mut m, Action::MoveTask);
    match m.modals.last() {
        Some(Modal::Picker(p)) => {
            let titles: Vec<&str> = p.candidates.iter().map(|c| c.title.as_str()).collect();
            assert_eq!(titles, ["Home", "Work"]);
            assert_eq!(p.candidates[0].hint, "current");
        }
        _ => panic!("a picker"),
    }
    let mut m = model();
    run(&mut m, Action::EditTask);
    assert!(matches!(m.modals.last(), Some(Modal::Edit(e)) if e.title.value() == "Task 1"));
}

#[test]
fn a_submitted_form_reaches_the_model() {
    let mut m = model();
    let g = geometry();
    let effects = on_submit(&mut m, Submission::Picked(Pick::MoveTo(4)), &g, 0).unwrap();
    assert_eq!(effects.len(), 2);
    assert_eq!(m.data.tasks[0].project_id, 4);
    assert_eq!(m.status.toast.as_ref().unwrap().text, "Moved to Work");

    on_submit(&mut m, Submission::Priority(3), &g, 0).unwrap();
    assert_eq!(m.data.tasks[0].priority, 3);
    assert_eq!(m.status.toast.as_ref().unwrap().text, "Priority 3 — High");
    on_submit(&mut m, Submission::Priority(3), &g, 0).unwrap();
    assert_eq!(m.status.toast.as_ref().unwrap().text, "Nothing changed");

    let effects = on_submit(&mut m, Submission::Search("  milk ".to_string()), &g, 0).unwrap();
    assert_eq!(m.query.search.as_deref(), Some("milk"));
    assert!(matches!(effects[0], Effect::LoadTasks { .. }));

    let effects = on_submit(&mut m, Submission::CreateLabel("urgent".to_string()), &g, 0).unwrap();
    assert_eq!(effects.len(), 3);
    assert!(matches!(effects[2], Effect::LoadLabels));
    assert_eq!(m.status.toast.as_ref().unwrap().text, "Created label urgent");

    let before = m.data.tasks.len();
    assert!(on_submit(&mut m, Submission::Add("Buy milk".to_string()), &g, 0).is_none());
    assert_eq!(m.data.tasks.len(), before);
}

#[test]
fn quit_stops_the_session() {
    let mut m = model();
    let effects = run(&mut m, Action::Quit);
    assert!(!m.running);
    assert!(matches!(effects[0], Effect::Quit));
}

fn label(id: i64, title: &str) -> Label {
    Label { id, title: title.to_string(), hex_color: String::new() }
}

#[test]
fn a_label_selection_goes_on_and_comes_off_one_label_at_a_time() {
    let mut m = model();
    let g = geometry();
    m.data.labels = vec![label(1, "home"), label(2, "urgent")];
    m.data.tasks[0].labels = vec![label(2, "urgent")];
    let effects = on_submit(&mut m, Submission::Labels(vec![1]), &g, 0).unwrap();
    assert_eq!(effects.len(), 4);
    assert!(matches!(&effects[0], Effect::Apply(Mutation::AttachLabel { task: 1, label }) if label.id == 1));
    assert!(matches!(&effects[2], Effect::Apply(Mutation::DetachLabel { task: 1, label }) if label.id == 2));
    let ids: Vec<i64> = m.data.tasks[0].labels.iter().map(|l| l.id).collect();
    assert_eq!(ids, [1]);
    assert_eq!(m.status.toast.as_ref().unwrap().text, "1 added, 1 removed");
    assert_eq!(m.undo.len(), 2);

    on_submit(&mut m, Submission::Labels(vec![1, 2]), &g, 0).unwrap();
    assert_eq!(m.status.toast.as_ref().unwrap().text, "1 label added");
    on_submit(&mut m, Submission::Labels(vec![]), &g, 0).unwrap();
    assert_eq!(m.status.toast.as_ref().unwrap().text, "2 labels removed");
    assert!(m.data.tasks[0].labels.is_empty());
    on_submit(&mut m, Submission::Labels(vec![]), &g, 0).unwrap();
    assert_eq!(m.status.toast.as_ref().unwrap().text, "Nothing changed");
}
