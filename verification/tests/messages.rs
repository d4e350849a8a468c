use tui_do_ui::columns::{Column, ColumnLayout, ColumnSpec};
use tui_do_ui::drawing::Rect;
use tui_do_ui::actions::act;
use tui_do_ui::keymap::{Action, Key, KeyCode};
use tui_do_ui::keys::{on_key, KeyOutcome};
use tui_do_ui::modal::{Modal, Submission};
use tui_do_ui::messages::{try_update, update, Msg};
use tui_do_ui::model::SyncStatus;
use tui_do_ui::mutation::Mutation;
use tui_do_ui::sync::{on_sync, Phase, Stage, Subject, SyncEvent};
use tui_do_ui::model::{Level, Model, Scope};
use tui_do_ui::models::{Label, Task};
use tui_do_ui::update::{Effect, Frames, Geometry};

const NOW: i64 = 1_787_572_800;

fn rect(x: u16, width: u16, height: u16) -> Rect {
    Rect { x, y: 2, width, height }
}

fn geometry() -> Geometry {
    let frames = |sidebar: bool, preview: bool| Frames {
        sidebar: sidebar.then(|| rect(0, 28, 17)),
        list: rect(if sidebar { 28 } else { 0 }, 120 - if sidebar { 28 } else { 0 } - if preview { 40 } else { 0 }, 17),
        preview: preview.then(|| rect(80, 40, 17)),
    };
    Geometry {
        neither: frames(false, false),
        sidebar: frames(true, false),
        preview: frames(false, true),
        both: frames(true, true),
    }
}

fn model() -> Model {
    let layout = ColumnLayout {
        name: "default".to_string(),
        description: None,
        columns: vec![ColumnSpec::new(Column::Title)],
    };
    Model::new(vec![layout], None, Scope::All, NOW, (120, 20), None)
}

fn task(id: i64) -> Task {
    Task { id, title: format!("Task {id}"), project_id: 3, ..Task::default() }
}

#[test]
fn an_answer_to_a_query_moved_on_from_is_dropped() {
    let mut m = model();
    let g = geometry();
    let current = m.query_id;
    let stale = Msg::TasksLoaded { id: current.wrapping_add(7), tasks: vec![task(1)], truncated: false };
    assert!(update(&mut m, stale, &g, 0).is_empty());
    assert!(m.data.tasks.is_empty());
    let fresh = Msg::TasksLoaded { id: current, tasks: vec![task(1), task(2)], truncated: false };
    update(&mut m, fresh, &g, 0);
    assert_eq!(m.data.tasks.len(), 2);
    assert!(!m.data.loading);
    assert_eq!(m.list.selected, Some(1));
}

#[test]
fn a_store_failure_is_shown_and_a_reload_reads_everything() {
    let mut m = model();
    let g = geometry();
    update(&mut m, Msg::StoreFailed("disk full".to_string()), &g, 0);
    assert_eq!(m.data.error.as_deref(), Some("disk full"));
    let toast = m.status.toast.as_ref().unwrap();
    assert_eq!((toast.text.as_str(), toast.level), ("disk full", Level::Error));
    let effects = update(&mut m, Msg::Reload, &g, 0);
    assert_eq!(effects.len(), 5);
    assert!(matches!(effects[0], Effect::LoadTasks { .. }));
    assert!(matches!(effects[4], Effect::LoadPending));
}

#[test]
fn tasks_dated_off_the_calendar_are_not_taken() {
    let mut m = model();
    let g = geometry();
    let bad = Task { due_date: Some(i64::MAX), ..task(1) };
    let msg = Msg::TasksLoaded { id: m.query_id, tasks: vec![bad], truncated: false };
    assert!(try_update(&mut m, msg, &g, 0).is_none());
    assert!(m.data.tasks.is_empty());
    assert!(try_update(&mut m, Msg::PendingLoaded(4), &g, 0).is_some());
    assert_eq!(m.status.queued, 4);
}

#[test]
fn a_fresh_label_list_reaches_the_pool_and_an_open_picker() {
    let mut m = model();
    let g = geometry();
    m.data.labels = vec![Label { id: 1, title: "urgent".to_string(), hex_color: String::new() }];
    tui_do_ui::actions::goto_label(&mut m);
    let fresh = vec![Label { id: 1, title: "soon".to_string(), hex_color: "00ff00".to_string() }];
    assert!(update(&mut m, Msg::LabelsLoaded(fresh), &g, 0).is_empty());
    assert_eq!(m.data.labels[0].title, "soon");
    match m.modals.last() {
        Some(tui_do_ui::modal::Modal::Picker(picker)) => assert_eq!(picker.candidates[0].title, "soon"),
        _ => panic!("the picker closed"),
    }
}

#[test]
fn the_status_line_follows_a_pass_and_rests_when_it_ends() {
    let mut m = model();
    on_sync(&mut m, SyncEvent::Started(Phase::Push));
    assert_eq!(m.status.sync, SyncStatus::Working { detail: "sending".to_string() });
    on_sync(&mut m, SyncEvent::Progress { stage: Stage::Tasks, stored: 12 });
    assert_eq!(m.status.sync, SyncStatus::Working { detail: "12 tasks".to_string() });
    let effects = on_sync(&mut m, SyncEvent::Pushed { deferred: 2 });
    assert_eq!(m.status.sync, SyncStatus::Idle);
    assert_eq!(m.status.queued, 2);
    assert!(matches!(&effects[..], [Effect::LoadPending]));
    let effects = on_sync(&mut m, SyncEvent::Finished { deferred: 0 });
    assert_eq!(m.status.last_sync, Some(NOW));
    assert_eq!(effects.len(), 5);
    on_sync(&mut m, SyncEvent::Failed { message: "offline".to_string() });
    assert_eq!(m.status.sync, SyncStatus::Failed { message: "offline".to_string() });
}

#[test]
fn a_rejection_rolls_the_change_back_and_says_so() {
    let mut m = model();
    let g = geometry();
    m.data.tasks = vec![task(1), task(2)];
    m.list.selected = Some(1);
    act(&mut m, Action::ToggleDone, &g, 0);
    m.list.selected = Some(2);
    act(&mut m, Action::ToggleDone, &g, 0);
    assert_eq!(m.undo.len(), 2);
    let effects = on_sync(
        &mut m,
        SyncEvent::Rejected { subject: Subject::Task(1), kind: "update_task".to_string(), message: "forbidden".to_string() },
    );
    assert_eq!(m.undo.len(), 1);
    let toast = m.status.toast.as_ref().unwrap();
    assert_eq!((toast.text.as_str(), toast.level), ("update_task rejected: forbidden", Level::Error));
    assert_eq!(effects.len(), 4);
    assert!(matches!(effects[0], Effect::LoadTasks { .. }));
}

#[test]
fn a_write_over_someone_elses_edit_is_named() {
    let mut m = model();
    m.data.tasks = vec![task(1)];
    on_sync(
        &mut m,
        SyncEvent::Overwrote { subject: Subject::Task(1), fields: vec!["title".to_string(), "due".to_string()] },
    );
    let toast = m.status.toast.as_ref().unwrap();
    assert_eq!(toast.text, "saved over a change made elsewhere to task \"Task 1\" (title, due)");
    on_sync(&mut m, SyncEvent::Overwrote { subject: Subject::Label(3), fields: vec!["title".to_string()] });
    assert_eq!(m.status.toast.as_ref().unwrap().text, "saved over a change made elsewhere to a label (title)");
}

#[test]
fn an_id_from_the_server_replaces_the_provisional_one_everywhere() {
    let mut m = model();
    let label = Label { id: -1, title: "new".to_string(), hex_color: String::new() };
    m.data.tasks = vec![Task { labels: vec![label.clone()], ..task(-5) }];
    m.data.labels = vec![label.clone()];
    m.list.selected = Some(-5);
    m.undo = vec![Mutation::DeleteTask { before: task(-5) }];
    let effects = on_sync(&mut m, SyncEvent::Adopted { provisional: Subject::Task(-5), assigned: Subject::Task(40) });
    assert_eq!(m.data.tasks[0].id, 40);
    assert_eq!(m.list.selected, Some(40));
    assert!(matches!(&m.undo[0], Mutation::DeleteTask { before } if before.id == 40));
    assert_eq!(effects.len(), 1);

    m.query.scope = Scope::Label(-1);
    let effects = on_sync(&mut m, SyncEvent::Adopted { provisional: Subject::Label(-1), assigned: Subject::Label(9) });
    assert_eq!(m.data.labels[0].id, 9);
    assert_eq!(m.data.tasks[0].labels[0].id, 9);
    assert_eq!(m.query.scope, Scope::Label(9));
    assert_eq!(effects.len(), 2);
    let before = m.data.tasks[0].id;
    assert!(on_sync(&mut m, SyncEvent::Adopted { provisional: Subject::Task(40), assigned: Subject::Label(1) }).is_empty());
    assert_eq!(m.data.tasks[0].id, before);
}

#[test]
fn a_key_goes_to_the_open_form_first_and_otherwise_to_the_keymap() {
    let mut m = model();
    let g = geometry();
    m.data.tasks = vec![task(1), task(2)];
    m.list.selected = Some(1);
    assert!(matches!(on_key(&mut m, Key::char('j'), &g, 0), KeyOutcome::Done(_)));
    assert_eq!(m.list.selected, Some(2));

    on_key(&mut m, Key::char('/'), &g, 0);
    assert!(matches!(m.modals.last(), Some(Modal::Search(_))));
    on_key(&mut m, Key::char('k'), &g, 0);
    assert_eq!(m.list.selected, Some(2));
    on_key(&mut m, Key::plain(KeyCode::Esc), &g, 0);
    assert!(m.modals.is_empty());

    on_key(&mut m, Key::char('D'), &g, 0);
    assert!(matches!(m.modals.last(), Some(Modal::Due(_))));
    on_key(&mut m, Key::char('x'), &g, 0);
    match on_key(&mut m, Key::plain(KeyCode::Enter), &g, 0) {
        KeyOutcome::Unhandled(Submission::Due(text)) => assert_eq!(text, "x"),
        _ => panic!("the typed date was not handed back"),
    }
    assert!(m.modals.is_empty());

    on_key(&mut m, Key::char('/'), &g, 0);
    match on_key(&mut m, Key::ctrl('c'), &g, 0) {
        KeyOutcome::Done(effects) => assert!(matches!(&effects[..], [Effect::Quit])),
        _ => panic!("ctrl-c did not quit"),
    }
    assert!(!m.running);
}
