use tui_do_ui::columns::{Column, ColumnLayout, ColumnSpec};
use tui_do_ui::drawing::Rect;
use tui_do_ui::editing::{apply_edit, set_due_to, try_apply_edit, try_set_due_to, Unknown};
use tui_do_ui::links::{open_link, UrlAction};
use tui_do_ui::modal::EditDraft;
use tui_do_ui::model::{Level, Model, QuickAction, QuickActionKind, Scope};
use tui_do_ui::quick::run_quick_action;
use tui_do_ui::quickadd::{add_parsed, project_for, Parsed};
use tui_do_ui::models::{Label, Project, Task};
use tui_do_ui::mutation::Mutation;
use tui_do_ui::update::{Effect, Frames, Geometry};

const NOW: i64 = 1_787_572_800;
const DAY: i64 = 86_400;

fn rect(x: u16, width: u16, height: u16) -> Rect {
    Rect { x, y: 2, width, height }
}

fn geometry() -> Geometry {
    let frames = |sidebar: bool, preview: bool| Frames {
        sidebar: sidebar.then(|| rect(0, 28, 17)),
        list: rect(if sidebar { 28 } else { 0 }, 120 - if sidebar { 28 } else { 0 } - if preview { 40 } else { 0 }, 17),
        preview: preview.then(|| rect(80, 40, 17)),
    };
    Geometry {
        neither: frames(false, false),
        sidebar: frames(true, false),
        preview: frames(false, true),
        both: frames(true, true),
    }
}

fn label(id: i64, title: &str) -> Label {
    Label { id, title: title.to_string(), hex_color: String::new() }
}

fn model() -> Model {
    let layout = ColumnLayout {
        name: "default".to_string(),
        description: None,
        columns: vec![ColumnSpec::new(Column::Title)],
    };
    let mut m = Model::new(vec![layout], None, Scope::All, NOW, (120, 20), None);
    m.data.projects = vec![
        Project { id: 3, title: "Home".to_string(), ..Project::default() },
        Project { id: 4, title: "Work".to_string(), ..Project::default() },
    ];
    m.data.labels = vec![label(1, "home"), label(2, "urgent")];
    m.data.tasks = vec![Task {
        id: 1,
        title: "Water the plants".to_string(),
        project_id: 3,
        priority: 2,
        labels: vec![label(2, "urgent")],
        ..Task::default()
    }];
    m.data.loading = false;
    m.list.selected = Some(1);
    m
}

/// The draft the form holds when opened on the task and left as it is.
fn untouched(m: &Model) -> EditDraft {
    let before = m.data.tasks[0].clone();
    EditDraft {
        title: before.title.clone(),
        description: before.description.clone(),
        priority: before.priority.to_string(),
        due: String::new(),
        project: "Home".to_string(),
        project_was: "Home".to_string(),
        labels: "urgent".to_string(),
        before: Box::new(before),
    }
}

fn toast(m: &Model) -> (String, Level) {
    let t = m.status.toast.as_ref().unwrap();
    (t.text.clone(), t.level)
}

fn save(m: &mut Model, draft: EditDraft, due: Option<i64>, unknown: Unknown) -> Result<Vec<Effect>, Vec<String>> {
    apply_edit(m, draft, due, unknown, &geometry(), 0)
}

#[test]
fn an_empty_title_refuses_the_save() {
    let mut m = model();
    let mut draft = untouched(&m);
    draft.title = "   ".to_string();
    assert!(save(&mut m, draft, None, Unknown::Ask).unwrap().is_empty());
    assert_eq!(toast(&m), ("A task needs a title".to_string(), Level::Error));
    assert_eq!(m.data.tasks[0].title, "Water the plants");
}

#[test]
fn an_untouched_form_changes_nothing() {
    let mut m = model();
    let draft = untouched(&m);
    assert!(save(&mut m, draft, None, Unknown::Ask).unwrap().is_empty());
    assert_eq!(toast(&m), ("Nothing changed".to_string(), Level::Info));
    assert!(m.undo.is_empty());
}

#[test]
fn an_unknown_label_stops_the_save_to_ask_and_changes_nothing() {
    let mut m = model();
    let mut draft = untouched(&m);
    draft.title = "Water the garden".to_string();
    draft.labels = "urgent, Waiting, waiting".to_string();
    let asked = match save(&mut m, draft, None, Unknown::Ask) {
        Err(names) => names,
        Ok(_) => panic!("the save went ahead"),
    };
    assert_eq!(asked, vec!["Waiting".to_string()]);
    assert_eq!(m.data.tasks[0].title, "Water the plants");
    assert!(m.status.toast.is_none());
}

#[test]
fn a_reported_unknown_label_is_left_off_and_the_rest_saved() {
    let mut m = model();
    let mut draft = untouched(&m);
    draft.title = "  Water the garden ".to_string();
    draft.labels = "urgent, waiting".to_string();
    let effects = save(&mut m, draft, None, Unknown::Report).unwrap();
    assert_eq!(effects.len(), 2);
    assert!(matches!(&effects[0], Effect::Apply(Mutation::UpdateTask { after, .. }) if after.title == "Water the garden"));
    assert_eq!(m.data.tasks[0].title, "Water the garden");
    assert_eq!(toast(&m), ("No label called waiting".to_string(), Level::Error));
}

#[test]
fn the_priority_field_takes_a_number_from_nought_to_five() {
    let mut m = model();
    let mut draft = untouched(&m);
    draft.priority = "5".to_string();
    save(&mut m, draft, None, Unknown::Ask).unwrap();
    assert_eq!(m.data.tasks[0].priority, 5);
    assert_eq!(toast(&m), ("Saved".to_string(), Level::Info));

    let mut draft = untouched(&m);
    draft.priority = "9".to_string();
    assert!(save(&mut m, draft, None, Unknown::Ask).unwrap().is_empty());
    assert_eq!(m.data.tasks[0].priority, 5);
    assert_eq!(toast(&m), ("\"9\" is not a priority between 0 and 5".to_string(), Level::Error));

    let mut draft = untouched(&m);
    draft.priority = String::new();
    save(&mut m, draft, None, Unknown::Ask).unwrap();
    assert_eq!(m.data.tasks[0].priority, 0);
}

#[test]
fn fields_that_cannot_be_used_are_reported_together() {
    let mut m = model();
    let mut draft = untouched(&m);
    draft.priority = "high".to_string();
    draft.due = "someday".to_string();
    draft.project = "Garden".to_string();
    save(&mut m, draft, None, Unknown::Report).unwrap();
    assert_eq!(
        toast(&m),
        (
            "\"high\" is not a priority between 0 and 5 \u{b7} \"someday\" is not a date tui-do understands \u{b7} No project called \"Garden\"".to_string(),
            Level::Error
        )
    );
}

#[test]
fn a_retyped_project_moves_the_task_and_an_emptied_one_keeps_it() {
    let mut m = model();
    let mut draft = untouched(&m);
    draft.project = "work".to_string();
    save(&mut m, draft, None, Unknown::Ask).unwrap();
    assert_eq!(m.data.tasks[0].project_id, 4);

    let mut draft = untouched(&m);
    draft.project = String::new();
    draft.project_was = "Work".to_string();
    save(&mut m, draft, None, Unknown::Ask).unwrap();
    assert_eq!(m.data.tasks[0].project_id, 4);
    assert_eq!(
        toast(&m),
        ("A task needs a project; kept the one it was in".to_string(), Level::Error)
    );
}

#[test]
fn labels_go_on_and_come_off_in_requests_of_their_own() {
    let mut m = model();
    let mut draft = untouched(&m);
    draft.labels = "Home".to_string();
    let effects = save(&mut m, draft, None, Unknown::Ask).unwrap();
    assert_eq!(effects.len(), 6);
    assert!(matches!(&effects[0], Effect::Apply(Mutation::UpdateTask { .. })));
    assert!(matches!(&effects[2], Effect::Apply(Mutation::AttachLabel { task: 1, label }) if label.id == 1));
    assert!(matches!(&effects[4], Effect::Apply(Mutation::DetachLabel { task: 1, label }) if label.id == 2));
    assert_eq!(m.undo.len(), 3);
}

#[test]
fn a_due_date_moved_into_the_past_is_saved_with_a_warning() {
    let mut m = model();
    let mut draft = untouched(&m);
    draft.due = "yesterday".to_string();
    save(&mut m, draft, Some(NOW - DAY), Unknown::Ask).unwrap();
    assert_eq!(m.data.tasks[0].due_date, Some(NOW - DAY));
    assert_eq!(
        toast(&m),
        ("Saved \u{2014} that date has passed (due Yesterday)".to_string(), Level::Warning)
    );

    let mut draft = untouched(&m);
    draft.due = String::new();
    save(&mut m, draft, None, Unknown::Ask).unwrap();
    assert_eq!(m.data.tasks[0].due_date, None);
    assert_eq!(toast(&m), ("Saved".to_string(), Level::Info));
}

#[test]
fn a_draft_off_the_calendar_is_not_saved() {
    let mut m = model();
    let draft = untouched(&m);
    assert!(try_apply_edit(&mut m, draft, Some(i64::MAX), Unknown::Ask, &geometry(), 0).is_none());
    let mut draft = untouched(&m);
    draft.priority = "1".to_string();
    assert!(try_apply_edit(&mut m, draft, None, Unknown::Ask, &geometry(), 0).is_some());
    assert_eq!(m.data.tasks[0].priority, 1);
}

#[test]
fn the_label_form_opens_over_a_label_the_pool_or_a_task_knows() {
    let mut m = model();
    m.data.tasks[0].labels.push(label(7, "carried"));
    let g = geometry();
    let effects = tui_do_ui::actions::on_submit(&mut m, tui_do_ui::modal::Submission::EditLabel(7), &g, 0).unwrap();
    assert!(effects.is_empty());
    match m.modals.last() {
        Some(tui_do_ui::modal::Modal::LabelEdit(form)) => {
            assert_eq!(form.label.title, "carried");
            assert_eq!(form.title.value(), "carried");
        }
        _ => panic!("no label form"),
    }
    let before = m.modals.len();
    tui_do_ui::actions::on_submit(&mut m, tui_do_ui::modal::Submission::EditLabel(99), &g, 0).unwrap();
    assert_eq!(m.modals.len(), before);
    assert_eq!(toast(&m), ("That label is no longer here".to_string(), Level::Info));
}

#[test]
fn a_rename_is_one_change_and_an_unchanged_form_queues_nothing() {
    let mut m = model();
    let g = geometry();
    let renamed = tui_do_ui::modal::Submission::EditedLabel {
        before: Box::new(label(2, "urgent")),
        title: "soon".to_string(),
        hex_color: "ff0000".to_string(),
    };
    let effects = tui_do_ui::actions::on_submit(&mut m, renamed, &g, 0).unwrap();
    assert_eq!(effects.len(), 3);
    assert!(matches!(&effects[0], Effect::Apply(Mutation::UpdateLabel { after, .. }) if after.title == "soon" && after.hex_color == "ff0000"));
    assert!(matches!(effects[2], Effect::LoadLabels));
    assert_eq!(toast(&m), ("Saved label soon".to_string(), Level::Info));
    assert_eq!(m.data.labels[1].title, "soon");
    assert_eq!(m.undo.len(), 1);

    let same = tui_do_ui::modal::Submission::EditedLabel {
        before: Box::new(label(1, "home")),
        title: "home".to_string(),
        hex_color: String::new(),
    };
    assert!(tui_do_ui::actions::on_submit(&mut m, same, &g, 0).unwrap().is_empty());
    assert_eq!(m.undo.len(), 1);
}

#[test]
fn a_single_link_is_opened_or_copied_and_several_are_offered() {
    let mut m = model();
    match open_link(&mut m, UrlAction::Open) {
        Ok(effects) => assert!(effects.is_empty()),
        Err(_) => panic!("no links to choose from"),
    }
    assert_eq!(toast(&m), ("No link in the selected task".to_string(), Level::Info));

    m.data.tasks[0].description = "see https://example.com/a.".to_string();
    let effects = match open_link(&mut m, UrlAction::Open) {
        Ok(effects) => effects,
        Err(_) => panic!("one link, no choice"),
    };
    assert!(matches!(&effects[..], [Effect::OpenUrl(url)] if url == "https://example.com/a"));
    assert_eq!(toast(&m), ("Opening https://example.com/a".to_string(), Level::Info));

    let effects = match open_link(&mut m, UrlAction::Copy) {
        Ok(effects) => effects,
        Err(_) => panic!("one link, no choice"),
    };
    assert!(matches!(&effects[..], [Effect::CopyToClipboard(url)] if url == "https://example.com/a"));
    assert_eq!(
        toast(&m),
        ("Copied https://example.com/a \u{2014} no display on this box".to_string(), Level::Info)
    );

    m.data.tasks[0].title = "Read https://example.org/first".to_string();
    match open_link(&mut m, UrlAction::Open) {
        Err(links) => {
            let urls: Vec<&str> = links.iter().map(|l| l.url.as_str()).collect();
            assert_eq!(urls, ["https://example.org/first", "https://example.com/a"]);
        }
        Ok(_) => panic!("two links were not offered"),
    }
}

#[test]
fn the_due_form_sets_clears_and_refuses_what_it_cannot_read() {
    let mut m = model();
    let g = geometry();
    let effects = set_due_to(&mut m, " tomorrow ", Some(NOW + DAY), &g, 0);
    assert_eq!(effects.len(), 2);
    assert_eq!(m.data.tasks[0].due_date, Some(NOW + DAY));
    assert_eq!(toast(&m), ("Due Tomorrow".to_string(), Level::Info));

    set_due_to(&mut m, "yesterday", Some(NOW - DAY), &g, 0);
    assert_eq!(
        toast(&m),
        ("Due Yesterday \u{2014} that date has passed".to_string(), Level::Warning)
    );

    assert!(set_due_to(&mut m, "someday", None, &g, 0).is_empty());
    assert_eq!(toast(&m), ("\"someday\" is not a date tui-do understands".to_string(), Level::Error));
    assert_eq!(m.data.tasks[0].due_date, Some(NOW - DAY));

    set_due_to(&mut m, "  ", None, &g, 0);
    assert_eq!(m.data.tasks[0].due_date, None);
    assert_eq!(toast(&m), ("Due date cleared".to_string(), Level::Info));
    set_due_to(&mut m, "", None, &g, 0);
    assert_eq!(toast(&m), ("Nothing changed".to_string(), Level::Info));

    assert!(try_set_due_to(&mut m, "far", Some(i64::MIN), &g, 0).is_none());
}

#[test]
fn quick_actions_set_a_priority_move_the_task_and_toggle_a_label() {
    let mut m = model();
    let g = geometry();
    m.quick_actions = vec![
        QuickAction { key: 'u', kind: QuickActionKind::Priority(5) },
        QuickAction { key: 'w', kind: QuickActionKind::Project("work".to_string()) },
        QuickAction { key: 'g', kind: QuickActionKind::Project("Garden".to_string()) },
        QuickAction { key: 'r', kind: QuickActionKind::Label(" URGENT ".to_string()) },
        QuickAction { key: 'n', kind: QuickActionKind::Label("nope".to_string()) },
    ];
    assert!(run_quick_action(&mut m, 9, &g, 0).is_empty());
    assert!(m.status.toast.is_none());

    assert_eq!(run_quick_action(&mut m, 0, &g, 0).len(), 2);
    assert_eq!(m.data.tasks[0].priority, 5);
    run_quick_action(&mut m, 1, &g, 0);
    assert_eq!(m.data.tasks[0].project_id, 4);
    assert!(run_quick_action(&mut m, 2, &g, 0).is_empty());
    assert_eq!(toast(&m), ("No project called \"Garden\"".to_string(), Level::Error));

    let effects = run_quick_action(&mut m, 3, &g, 0);
    assert!(matches!(&effects[0], Effect::Apply(Mutation::DetachLabel { task: 1, label }) if label.id == 2));
    assert_eq!(toast(&m), ("Removed *urgent".to_string(), Level::Info));
    let effects = run_quick_action(&mut m, 3, &g, 0);
    assert!(matches!(&effects[0], Effect::Apply(Mutation::AttachLabel { task: 1, label }) if label.id == 2));
    assert_eq!(toast(&m), ("Added *urgent".to_string(), Level::Info));
    assert!(run_quick_action(&mut m, 4, &g, 0).is_empty());
    assert_eq!(toast(&m), ("No label called \"nope\"".to_string(), Level::Error));
}

#[test]
fn the_quick_action_menu_says_what_each_key_does() {
    let mut m = model();
    m.quick_actions = vec![
        QuickAction { key: 'w', kind: QuickActionKind::Project("Work".to_string()) },
        QuickAction { key: 'h', kind: QuickActionKind::Label("home".to_string()) },
    ];
    tui_do_ui::actions::quick_action(&mut m);
    match m.modals.last() {
        Some(tui_do_ui::modal::Modal::QuickActions(menu)) => assert_eq!(
            menu.rows,
            vec![('w', "Move to Work".to_string()), ('h', "Toggle *home".to_string())]
        ),
        _ => panic!("no menu"),
    }
}

fn parsed(title: &str, project: Option<&str>, labels: &[&str]) -> Parsed {
    Parsed {
        title: title.to_string(),
        project: project.map(str::to_string),
        labels: labels.iter().map(|l| l.to_string()).collect(),
        priority: None,
        due_date: None,
        start_date: None,
    }
}

#[test]
fn a_new_task_goes_to_the_named_project_then_the_shown_one_then_the_inbox() {
    let mut projects = model().data.projects;
    projects.push(Project { id: 9, title: "Inbox".to_string(), ..Project::default() });
    assert_eq!(project_for(&projects, Some("work"), Some(3), None), Some(4));
    assert_eq!(project_for(&projects, Some("Garden"), Some(3), None), None);
    assert_eq!(project_for(&projects, None, Some(3), Some("Work")), Some(3));
    assert_eq!(project_for(&projects, None, None, Some("Work")), Some(4));
    assert_eq!(project_for(&projects, None, None, Some("Garden")), Some(9));
    assert_eq!(project_for(&projects[..2].to_vec(), None, None, None), Some(3));
}

#[test]
fn a_parsed_line_adds_a_task_and_says_what_it_left_off() {
    let mut m = model();
    let g = geometry();
    let mut p = parsed("Buy seeds", Some("Work"), &["home", "later"]);
    p.priority = Some(3);
    match add_parsed(&mut m, p, Unknown::Ask, &g, 0) {
        Err(names) => assert_eq!(names, vec!["later".to_string()]),
        Ok(_) => panic!("the unknown label was not asked about"),
    }
    assert_eq!(m.data.tasks.len(), 1);

    let mut p = parsed("Buy seeds", Some("Work"), &["home", "later"]);
    p.priority = Some(3);
    let effects = add_parsed(&mut m, p, Unknown::Report, &g, 0).unwrap_or_default();
    assert_eq!(effects.len(), 3);
    assert!(matches!(&effects[0], Effect::Apply(Mutation::CreateTask { task }) if task.project_id == 4 && task.priority == 3 && task.labels.len() == 1));
    assert!(matches!(effects[2], Effect::LoadCounts));
    assert_eq!(
        toast(&m),
        ("Added \"Buy seeds\" \u{2014} no label called later".to_string(), Level::Warning)
    );

    add_parsed(&mut m, parsed("Call", None, &[]), Unknown::Ask, &g, 0).unwrap_or_default();
    assert_eq!(toast(&m), ("Added \"Call\"".to_string(), Level::Info));
    add_parsed(&mut m, parsed("  ", None, &[]), Unknown::Ask, &g, 0).unwrap_or_default();
    assert_eq!(toast(&m), ("Nothing to add".to_string(), Level::Info));
    add_parsed(&mut m, parsed("Dig", Some("Garden"), &[]), Unknown::Ask, &g, 0).unwrap_or_default();
    assert_eq!(toast(&m), ("No project called \"Garden\"".to_string(), Level::Error));
}
