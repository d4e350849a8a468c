//! What each action of the keymap does, and the forms and pickers the actions open.
use crate::keymap::{is_command_spec, keymap, keymap_spec, keys_text, Action, BindingView, Context};
use crate::label_forms::{first_where, label_views, lemma_first_where, lemma_first_where_is, LabelsState};
use crate::dates::{day_text, format_day};
use crate::modal::{
    Submission, SubmissionView,
    clamp_priority, edit_ok, joined, label_titles, or_empty, Candidate, DueState, EditField,
    EditState, HelpState, Modal, Pick, PickerKind, PickerState, PriorityState, QuickActionsState,
    SearchState, TextInput,
};
use crate::models::{Task, TaskView};
use crate::model::project_with_id;
use crate::model::{focus_context, task_with_id, Focus, Model, PaneState, Panes};
use crate::models::{Label, LabelView, Project};
use crate::text::{chars_of, decimal, decimal_of, lex_before, lowercase, text_before, to_lowercase};
use crate::model::{toast_view, Level, QuickAction, QuickActionKind, Status, SyncStatus, Toast, TOAST_LIFETIME};
use crate::models::duplicate_labels;
use crate::mutation::{Mutation, MutationView};
use crate::rows::{fit, fits, truncate, truncated};
use crate::grid::RowContext;
use crate::update::{
    back, backed, body_rows, collapse_or_parent, collapsed_or_parented, cycle_focus, cycled,
    edit, edited, effect_views, expand_or_open, expanded_or_opened, focus_ring, frames,
    frames_of, jump, jumped, laid_out, layout_switched, list_heights, load_of, mutation_dated,
    nothing_selected, preview_flipped, preview_on, quit, redo, redone, reload_everything,
    reloading, remembered, scope_of, select_target, selection_of, showing, sidebar_flipped,
    sidebar_on, stacks_dated, steady_in, step, stepped, switch_layout, targeted, toasted,
    toggle_done_tasks, toggle_preview, toggle_sidebar, told, undo, undone, done_tasks_flipped,
    Effect, EffectView, Geometry,
};
use vstd::prelude::*;

verus! {

/// A candidate as a value: what choosing it does, its title and its hint.
pub open spec fn candidate_view(c: Candidate) -> (Pick, Seq<char>, Seq<char>) {
    (c.pick, c.title@, c.hint@)
}

/// Candidates as values.
pub open spec fn candidate_views(cs: Seq<Candidate>) -> Seq<(Pick, Seq<char>, Seq<char>)> {
    cs.map_values(|c: Candidate| candidate_view(c))
}

/// What a candidate is sorted by: its title, lower-cased.
pub open spec fn title_key(c: (Pick, Seq<char>, Seq<char>)) -> Seq<char> {
    lowercase(c.1)
}

/// Whether a candidate sorts strictly after `c`.
pub open spec fn sorts_after(c: (Pick, Seq<char>, Seq<char>)) -> spec_fn((Pick, Seq<char>, Seq<char>)) -> bool {
    |e: (Pick, Seq<char>, Seq<char>)| lex_before(title_key(c), title_key(e))
}

/// `c` placed among `sorted` before the first that sorts after it, so that equal titles
/// keep the order they came in.
pub open spec fn insert_by_title(
    sorted: Seq<(Pick, Seq<char>, Seq<char>)>,
    c: (Pick, Seq<char>, Seq<char>),
) -> Seq<(Pick, Seq<char>, Seq<char>)> {
    sorted.insert(first_where(sorted, sorts_after(c)), c)
}

/// Candidates in title order, case ignored, equal titles in the order given.
pub open spec fn sorted_by_title(cs: Seq<(Pick, Seq<char>, Seq<char>)>) -> Seq<(Pick, Seq<char>, Seq<char>)>
    decreases cs.len(),
{
    if cs.len() == 0 {
        cs
    } else {
        insert_by_title(sorted_by_title(cs.drop_last()), cs.last())
    }
}

/// Candidates in title order, which is what a picker with nothing typed should show.
pub fn sorted(candidates: Vec<Candidate>) -> (out: Vec<Candidate>)
    ensures
        candidate_views(out@) == sorted_by_title(candidate_views(candidates@)),
{
    let ghost cv = candidate_views(candidates@);
    let mut rest = candidates;
    let mut out: Vec<Candidate> = Vec::new();
    let mut keys: Vec<Vec<char>> = Vec::new();
    while rest.len() > 0
        invariant
            out@.len() + rest@.len() == cv.len(),
            candidate_views(rest@) == cv.skip(out@.len() as int),
            candidate_views(out@) == sorted_by_title(cv.take(out@.len() as int)),
            keys@.len() == out@.len(),
            forall|j: int| 0 <= j < keys@.len() ==> (#[trigger] keys@[j])@ == title_key(candidate_view(out@[j])),
        decreases rest.len(),
    {
        let ghost done = out@.len() as int;
        let ghost sv = candidate_views(out@);
        let ghost rv = rest@;
        let c = rest.remove(0);
        let ghost v = candidate_view(c);
        proof {
            assert(c == rv[0]);
            assert(candidate_views(rv)[0] == v);
            assert(cv.skip(done)[0] == v);
            assert(candidate_views(rest@) =~= candidate_views(rv).drop_first());
            assert(cv.skip(done + 1) =~= cv.skip(done).drop_first());
            assert(cv.take(done + 1).drop_last() =~= cv.take(done));
            assert(cv.take(done + 1).last() == v);
        }
        let lower = to_lowercase(c.title.as_str());
        let key = chars_of(lower.as_str());
        let mut p: usize = 0;
        while p < keys.len()
            invariant
                p <= keys@.len(),
                keys@.len() == sv.len(),
                key@ == title_key(v),
                forall|j: int| 0 <= j < keys@.len() ==> (#[trigger] keys@[j])@ == title_key(sv[j]),
                forall|j: int| 0 <= j < p ==> !sorts_after(v)(#[trigger] sv[j]),
            ensures
                p <= keys@.len(),
                forall|j: int| 0 <= j < p ==> !sorts_after(v)(#[trigger] sv[j]),
                p < keys@.len() ==> sorts_after(v)(sv[p as int]),
            decreases keys.len() - p,
        {
            if text_before(key.as_slice(), keys[p].as_slice()) {
                break;
            }
            p += 1;
        }
        proof {
            assert forall|j: int| 0 <= j < keys@.len() implies (#[trigger] keys@[j])@ == title_key(sv[j]) by {
                assert(sv[j] == candidate_view(out@[j]));
            }
            lemma_first_where_is(sv, sorts_after(v), p as int);
        }
        let ghost keys0 = keys@;
        let ghost out0 = out@;
        out.insert(p, c);
        keys.insert(p, key);
        proof {
            assert(candidate_views(out@) =~= sv.insert(p as int, v));
            assert forall|j: int| 0 <= j < keys@.len() implies (#[trigger] keys@[j])@ == title_key(
                candidate_view(out@[j]),
            ) by {
                if j < p {
                    assert(keys@[j] == keys0[j] && out@[j] == out0[j]);
                    assert(keys0[j]@ == title_key(sv[j]));
                } else if j > p {
                    assert(keys@[j] == keys0[j - 1] && out@[j] == out0[j - 1]);
                    assert(keys0[j - 1]@ == title_key(sv[j - 1]));
                }
            }
        }
    }
    proof {
        assert(cv.take(cv.len() as int) =~= cv);
    }
    out
}

/// Whether `after` is `before` with one more form open on top, and nothing else changed.
pub open spec fn pushed(before: Model, after: Model) -> bool {
    &&& after == (Model { modals: after.modals, ..before })
    &&& after.modals@.len() == before.modals@.len() + 1
    &&& after.modals@.drop_last() == before.modals@
}

/// Put a form on top of the stack.
pub(crate) fn open(model: &mut Model, modal: Modal)
    ensures
        pushed(*old(model), *final(model)),
        final(model).modals@.last() == modal,
{
    model.modals.push(modal);
    proof {
        assert(model.modals@.drop_last() =~= old(model).modals@);
    }
}

/// Whether the key reference opened over `before`, for the focused pane.
pub open spec fn help_opened(before: Model, after: Model) -> bool {
    &&& pushed(before, after)
    &&& after.modals@.last() == Modal::Help(HelpState { context: focus_context(before.focus), offset: 0 })
}

/// Open the key reference for the focused pane.
pub fn help(model: &mut Model)
    ensures
        help_opened(*old(model), *final(model)),
{
    let context = model.context();
    open(model, Modal::Help(HelpState::new(context)));
}

/// Whether the search prompt opened over `before`, prefilled with the current search.
pub open spec fn search_opened(before: Model, after: Model) -> bool {
    &&& pushed(before, after)
    &&& match after.modals@.last() {
        Modal::Search(st) => {
            &&& st.input@.value == or_empty(before.query.search)
            &&& st.input@.cursor == or_empty(before.query.search).len()
            &&& st.input.wf()
            &&& or_empty(st.original) == or_empty(before.query.search)
            &&& (st.original is Some) == (before.query.search is Some)
        },
        _ => false,
    }
}

/// Open the search prompt over the current search.
pub fn search(model: &mut Model)
    requires
        or_empty(old(model).query.search).len() < usize::MAX,
    ensures
        search_opened(*old(model), *final(model)),
{
    let original = match &model.query.search {
        Some(t) => Some(t.clone()),
        None => None,
    };
    open(model, Modal::Search(SearchState::new(original)));
}

/// Whether an empty quick-add line opened over `before`.
pub open spec fn add_opened(before: Model, after: Model) -> bool {
    &&& pushed(before, after)
    &&& match after.modals@.last() {
        Modal::Add(t) => t@.value == Seq::<char>::empty() && t@.cursor == 0 && !t@.multiline && t.wf(),
        _ => false,
    }
}

/// Open an empty quick-add line.
pub fn add_task(model: &mut Model)
    ensures
        add_opened(*old(model), *final(model)),
{
    open(model, Modal::Add(TextInput::empty()));
}

/// Whether a picker of `kind` over `views`, with nothing typed, opened over `before`.
pub open spec fn picker_opened(
    before: Model,
    after: Model,
    kind: PickerKind,
    views: Seq<(Pick, Seq<char>, Seq<char>)>,
) -> bool {
    &&& pushed(before, after)
    &&& match after.modals@.last() {
        Modal::Picker(p) => {
            &&& p.kind == kind
            &&& p.input@.value == Seq::<char>::empty()
            &&& p.input.wf()
            &&& candidate_views(p.candidates@) == views
            &&& p.matches@ == Seq::new(views.len(), |i: int| i as usize)
            &&& p.selected == 0
        },
        _ => false,
    }
}

/// Open a picker of `kind` over `candidates`.
fn open_picker(model: &mut Model, kind: PickerKind, candidates: Vec<Candidate>)
    ensures
        picker_opened(*old(model), *final(model), kind, candidate_views(candidates@)),
{
    let ghost v = candidate_views(candidates@);
    let picker = PickerState::new(kind, candidates);
    open(model, Modal::Picker(picker));
}

/// Whether a project can be shown or moved into: a real one, not archived. The server's
/// pseudo-projects reject writes.
pub open spec fn offered(p: Project) -> bool {
    p.id > 0 && !p.is_archived
}

/// The projects offered, as candidates that show them.
pub open spec fn project_candidates(ps: Seq<Project>) -> Seq<(Pick, Seq<char>, Seq<char>)> {
    ps.filter(|p: Project| offered(p)).map_values(
        |p: Project| (Pick::Project(p.id), p.title@, Seq::<char>::empty()),
    )
}

/// The projects offered, as candidates to move a task into, the one it is in marked.
pub open spec fn move_candidates(ps: Seq<Project>, current: i64) -> Seq<(Pick, Seq<char>, Seq<char>)> {
    ps.filter(|p: Project| offered(p)).map_values(
        |p: Project|
            (
                Pick::MoveTo(p.id),
                p.title@,
                if p.id == current {
                    "current"@
                } else {
                    Seq::<char>::empty()
                },
            ),
    )
}

/// The offered projects as candidates: to show them, or, with `moving` holding the
/// task's project, to move a task into them.
fn offered_projects(projects: &Vec<Project>, moving: Option<i64>) -> (out: Vec<Candidate>)
    ensures
        candidate_views(out@) == match moving {
            None => project_candidates(projects@),
            Some(current) => move_candidates(projects@, current),
        },
{
    let ghost keep = |p: Project| offered(p);
    let ghost want = match moving {
        None => project_candidates(projects@),
        Some(current) => move_candidates(projects@, current),
    };
    let ghost f = match moving {
        None => |p: Project| (Pick::Project(p.id), p.title@, Seq::<char>::empty()),
        Some(current) => |p: Project|
            (
                Pick::MoveTo(p.id),
                p.title@,
                if p.id == current {
                    "current"@
                } else {
                    Seq::<char>::empty()
                },
            ),
    };
    proof {
        reveal_strlit("current");
        reveal_strlit("");
    }
    let mut out: Vec<Candidate> = Vec::new();
    let mut i: usize = 0;
    while i < projects.len()
        invariant
            i <= projects@.len(),
            keep == (|p: Project| offered(p)),
            want == projects@.filter(keep).map_values(f),
            f == (match moving {
                None => |p: Project| (Pick::Project(p.id), p.title@, Seq::<char>::empty()),
                Some(current) => |p: Project|
                    (
                        Pick::MoveTo(p.id),
                        p.title@,
                        if p.id == current {
                            "current"@
                        } else {
                            Seq::<char>::empty()
                        },
                    ),
            }),
            candidate_views(out@) == projects@.take(i as int).filter(keep).map_values(f),
        decreases projects.len() - i,
    {
        proof {
            assert(projects@.take(i + 1).drop_last() =~= projects@.take(i as int));
            reveal(Seq::filter);
        }
        let ghost before = candidate_views(out@);
        let p = &projects[i];
        if p.id > 0 && !p.is_archived {
            let c = match moving {
                None => Candidate::new(Pick::Project(p.id), p.title.clone()),
                Some(current) => Candidate::hinted(
                    Pick::MoveTo(p.id),
                    p.title.clone(),
                    if p.id == current {
                        String::from_str("current")
                    } else {
                        String::new()
                    },
                ),
            };
            out.push(c);
            proof {
                assert(candidate_views(out@) =~= before.push(f(projects@[i as int])));
            }
        }
        proof {
            let t = projects@.take(i + 1);
            assert(t.filter(keep) == (if keep(projects@[i as int]) {
                projects@.take(i as int).filter(keep).push(projects@[i as int])
            } else {
                projects@.take(i as int).filter(keep)
            }));
            assert(candidate_views(out@) =~= t.filter(keep).map_values(f));
        }
        i += 1;
    }
    proof {
        assert(projects@.take(i as int) =~= projects@);
    }
    out
}

/// Open the project picker over the offered projects, in title order.
pub fn goto_project(model: &mut Model)
    ensures
        picker_opened(
            *old(model),
            *final(model),
            PickerKind::Project,
            sorted_by_title(project_candidates(old(model).data.projects@)),
        ),
{
    let candidates = offered_projects(&model.data.projects, None);
    open_picker(model, PickerKind::Project, sorted(candidates));
}

/// Every label, as candidates that filter by it.
pub open spec fn label_candidates(ls: Seq<Label>) -> Seq<(Pick, Seq<char>, Seq<char>)> {
    ls.map_values(|l: Label| (Pick::Label(l.id), l.title@, Seq::<char>::empty()))
}

/// Open the label picker over every label, in title order.
pub fn goto_label(model: &mut Model)
    ensures
        picker_opened(
            *old(model),
            *final(model),
            PickerKind::Label,
            sorted_by_title(label_candidates(old(model).data.labels@)),
        ),
{
    let mut out: Vec<Candidate> = Vec::new();
    let mut i: usize = 0;
    while i < model.data.labels.len()
        invariant
            i <= model.data.labels@.len(),
            candidate_views(out@) == label_candidates(model.data.labels@.take(i as int)),
        decreases model.data.labels.len() - i,
    {
        let l = &model.data.labels[i];
        let ghost before = candidate_views(out@);
        let ghost v = (Pick::Label(l.id), l.title@, Seq::<char>::empty());
        out.push(Candidate::new(Pick::Label(l.id), l.title.clone()));
        proof {
            assert(candidate_views(out@) =~= before.push(v));
            assert(model.data.labels@.take(i + 1) =~= model.data.labels@.take(i as int).push(
                model.data.labels@[i as int],
            ));
            assert(label_candidates(model.data.labels@.take(i + 1)) =~= label_candidates(
                model.data.labels@.take(i as int),
            ).push(v));
        }
        i += 1;
    }
    proof {
        assert(model.data.labels@.take(i as int) =~= model.data.labels@);
    }
    open_picker(model, PickerKind::Label, sorted(out));
}

/// Whether the command palette offers a binding in `context`: a command, bound globally or
/// in that pane.
pub open spec fn palette_offers(b: BindingView, context: Context) -> bool {
    is_command_spec(b.action) && (b.context == Context::Global || b.context == context)
}

/// The commands the palette offers in `context`, in keymap order, each with its keys.
pub open spec fn palette(context: Context) -> Seq<(Pick, Seq<char>, Seq<char>)> {
    keymap_spec().filter(|b: BindingView| palette_offers(b, context)).map_values(
        |b: BindingView| (Pick::Command(b.action), b.doc, keys_text(b.keys)),
    )
}

/// Open the command palette for the focused pane, built from the keymap so that the
/// palette and the key reference list the same things.
pub fn command_palette(model: &mut Model)
    ensures
        picker_opened(*old(model), *final(model), PickerKind::Command, palette(focus_context(old(model).focus))),
{
    let context = model.context();
    let table = keymap();
    let ghost spec_table = keymap_spec();
    let ghost keep = |b: BindingView| palette_offers(b, context);
    let ghost f = |b: BindingView| (Pick::Command(b.action), b.doc, keys_text(b.keys));
    let mut out: Vec<Candidate> = Vec::new();
    let mut i: usize = 0;
    while i < table.len()
        invariant
            crate::keymap::view_all(table@) == spec_table,
            spec_table == keymap_spec(),
            keep == (|b: BindingView| palette_offers(b, context)),
            f == (|b: BindingView| (Pick::Command(b.action), b.doc, keys_text(b.keys))),
            i <= table.len(),
            table@.len() == spec_table.len(),
            candidate_views(out@) == spec_table.take(i as int).filter(keep).map_values(f),
        decreases table.len() - i,
    {
        let b = &table[i];
        proof {
            assert(spec_table[i as int] == table@[i as int]@);
            assert(spec_table.take(i + 1).drop_last() =~= spec_table.take(i as int));
            reveal(Seq::filter);
        }
        let ghost before = candidate_views(out@);
        if b.action.is_command() && (b.context == Context::Global || b.context == context) {
            let c = Candidate::hinted(Pick::Command(b.action), String::from_str(b.doc), b.keys_display());
            out.push(c);
            proof {
                assert(candidate_views(out@) =~= before.push(f(spec_table[i as int])));
            }
        }
        proof {
            assert(candidate_views(out@) =~= spec_table.take(i + 1).filter(keep).map_values(f));
        }
        i += 1;
    }
    proof {
        assert(spec_table.take(i as int) =~= spec_table);
    }
    open_picker(model, PickerKind::Command, out);
}

/// The title of the project with id `id`, or nothing when no project has it.
pub open spec fn project_title(m: Model, id: i64) -> Seq<char> {
    let k = first_where(m.data.projects@, project_with_id(id));
    if k < m.data.projects@.len() {
        m.data.projects@[k].title@
    } else {
        Seq::empty()
    }
}

/// A task's due date as the due field is prefilled with: `dd/mm/yyyy`, or nothing.
pub open spec fn due_field(t: TaskView) -> Seq<char> {
    match t.due_date {
        Some(ts) => match day_text(ts, crate::dates::day_pattern()) {
            Some(d) => d,
            None => Seq::empty(),
        },
        None => Seq::empty(),
    }
}

/// Whether every text a form would be filled with is shorter than the numbers count: the
/// search, and the selected task's fields.
pub open spec fn roomy(m: Model) -> bool {
    &&& or_empty(m.query.search).len() < usize::MAX
    &&& match selection_of(m) {
        Some(k) => {
            let t = m.data.tasks@[k];
            &&& t.title@.len() < usize::MAX
            &&& t.description@.len() < usize::MAX
            &&& joined(label_titles(t@.labels), ", "@).len() < usize::MAX
            &&& project_title(m, t.project_id).len() < usize::MAX
            &&& due_field(t@).len() < usize::MAX
        },
        None => true,
    }
}

/// Whether every text a form would be filled with is shorter than the numbers count.
pub fn is_roomy(model: &Model) -> (r: bool)
    ensures
        r == roomy(*model),
{
    proof {
        if let Some(id) = model.list.selected {
            lemma_first_where(model.data.tasks@, task_with_id(id));
        }
    }
    let search = match &model.query.search {
        Some(t) => chars_of(t.as_str()).len(),
        None => 0,
    };
    if search == usize::MAX {
        return false;
    }
    match model.selected_task() {
        None => true,
        Some(task) => {
            proof {
                lemma_first_where(model.data.projects@, project_with_id(task.project_id));
            }
            let project = match model.project(task.project_id) {
                Some(p) => chars_of(p.title.as_str()).len(),
                None => 0,
            };
            let due = match task.due_date {
                Some(ts) => match format_day(ts, "%d/%m/%Y") {
                    Some(d) => chars_of(d.as_str()).len(),
                    None => 0,
                },
                None => 0,
            };
            chars_of(task.title.as_str()).len() < usize::MAX && chars_of(task.description.as_str()).len()
                < usize::MAX && crate::modal::join_label_titles(&task.labels).len() < usize::MAX
                && project < usize::MAX && due < usize::MAX
        },
    }
}

/// Whether `after` is `before` told that a key needs a selected task, when there is none,
/// and otherwise is `before` with a form over the selected task `t` for which `p` holds.
pub open spec fn task_form(before: Model, after: Model, p: spec_fn(Modal, Task) -> bool) -> bool {
    match selection_of(before) {
        None => told(before, after, "No task selected"@, Level::Info),
        Some(k) => pushed(before, after) && p(after.modals@.last(), before.data.tasks@[k]),
    }
}

/// Whether `m` is the edit form over `t`, whose project is called `project`.
pub open spec fn edit_form(m: Modal, t: Task, project: Seq<char>) -> bool {
    match m {
        Modal::Edit(e) => {
            &&& (*e.before)@ == t@
            &&& e.title@.value == t.title@
            &&& e.description@.value == t.description@
            &&& e.description@.multiline
            &&& e.priority@.value == crate::text::signed_decimal(t.priority as int)
            &&& e.due@.value == due_field(t@)
            &&& e.project@.value == project
            &&& e.project_was@ == project
            &&& e.labels@.value == joined(label_titles(t@.labels), ", "@)
            &&& e.focus == EditField::Title
            &&& edit_ok(*e)
        },
        _ => false,
    }
}

/// Whether a form is the edit form over a task of `m`.
pub open spec fn edit_form_in(m: Model) -> spec_fn(Modal, Task) -> bool {
    |f: Modal, t: Task| edit_form(f, t, project_title(m, t.project_id))
}

/// Open the edit form over the selected task.
pub fn edit_task(model: &mut Model) -> (effects: Vec<Effect>)
    requires
        roomy(*old(model)),
    ensures
        effects@.len() == 0,
        task_form(*old(model), *final(model), edit_form_in(*old(model))),
{
    proof {
        if let Some(id) = model.list.selected {
            lemma_first_where(model.data.tasks@, task_with_id(id));
        }
    }
    let form = match model.selected_task() {
        Some(task) => {
            proof {
                lemma_first_where(model.data.projects@, project_with_id(task.project_id));
            }
            let project = match model.project(task.project_id) {
                Some(p) => p.title.clone(),
                None => String::new(),
            };
            Some(EditState::new(task, project.as_str()))
        },
        None => None,
    };
    match form {
        Some(e) => {
            open(model, Modal::Edit(Box::new(e)));
            Vec::new()
        },
        None => nothing_selected(model),
    }
}

/// Whether `m` is the priority field over `t`.
pub open spec fn priority_form(m: Modal, t: Task) -> bool {
    match m {
        Modal::Priority(p) => p.typed@ == Seq::<char>::empty() && p.selected == clamp_priority(t.priority)
            && p.current == t.priority,
        _ => false,
    }
}

/// Whether a form is the priority field over a task.
pub open spec fn priority_form_of() -> spec_fn(Modal, Task) -> bool {
    |f: Modal, t: Task| priority_form(f, t)
}

/// Open the priority field over the selected task.
pub fn set_priority(model: &mut Model) -> (effects: Vec<Effect>)
    ensures
        effects@.len() == 0,
        task_form(*old(model), *final(model), priority_form_of()),
{
    proof {
        if let Some(id) = model.list.selected {
            lemma_first_where(model.data.tasks@, task_with_id(id));
        }
    }
    let current = match model.selected_task() {
        Some(task) => Some(task.priority),
        None => None,
    };
    match current {
        Some(p) => {
            open(model, Modal::Priority(PriorityState::new(p)));
            Vec::new()
        },
        None => nothing_selected(model),
    }
}

/// Whether `m` is the due field over `t`, prefilled with its date.
pub open spec fn due_form(m: Modal, t: Task) -> bool {
    match m {
        Modal::Due(d) => d.input@.value == due_field(t@) && d.input@.cursor == due_field(t@).len()
            && d.input.wf(),
        _ => false,
    }
}

/// Whether a form is the due field over a task.
pub open spec fn due_form_of() -> spec_fn(Modal, Task) -> bool {
    |f: Modal, t: Task| due_form(f, t)
}

/// Open the due field over the selected task, prefilled with its date.
pub fn set_due(model: &mut Model) -> (effects: Vec<Effect>)
    requires
        roomy(*old(model)),
    ensures
        effects@.len() == 0,
        task_form(*old(model), *final(model), due_form_of()),
{
    proof {
        if let Some(id) = model.list.selected {
            lemma_first_where(model.data.tasks@, task_with_id(id));
        }
    }
    let form = match model.selected_task() {
        Some(task) => {
            let current = match task.due_date {
                Some(ts) => match format_day(ts, "%d/%m/%Y") {
                    Some(d) => d,
                    None => String::new(),
                },
                None => String::new(),
            };
            Some(DueState::new(current.as_str()))
        },
        None => None,
    };
    match form {
        Some(d) => {
            open(model, Modal::Due(d));
            Vec::new()
        },
        None => nothing_selected(model),
    }
}

/// Open the picker of projects to move the selected task into, in title order, with the
/// one it is in marked.
pub fn move_task(model: &mut Model) -> (effects: Vec<Effect>)
    ensures
        effects@.len() == 0,
        match selection_of(*old(model)) {
            None => told(*old(model), *final(model), "No task selected"@, Level::Info),
            Some(k) => picker_opened(
                *old(model),
                *final(model),
                PickerKind::MoveProject,
                sorted_by_title(
                    move_candidates(old(model).data.projects@, old(model).data.tasks@[k].project_id),
                ),
            ),
        },
{
    proof {
        if let Some(id) = model.list.selected {
            lemma_first_where(model.data.tasks@, task_with_id(id));
        }
    }
    let current = match model.selected_task() {
        Some(task) => Some(task.project_id),
        None => None,
    };
    match current {
        Some(project) => {
            let candidates = offered_projects(&model.data.projects, Some(project));
            open_picker(model, PickerKind::MoveProject, sorted(candidates));
            Vec::new()
        },
        None => nothing_selected(model),
    }
}

/// The label pool with the labels a task carries that the pool has not caught up with
/// added after it, each once.
pub open spec fn with_unknown(known: Seq<LabelView>, carried: Seq<LabelView>) -> Seq<LabelView>
    decreases carried.len(),
{
    if carried.len() == 0 {
        known
    } else {
        let so_far = with_unknown(known, carried.drop_last());
        let l = carried.last();
        if first_where(so_far, crate::update::has_label_id(l.id)) < so_far.len() {
            so_far
        } else {
            so_far.push(l)
        }
    }
}

/// Whether `m` is the label form over `t`: every label there is, the ones only `t`
/// carries included, with `t`'s ticked.
pub open spec fn labels_form(m: Modal, pool: Seq<LabelView>, t: Task) -> bool {
    match m {
        Modal::Labels(s) => {
            &&& label_views(s.labels@) == with_unknown(pool, t@.labels)
            &&& s.chosen@ == t.labels@.map_values(|l: Label| l.id)
            &&& s.input@.value == Seq::<char>::empty()
            &&& s.input.wf()
            &&& s.matches@ == Seq::new(s.labels@.len(), |i: int| i as usize)
            &&& s.selected == 0
            &&& s.awaiting@.len() == 0
        },
        _ => false,
    }
}

/// The pool, with what `carried` holds that it lacks.
fn pool_with(known: &Vec<Label>, carried: &Vec<Label>) -> (out: Vec<Label>)
    ensures
        label_views(out@) == with_unknown(label_views(known@), label_views(carried@)),
{
    let mut out = duplicate_labels(known);
    let ghost kv = label_views(known@);
    let ghost cv = label_views(carried@);
    let mut i: usize = 0;
    while i < carried.len()
        invariant
            i <= carried@.len(),
            kv == label_views(known@),
            cv == label_views(carried@),
            label_views(out@) == with_unknown(kv, cv.take(i as int)),
        decreases carried.len() - i,
    {
        let l = &carried[i];
        proof {
            assert(cv.take(i + 1).drop_last() =~= cv.take(i as int));
            assert(cv.take(i + 1).last() == l@);
        }
        let k = crate::update::label_index(&out, l.id);
        if k >= out.len() {
            let ghost before = label_views(out@);
            out.push(l.duplicate());
            proof {
                assert(label_views(out@) =~= before.push(l@));
            }
        }
        i += 1;
    }
    proof {
        assert(cv.take(i as int) =~= cv);
    }
    out
}

/// Whether a form is the label form over a task of `m`.
pub open spec fn labels_form_in(m: Model) -> spec_fn(Modal, Task) -> bool {
    |f: Modal, t: Task| labels_form(f, label_views(m.data.labels@), t)
}

/// Open the label form over the selected task.
pub fn set_labels(model: &mut Model) -> (effects: Vec<Effect>)
    ensures
        effects@.len() == 0,
        task_form(*old(model), *final(model), labels_form_in(*old(model))),
{
    proof {
        if let Some(id) = model.list.selected {
            lemma_first_where(model.data.tasks@, task_with_id(id));
        }
    }
    let form = match model.selected_task() {
        Some(task) => {
            let labels = pool_with(&model.data.labels, &task.labels);
            let mut held: Vec<i64> = Vec::new();
            let mut i: usize = 0;
            while i < task.labels.len()
                invariant
                    i <= task.labels@.len(),
                    held@ == task.labels@.take(i as int).map_values(|l: Label| l.id),
                decreases task.labels.len() - i,
            {
                held.push(task.labels[i].id);
                proof {
                    assert(held@ =~= task.labels@.take(i + 1).map_values(|l: Label| l.id));
                }
                i += 1;
            }
            proof {
                assert(task.labels@.take(i as int) =~= task.labels@);
            }
            Some(LabelsState::new(labels, held))
        },
        None => None,
    };
    match form {
        Some(s) => {
            open(model, Modal::Labels(s));
            Vec::new()
        },
        None => nothing_selected(model),
    }
}

/// Quick-action rows as values.
pub open spec fn row_views(rows: Seq<(char, String)>) -> Seq<(char, Seq<char>)> {
    rows.map_values(|r: (char, String)| (r.0, r.1@))
}

/// What the quick-action menu prints beside a key.
pub open spec fn quick_doc(kind: QuickActionKind) -> Seq<char> {
    match kind {
        QuickActionKind::Project(name) => "Move to "@ + name@,
        QuickActionKind::Priority(v) => "Priority "@ + decimal(v as nat) + " \u{2014} "@
            + crate::rows::priority_word(v as i64),
        QuickActionKind::Label(name) => "Toggle *"@ + name@,
    }
}

/// The menu's rows for the configured quick actions, in order.
pub open spec fn menu_rows(actions: Seq<QuickAction>) -> Seq<(char, Seq<char>)> {
    actions.map_values(|a: QuickAction| (a.key, quick_doc(a.kind)))
}

/// What the quick-action menu prints beside a key.
fn quick_doc_of(kind: &QuickActionKind) -> (s: String)
    ensures
        s@ == quick_doc(*kind),
{
    proof {
        reveal_strlit("Move to ");
        reveal_strlit("Priority ");
        reveal_strlit(" \u{2014} ");
        reveal_strlit("Toggle *");
    }
    let mut w: Vec<char> = match kind {
        QuickActionKind::Project(_) => chars_of("Move to "),
        QuickActionKind::Priority(_) => chars_of("Priority "),
        QuickActionKind::Label(_) => chars_of("Toggle *"),
    };
    match kind {
        QuickActionKind::Project(name) => crate::text::push_all(&mut w, chars_of(name.as_str()).as_slice()),
        QuickActionKind::Priority(v) => {
            crate::text::push_all(&mut w, decimal_of(*v as u64).as_slice());
            crate::text::push_all(&mut w, chars_of(" \u{2014} ").as_slice());
            crate::text::push_all(&mut w, chars_of(crate::rows::priority_name(*v as i64)).as_slice());
        },
        QuickActionKind::Label(name) => crate::text::push_all(&mut w, chars_of(name.as_str()).as_slice()),
    }
    let r = crate::text::string_of(w.as_slice());
    proof {
        assert(r@ =~= quick_doc(*kind));
    }
    r
}

/// Whether `after` is what asking for the quick-action menu makes of `before`: told
/// there is no task, or that none are configured, or the menu open over the configured
/// rows.
pub open spec fn quick_menu_opened(before: Model, after: Model) -> bool {
    if selection_of(before) is None {
        told(before, after, "No task selected"@, Level::Info)
    } else if before.quick_actions@.len() == 0 {
        told(
            before,
            after,
            "No quick actions configured \u{2014} see quick_actions in the config"@,
            Level::Info,
        )
    } else {
        &&& pushed(before, after)
        &&& match after.modals@.last() {
            Modal::QuickActions(q) => row_views(q.rows@) == menu_rows(before.quick_actions@),
            _ => false,
        }
    }
}

/// Open the quick-action menu over the selected task.
pub fn quick_action(model: &mut Model) -> (effects: Vec<Effect>)
    ensures
        effects@.len() == 0,
        quick_menu_opened(*old(model), *final(model)),
{
    proof {
        if let Some(id) = model.list.selected {
            lemma_first_where(model.data.tasks@, task_with_id(id));
        }
    }
    if model.selected_task().is_none() {
        return nothing_selected(model);
    }
    if model.quick_actions.len() == 0 {
        model.toast(
            Toast::info(String::from_str("No quick actions configured \u{2014} see quick_actions in the config")),
        );
        proof {
            reveal_strlit("No quick actions configured \u{2014} see quick_actions in the config");
        }
        return Vec::new();
    }
    let mut rows: Vec<(char, String)> = Vec::new();
    let mut i: usize = 0;
    while i < model.quick_actions.len()
        invariant
            i <= model.quick_actions@.len(),
            row_views(rows@) == menu_rows(model.quick_actions@.take(i as int)),
        decreases model.quick_actions.len() - i,
    {
        let key = model.quick_actions[i].key;
        let doc = quick_doc_of(&model.quick_actions[i].kind);
        let ghost before = row_views(rows@);
        rows.push((key, doc));
        proof {
            let a = model.quick_actions@[i as int];
            assert(row_views(rows@) =~= before.push((key, quick_doc(a.kind))));
            assert(menu_rows(model.quick_actions@.take(i + 1)) =~= menu_rows(
                model.quick_actions@.take(i as int),
            ).push((a.key, quick_doc(a.kind))));
        }
        i += 1;
    }
    proof {
        assert(model.quick_actions@.take(i as int) =~= model.quick_actions@);
    }
    open(model, Modal::QuickActions(QuickActionsState::new(rows)));
    Vec::new()
}

/// Whether `after` is `before` with the preview pinned open and focused, when a task is
/// selected, and unchanged otherwise.
pub open spec fn task_opened(before: Model, after: Model) -> bool {
    if selection_of(before) is Some {
        after == (Model {
            panes: Panes { preview: PaneState::Shown, ..before.panes },
            focus: Focus::Preview,
            ..before
        })
    } else {
        after == before
    }
}

/// Open the selected task in the preview, and hand it the keyboard.
pub fn open_task(model: &mut Model)
    ensures
        task_opened(*old(model), *final(model)),
{
    proof {
        if let Some(id) = model.list.selected {
            lemma_first_where(model.data.tasks@, task_with_id(id));
        }
    }
    if model.selected_task().is_some() {
        model.panes.preview = PaneState::Shown;
        model.focus = Focus::Preview;
    }
}

/// The change that marks task `t` done, or not done, at `now`.
pub open spec fn done_change(t: TaskView, now: i64) -> MutationView {
    MutationView::UpdateTask {
        before: t,
        after: TaskView {
            done: !t.done,
            done_at: if !t.done {
                Some(now)
            } else {
                None
            },
            ..t
        },
    }
}

/// Whether `after` and `es` are `before` once a change was made, with `words` said first at
/// `level`: the change to the selected task `change` names, or a word that none is
/// selected.
pub open spec fn changed_selected(
    before: Model,
    after: Model,
    es: Seq<EffectView>,
    g: Geometry,
    offset: i32,
    change: spec_fn(TaskView) -> MutationView,
    words: spec_fn(TaskView) -> Seq<char>,
    level: Level,
) -> bool {
    match selection_of(before) {
        None => told(before, after, "No task selected"@, Level::Info) && es.len() == 0,
        Some(k) => {
            let t = before.data.tasks@[k]@;
            &&& toast_view(after.status.toast) == Some((words(t), level, TOAST_LIFETIME))
            &&& edited(toasted(before, after.status.toast), after, es, change(t), g, offset)
        },
    }
}

/// The change that marks a task done, or not done, at `now`.
pub open spec fn done_change_at(now: i64) -> spec_fn(TaskView) -> MutationView {
    |t: TaskView| done_change(t, now)
}

/// What marking a task done, or not, says.
pub open spec fn done_words() -> spec_fn(TaskView) -> Seq<char> {
    |t: TaskView| if !t.done {
        "Done"@
    } else {
        "Not done"@
    }
}

/// Mark the selected task done, or not done again.
pub fn toggle_done(model: &mut Model, geometry: &Geometry, offset: i32) -> (effects: Vec<Effect>)
    requires
        steady_in(*old(model), *geometry, offset),
    ensures
        changed_selected(
            *old(model),
            *final(model),
            effect_views(effects@),
            *geometry,
            offset,
            done_change_at(old(model).now),
            done_words(),
            Level::Info,
        ),
{
    proof {
        if let Some(id) = model.list.selected {
            lemma_first_where(model.data.tasks@, task_with_id(id));
        }
    }
    let now = model.now;
    let change = match model.selected_task() {
        Some(task) => {
            let before = task.duplicate();
            let mut after = task.duplicate();
            after.done = !after.done;
            after.done_at = if after.done {
                Some(now)
            } else {
                None
            };
            Some(Mutation::UpdateTask { before, after })
        },
        None => None,
    };
    match change {
        Some(x) => {
            let done = match &x {
                Mutation::UpdateTask { after, .. } => after.done,
                _ => false,
            };
            proof {
                reveal_strlit("Done");
                reveal_strlit("Not done");
            }
            let words = if done {
                String::from_str("Done")
            } else {
                String::from_str("Not done")
            };
            model.toast(Toast::info(words));
            edit(model, x, geometry, offset)
        },
        None => nothing_selected(model),
    }
}

/// What a delete says: the title cut to forty columns, and the key that takes it back.
pub open spec fn deleted_words(t: TaskView) -> Seq<char> {
    "Deleted \""@ + truncated(t.title, 40) + "\" \u{2014} u to undo"@
}

/// The change that deletes task `t`.
pub open spec fn delete_change(t: TaskView) -> MutationView {
    MutationView::DeleteTask { before: t }
}

/// The change that deletes a task.
pub open spec fn delete_change_of() -> spec_fn(TaskView) -> MutationView {
    |t: TaskView| delete_change(t)
}

/// What deleting a task says.
pub open spec fn deleted_words_of() -> spec_fn(TaskView) -> Seq<char> {
    |t: TaskView| deleted_words(t)
}

/// Delete the selected task, with no question asked: undo is the way back.
pub fn delete_task(model: &mut Model, geometry: &Geometry, offset: i32) -> (effects: Vec<Effect>)
    requires
        steady_in(*old(model), *geometry, offset),
    ensures
        changed_selected(
            *old(model),
            *final(model),
            effect_views(effects@),
            *geometry,
            offset,
            delete_change_of(),
            deleted_words_of(),
            Level::Warning,
        ),
{
    proof {
        if let Some(id) = model.list.selected {
            lemma_first_where(model.data.tasks@, task_with_id(id));
        }
    }
    let change = match model.selected_task() {
        Some(task) => {
            let mut words = chars_of("Deleted \"");
            let cut = truncate(task.title.as_str(), 40);
            crate::text::push_all(&mut words, chars_of(cut.as_str()).as_slice());
            crate::text::push_all(&mut words, chars_of("\" \u{2014} u to undo").as_slice());
            proof {
                reveal_strlit("Deleted \"");
                reveal_strlit("\" \u{2014} u to undo");
                assert(words@ =~= deleted_words(task@));
            }
            Some((crate::text::string_of(words.as_slice()), Mutation::DeleteTask { before: task.duplicate() }))
        },
        None => None,
    };
    match change {
        Some((words, x)) => {
            model.toast(Toast::warning(words));
            edit(model, x, geometry, offset)
        },
        None => nothing_selected(model),
    }
}

/// Whether `after` and `es` are `before` once a sync was asked for, the full one when
/// `full`: sync working from the start, said in `words`, and everything read again before
/// the sync itself.
pub open spec fn synced(before: Model, after: Model, es: Seq<EffectView>, full: bool) -> bool {
    let m = reloading(
        Model { status: Status { sync: after.status.sync, toast: after.status.toast, ..before.status }, ..before },
    );
    &&& after == m
    &&& (match after.status.sync {
        SyncStatus::Working { detail } => detail@ == "starting"@,
        _ => false,
    })
    &&& toast_view(after.status.toast) == Some(
        (
            if full {
                "Fetching everything"@
            } else {
                "Syncing changes \u{2014} R for everything"@
            },
            Level::Info,
            TOAST_LIFETIME,
        ),
    )
    &&& es == seq![
        load_of(m),
        EffectView::LoadProjects,
        EffectView::LoadLabels,
        EffectView::LoadCounts,
        EffectView::LoadPending,
        if full {
            EffectView::SyncFull
        } else {
            EffectView::SyncNow
        },
    ]
}

/// Read the store at once, then sync: what changed, or, when `full`, everything.
pub fn sync(model: &mut Model, full: bool) -> (effects: Vec<Effect>)
    ensures
        synced(*old(model), *final(model), effect_views(effects@), full),
{
    proof {
        reveal_strlit("starting");
        reveal_strlit("Fetching everything");
        reveal_strlit("Syncing changes \u{2014} R for everything");
    }
    model.status.sync = SyncStatus::Working { detail: String::from_str("starting") };
    let words = if full {
        String::from_str("Fetching everything")
    } else {
        String::from_str("Syncing changes \u{2014} R for everything")
    };
    model.toast(Toast::info(words));
    let ghost before = *model;
    let mut effects = reload_everything(model);
    let ghost es = effect_views(effects@);
    crate::update::push_effect(
        &mut effects,
        if full {
            Effect::SyncFull
        } else {
            Effect::SyncNow
        },
    );
    proof {
        assert(effect_views(effects@) =~= seq![
            load_of(reloading(before)),
            EffectView::LoadProjects,
            EffectView::LoadLabels,
            EffectView::LoadCounts,
            EffectView::LoadPending,
            if full {
                EffectView::SyncFull
            } else {
                EffectView::SyncNow
            },
        ]);
    }
    effects
}

/// Whether `n` rows of `m`'s list fit its body from where it is scrolled: a page.
pub open spec fn paged(m: Model, g: Geometry, offset: i32, n: int) -> bool {
    forall|ctx: RowContext| #[trigger] laid_out(m, offset, ctx) ==> fits(
        list_heights(m, frames_of(m, g), ctx),
        m.list.offset as int,
        body_rows(frames_of(m, g)) as int,
        n,
    )
}

/// A page as a distance to move, held within what an `i64` counts.
pub open spec fn page_delta(n: int) -> i64 {
    if n <= i64::MAX {
        n as i64
    } else {
        i64::MAX
    }
}

/// How many tasks are on screen from where the list is scrolled: a page motion moves by
/// tasks, not by lines, since a wrapped row takes more than one.
pub fn page(model: &Model, geometry: &Geometry, offset: i32) -> (n: usize)
    requires
        steady_in(*model, *geometry, offset),
    ensures
        paged(*model, *geometry, offset, n as int),
{
    let f = frames(model, geometry);
    let columns = crate::update::measure_active(model, f.list.width);
    let context = RowContext {
        projects: model.data.projects.as_slice(),
        theme: model.theme,
        now: model.now,
        offset,
    };
    let body = if f.list.height >= crate::update::LIST_HEADING_HEIGHT {
        f.list.height - crate::update::LIST_HEADING_HEIGHT
    } else {
        0
    };
    let n = fit(model.data.tasks.as_slice(), columns.as_slice(), context, model.list.offset, body);
    proof {
        let canon = crate::update::canonical(crate::update::layout_columns(*model), f.list.width);
        assert forall|ctx: RowContext| #[trigger] laid_out(*model, offset, ctx) implies fits(
            list_heights(*model, f, ctx),
            model.list.offset as int,
            body_rows(f) as int,
            n as int,
        ) by {
            crate::update::lemma_same_heights(model.data.tasks@, columns@, canon, context, ctx);
        }
    }
    n
}

/// What `action` makes of `before`, arm by arm.
pub open spec fn acted(
    before: Model,
    after: Model,
    es: Seq<EffectView>,
    action: Action,
    g: Geometry,
    offset: i32,
) -> bool {
    let f = frames_of(before, g);
    let quiet = es.len() == 0;
    match action {
        Action::MoveDown => stepped(before, after, es, g, offset, 1i64),
        Action::MoveUp => stepped(before, after, es, g, offset, -1i64),
        Action::PageDown => exists|n: int|
            #[trigger] paged(before, g, offset, n) && stepped(before, after, es, g, offset, page_delta(n)),
        Action::PageUp => exists|n: int|
            #[trigger] paged(before, g, offset, n) && stepped(
                before,
                after,
                es,
                g,
                offset,
                (-(page_delta(n) as int)) as i64,
            ),
        Action::Top => jumped(before, after, es, g, offset, true),
        Action::Bottom => jumped(before, after, es, g, offset, false),
        Action::FocusNext => quiet && after == (Model {
            focus: cycled(focus_ring(sidebar_on(f), preview_on(f)), before.focus, true),
            ..before
        }),
        Action::FocusPrevious => quiet && after == (Model {
            focus: cycled(focus_ring(sidebar_on(f), preview_on(f)), before.focus, false),
            ..before
        }),
        Action::Back => backed(before, after, es),
        Action::ExpandOrOpen => expanded_or_opened(before, after, es, f),
        Action::CollapseOrParent => collapsed_or_parented(before, after, es, f),
        Action::OpenProject => {
            let t = before.sidebar.selected;
            let m = reloading(showing(targeted(before, f, t), scope_of(t)));
            &&& after == m
            &&& es == seq![load_of(m), EffectView::RememberProject(remembered(scope_of(t)))]
        },
        Action::OpenTask => quiet && task_opened(before, after),
        Action::ToggleSidebar => quiet && sidebar_flipped(before, after, g),
        Action::TogglePreview => quiet && preview_flipped(before, after, g),
        Action::ToggleDoneTasks => done_tasks_flipped(before, after, es),
        Action::NextLayout => layout_switched(before, after, es, 1i64),
        Action::PreviousLayout => layout_switched(before, after, es, -1i64),
        Action::Search => quiet && search_opened(before, after),
        Action::GotoProject => quiet && picker_opened(
            before,
            after,
            PickerKind::Project,
            sorted_by_title(project_candidates(before.data.projects@)),
        ),
        Action::GotoLabel => quiet && picker_opened(
            before,
            after,
            PickerKind::Label,
            sorted_by_title(label_candidates(before.data.labels@)),
        ),
        Action::AddTask => quiet && add_opened(before, after),
        Action::EditTask => quiet && task_form(before, after, edit_form_in(before)),
        Action::ToggleDone => changed_selected(
            before,
            after,
            es,
            g,
            offset,
            done_change_at(before.now),
            done_words(),
            Level::Info,
        ),
        Action::SetPriority => quiet && task_form(before, after, priority_form_of()),
        Action::SetDue => quiet && task_form(before, after, due_form_of()),
        Action::MoveTask => quiet && match selection_of(before) {
            None => told(before, after, "No task selected"@, Level::Info),
            Some(k) => picker_opened(
                before,
                after,
                PickerKind::MoveProject,
                sorted_by_title(move_candidates(before.data.projects@, before.data.tasks@[k].project_id)),
            ),
        },
        Action::SetLabels => quiet && task_form(before, after, labels_form_in(before)),
        Action::QuickAction => quiet && quick_menu_opened(before, after),
        Action::DeleteTask => changed_selected(
            before,
            after,
            es,
            g,
            offset,
            delete_change_of(),
            deleted_words_of(),
            Level::Warning,
        ),
        Action::Undo => undone(before, after, es, g, offset),
        Action::Redo => redone(before, after, es, g, offset),
        Action::SyncNow => synced(before, after, es, false),
        Action::SyncFull => synced(before, after, es, true),
        Action::Help => quiet && help_opened(before, after),
        Action::CommandPalette => quiet && picker_opened(
            before,
            after,
            PickerKind::Command,
            palette(focus_context(before.focus)),
        ),
        Action::Quit => after == (Model { running: false, ..before }) && es == seq![EffectView::Quit],
    }
}

/// Perform an action: every key of the keymap, and every command of the palette, ends
/// here.
pub fn act(model: &mut Model, action: Action, geometry: &Geometry, offset: i32) -> (effects: Vec<Effect>)
    requires
        steady_in(*old(model), *geometry, offset),
        roomy(*old(model)),
        stacks_dated(*old(model)),
    ensures
        acted(*old(model), *final(model), effect_views(effects@), action, *geometry, offset),
{
    let ghost before = *model;
    match action {
        Action::MoveDown => step(model, geometry, offset, 1),
        Action::MoveUp => step(model, geometry, offset, -1),
        Action::PageDown => {
            let n = page(model, geometry, offset);
            let delta: i64 = if (n as u128) <= 0x7fff_ffff_ffff_ffffu128 {
                n as i64
            } else {
                0x7fff_ffff_ffff_ffff
            };
            assert(paged(before, *geometry, offset, n as int));
            step(model, geometry, offset, delta)
        },
        Action::PageUp => {
            let n = page(model, geometry, offset);
            let delta: i64 = if (n as u128) <= 0x7fff_ffff_ffff_ffffu128 {
                n as i64
            } else {
                0x7fff_ffff_ffff_ffff
            };
            assert(paged(before, *geometry, offset, n as int));
            step(model, geometry, offset, -delta)
        },
        Action::Top => jump(model, geometry, offset, true),
        Action::Bottom => jump(model, geometry, offset, false),
        Action::FocusNext => {
            let f = frames(model, geometry);
            cycle_focus(model, f, true);
            Vec::new()
        },
        Action::FocusPrevious => {
            let f = frames(model, geometry);
            cycle_focus(model, f, false);
            Vec::new()
        },
        Action::Back => back(model),
        Action::ExpandOrOpen => {
            let f = frames(model, geometry);
            expand_or_open(model, f)
        },
        Action::CollapseOrParent => {
            let f = frames(model, geometry);
            collapse_or_parent(model, f)
        },
        Action::OpenProject => {
            let f = frames(model, geometry);
            let target = model.sidebar.selected;
            select_target(model, f, target)
        },
        Action::OpenTask => {
            open_task(model);
            Vec::new()
        },
        Action::ToggleSidebar => {
            toggle_sidebar(model, geometry);
            Vec::new()
        },
        Action::TogglePreview => {
            toggle_preview(model, geometry);
            Vec::new()
        },
        Action::ToggleDoneTasks => toggle_done_tasks(model),
        Action::NextLayout => switch_layout(model, 1),
        Action::PreviousLayout => switch_layout(model, -1),
        Action::Search => {
            search(model);
            Vec::new()
        },
        Action::GotoProject => {
            goto_project(model);
            Vec::new()
        },
        Action::GotoLabel => {
            goto_label(model);
            Vec::new()
        },
        Action::AddTask => {
            add_task(model);
            Vec::new()
        },
        Action::EditTask => edit_task(model),
        Action::ToggleDone => toggle_done(model, geometry, offset),
        Action::SetPriority => set_priority(model),
        Action::SetDue => set_due(model),
        Action::MoveTask => move_task(model),
        Action::SetLabels => set_labels(model),
        Action::QuickAction => quick_action(model),
        Action::DeleteTask => delete_task(model, geometry, offset),
        Action::Undo => undo(model, geometry, offset),
        Action::Redo => redo(model, geometry, offset),
        Action::SyncNow => sync(model, false),
        Action::SyncFull => sync(model, true),
        Action::Help => {
            help(model);
            Vec::new()
        },
        Action::CommandPalette => {
            command_palette(model);
            Vec::new()
        },
        Action::Quit => quit(model),
    }
}

/// A key that acts on the selected task, pressed with none selected, says so and changes
/// nothing else.
pub proof fn law_a_task_key_needs_a_task(
    before: Model,
    after: Model,
    es: Seq<EffectView>,
    action: Action,
    g: Geometry,
    offset: i32,
)
    requires
        acted(before, after, es, action, g, offset),
        selection_of(before) is None,
        action == Action::DeleteTask || action == Action::EditTask || action == Action::ToggleDone
            || action == Action::SetPriority || action == Action::SetDue || action == Action::MoveTask
            || action == Action::SetLabels || action == Action::QuickAction,
    ensures
        told(before, after, "No task selected"@, Level::Info),
        es.len() == 0,
{
}

/// Whether the change a mutation writes has dates the calendar reads.
fn mutation_reads(m: &Mutation) -> (r: bool)
    ensures
        r == mutation_dated(m@),
{
    match m {
        Mutation::CreateTask { task } => crate::grid::sanely_dated(task),
        Mutation::UpdateTask { before, after } => crate::grid::sanely_dated(before)
            && crate::grid::sanely_dated(after),
        Mutation::DeleteTask { before } => crate::grid::sanely_dated(before),
        _ => true,
    }
}

/// Whether every change on a stack has dates the calendar reads.
fn stack_reads(stack: &Vec<Mutation>) -> (r: bool)
    ensures
        r == (forall|k: int| 0 <= k < stack@.len() ==> mutation_dated(#[trigger] stack@[k]@)),
{
    let mut k: usize = 0;
    while k < stack.len()
        invariant
            k <= stack@.len(),
            forall|j: int| 0 <= j < k ==> mutation_dated(#[trigger] stack@[j]@),
        decreases stack.len() - k,
    {
        if !mutation_reads(&stack[k]) {
            return false;
        }
        k += 1;
    }
    true
}

/// Whether the model can be laid out in `frames`.
fn steady_at(model: &Model, frames: crate::update::Frames, offset: i32) -> (r: bool)
    ensures
        r == crate::update::steady(*model, frames, offset),
{
    let mut k: usize = 0;
    while k < model.data.tasks.len()
        invariant
            k <= model.data.tasks@.len(),
            forall|j: int| 0 <= j < k ==> crate::grid::dated_sanely(#[trigger] model.data.tasks@[j]@),
        decreases model.data.tasks.len() - k,
    {
        if !crate::grid::sanely_dated(&model.data.tasks[k]) {
            return false;
        }
        k += 1;
    }
    let columns = match model.layout() {
        Some(layout) => crate::rows::measurable(layout, frames.list.width),
        None => crate::rows::measurable(&crate::update::fallback_layout(), frames.list.width),
    };
    crate::grid::on_the_calendar(model.now) && -86_400 < offset && offset < 86_400 && columns
        && frames.list.height <= 65535 - crate::rows::MAX_ROW_LINES && crate::sidebar::can_draw(
        &model.data.projects,
        &model.data.counts,
    )
}

/// Whether the model can be laid out whichever panes are wanted.
pub fn is_steady(model: &Model, geometry: &Geometry, offset: i32) -> (r: bool)
    ensures
        r == steady_in(*model, *geometry, offset),
{
    steady_at(model, geometry.neither, offset) && steady_at(model, geometry.sidebar, offset)
        && steady_at(model, geometry.preview, offset) && steady_at(model, geometry.both, offset)
}

/// Whether [`act`] can be asked for: the model lays out whichever panes are wanted, the
/// forms' texts are shorter than the numbers count, and every change on the undo and
/// redo stacks has dates the calendar reads.
pub fn can_act(model: &Model, geometry: &Geometry, offset: i32) -> (r: bool)
    ensures
        r == (steady_in(*model, *geometry, offset) && roomy(*model) && stacks_dated(*model)),
{
    steady_at(model, geometry.neither, offset) && steady_at(model, geometry.sidebar, offset)
        && steady_at(model, geometry.preview, offset) && steady_at(model, geometry.both, offset)
        && is_roomy(model) && stack_reads(&model.undo) && stack_reads(&model.redo)
}

/// Perform an action when the model is one [`act`] can be asked for, and otherwise
/// leave it as it is and answer `None`.
pub fn try_act(model: &mut Model, action: Action, geometry: &Geometry, offset: i32) -> (r: Option<
    Vec<Effect>,
>)
    ensures
        match r {
            Some(effects) => steady_in(*old(model), *geometry, offset) && roomy(*old(model))
                && stacks_dated(*old(model)) && acted(
                *old(model),
                *final(model),
                effect_views(effects@),
                action,
                *geometry,
                offset,
            ),
            None => !(steady_in(*old(model), *geometry, offset) && roomy(*old(model)) && stacks_dated(
                *old(model),
            )) && *final(model) == *old(model),
        },
{
    if can_act(model, geometry, offset) {
        Some(act(model, action, geometry, offset))
    } else {
        None
    }
}

/// Whether `after` and `es` are `before` once the selected task was changed to what
/// `change` makes of it, with `words` said of the result: a word that none is selected;
/// a word that nothing changed when the result is the task as it was; otherwise the edit.
pub open spec fn selected_changed_to(
    before: Model,
    after: Model,
    es: Seq<EffectView>,
    g: Geometry,
    offset: i32,
    change: spec_fn(TaskView) -> TaskView,
    words: spec_fn(TaskView) -> Seq<char>,
) -> bool {
    match selection_of(before) {
        None => told(before, after, "No task selected"@, Level::Info) && es.len() == 0,
        Some(k) => {
            let t = before.data.tasks@[k]@;
            let x = change(t);
            if x == t {
                told(before, after, "Nothing changed"@, Level::Info) && es.len() == 0
            } else {
                &&& toast_view(after.status.toast) == Some((words(x), Level::Info, TOAST_LIFETIME))
                &&& edited(
                    toasted(before, after.status.toast),
                    after,
                    es,
                    MutationView::UpdateTask { before: t, after: x },
                    g,
                    offset,
                )
            }
        },
    }
}

/// A task with its priority set to `value`.
pub open spec fn prioritised_to(value: i64) -> spec_fn(TaskView) -> TaskView {
    |t: TaskView| TaskView { priority: value, ..t }
}

/// What setting a priority says.
pub open spec fn priority_words() -> spec_fn(TaskView) -> Seq<char> {
    |t: TaskView| if t.priority == 0 {
        "Priority cleared"@
    } else {
        "Priority "@ + crate::text::signed_decimal(t.priority as int) + " \u{2014} "@
            + crate::rows::priority_word(t.priority)
    }
}

/// Give the selected task the priority `value`.
pub fn set_priority_to(model: &mut Model, value: i64, geometry: &Geometry, offset: i32) -> (effects: Vec<
    Effect,
>)
    requires
        steady_in(*old(model), *geometry, offset),
    ensures
        selected_changed_to(
            *old(model),
            *final(model),
            effect_views(effects@),
            *geometry,
            offset,
            prioritised_to(value),
            priority_words(),
        ),
{
    proof {
        if let Some(id) = model.list.selected {
            lemma_first_where(model.data.tasks@, task_with_id(id));
        }
        reveal_strlit("Priority cleared");
        reveal_strlit("Priority ");
        reveal_strlit(" \u{2014} ");
        reveal_strlit("Nothing changed");
    }
    let change = match model.selected_task() {
        Some(task) => if task.priority == value {
            None
        } else {
            let before = task.duplicate();
            let mut after = task.duplicate();
            after.priority = value;
            Some(Mutation::UpdateTask { before, after })
        },
        None => {
            return nothing_selected(model);
        },
    };
    match change {
        None => {
            model.toast(Toast::info(String::from_str("Nothing changed")));
            Vec::new()
        },
        Some(x) => {
            let words = if value == 0 {
                String::from_str("Priority cleared")
            } else {
                let mut w = chars_of("Priority ");
                crate::text::push_all(&mut w, crate::text::signed_decimal_of(value).as_slice());
                crate::text::push_all(&mut w, chars_of(" \u{2014} ").as_slice());
                crate::text::push_all(&mut w, chars_of(crate::rows::priority_name(value)).as_slice());
                let r = crate::text::string_of(w.as_slice());
                proof {
                    assert(r@ =~= "Priority "@ + crate::text::signed_decimal(value as int) + " \u{2014} "@
                        + crate::rows::priority_word(value));
                }
                r
            };
            model.toast(Toast::info(words));
            edit(model, x, geometry, offset)
        },
    }
}

/// A task filed in project `project`.
pub open spec fn filed_in(project: i64) -> spec_fn(TaskView) -> TaskView {
    |t: TaskView| TaskView { project_id: project, ..t }
}

/// What a project is called in a message: its title, or `#` and its id when the list does
/// not hold it.
pub open spec fn project_name(m: Model, id: i64) -> Seq<char> {
    let k = first_where(m.data.projects@, project_with_id(id));
    if k < m.data.projects@.len() {
        m.data.projects@[k].title@
    } else {
        seq!['#'] + crate::text::signed_decimal(id as int)
    }
}

/// What moving a task into `name` says.
pub open spec fn moved_words(name: Seq<char>) -> spec_fn(TaskView) -> Seq<char> {
    |t: TaskView| "Moved to "@ + name
}

/// Move the selected task into project `project`.
pub fn move_to(model: &mut Model, project: i64, geometry: &Geometry, offset: i32) -> (effects: Vec<Effect>)
    requires
        steady_in(*old(model), *geometry, offset),
    ensures
        selected_changed_to(
            *old(model),
            *final(model),
            effect_views(effects@),
            *geometry,
            offset,
            filed_in(project),
            moved_words(project_name(*old(model), project)),
        ),
{
    proof {
        if let Some(id) = model.list.selected {
            lemma_first_where(model.data.tasks@, task_with_id(id));
        }
        lemma_first_where(model.data.projects@, project_with_id(project));
        reveal_strlit("Moved to ");
        reveal_strlit("Nothing changed");
    }
    let mut words = chars_of("Moved to ");
    match model.project(project) {
        Some(p) => crate::text::push_all(&mut words, chars_of(p.title.as_str()).as_slice()),
        None => {
            words.push('#');
            crate::text::push_all(&mut words, crate::text::signed_decimal_of(project).as_slice());
        },
    }
    let words = crate::text::string_of(words.as_slice());
    proof {
        assert(words@ =~= "Moved to "@ + project_name(*model, project));
    }
    let change = match model.selected_task() {
        Some(task) => if task.project_id == project {
            None
        } else {
            let before = task.duplicate();
            let mut after = task.duplicate();
            after.project_id = project;
            Some(Mutation::UpdateTask { before, after })
        },
        None => {
            return nothing_selected(model);
        },
    };
    match change {
        None => {
            model.toast(Toast::info(String::from_str("Nothing changed")));
            Vec::new()
        },
        Some(x) => {
            model.toast(Toast::info(words));
            edit(model, x, geometry, offset)
        },
    }
}

/// Whether `after` and `es` are `before` once the search was set to `text`, trimmed, or
/// cleared when that leaves nothing, and the list asked for again.
pub open spec fn searched(before: Model, after: Model, es: Seq<EffectView>, text: Seq<char>) -> bool {
    let m = Model { query: crate::model::Query { search: after.query.search, ..before.query }, ..before };
    &&& after == reloading(m)
    &&& (after.query.search is Some) == (crate::text::trimmed(text).len() > 0)
    &&& or_empty(after.query.search) == (if crate::text::trimmed(text).len() > 0 {
        crate::text::trimmed(text)
    } else {
        Seq::empty()
    })
    &&& es == seq![load_of(reloading(m))]
}

/// Filter the list by `text`, trimmed; an empty search clears the filter.
pub fn search_for(model: &mut Model, text: &str) -> (effects: Vec<Effect>)
    ensures
        searched(*old(model), *final(model), effect_views(effects@), text@),
{
    let t = crate::text::trim(chars_of(text).as_slice());
    model.query.search = if t.len() > 0 {
        Some(crate::text::string_of(t.as_slice()))
    } else {
        None
    };
    crate::update::reload_tasks(model)
}

/// The label a create asks for: a title, no colour, no id yet.
pub open spec fn new_label(title: Seq<char>) -> LabelView {
    LabelView { id: 0, title, hex_color: Seq::empty() }
}

/// Whether `after` and `es` are `before` once the label `title` was created: the change
/// made, the creation said, and the labels read again.
pub open spec fn label_created(
    before: Model,
    after: Model,
    es: Seq<EffectView>,
    title: Seq<char>,
    g: Geometry,
    offset: i32,
) -> bool {
    &&& es.len() == 3
    &&& edited(
        before,
        toasted(after, before.status.toast),
        es.take(2),
        MutationView::CreateLabel { label: new_label(title) },
        g,
        offset,
    )
    &&& toast_view(after.status.toast) == Some(
        ("Created label "@ + truncated(title, 40), Level::Info, TOAST_LIFETIME),
    )
    &&& es[2] == EffectView::LoadLabels
}

/// Queue the label the label form asked for; the reload that follows tells the form the
/// id it was given.
pub fn create_label(model: &mut Model, title: String, geometry: &Geometry, offset: i32) -> (effects: Vec<
    Effect,
>)
    requires
        steady_in(*old(model), *geometry, offset),
    ensures
        label_created(*old(model), *final(model), effect_views(effects@), title@, *geometry, offset),
{
    let mut words = chars_of("Created label ");
    let cut = truncate(title.as_str(), 40);
    crate::text::push_all(&mut words, chars_of(cut.as_str()).as_slice());
    let words = crate::text::string_of(words.as_slice());
    proof {
        reveal_strlit("Created label ");
        assert(words@ =~= "Created label "@ + truncated(title@, 40));
    }
    let label = Label { id: 0, title, hex_color: String::new() };
    proof {
        assert(label@ == new_label(label.title@));
    }
    let mut effects = edit(model, Mutation::CreateLabel { label }, geometry, offset);
    let ghost edited_model = *model;
    let ghost two = effect_views(effects@);
    model.toast(Toast::info(words));
    crate::update::push_effect(&mut effects, Effect::LoadLabels);
    proof {
        assert(effect_views(effects@).take(2) =~= two);
        assert(toasted(*model, old(model).status.toast) == edited_model);
    }
    effects
}

/// Whether `after` and `es` answer what a form submitted: `Some` for what this function
/// carries out, and `None`, with nothing changed, for the three submissions that need what
/// the quick-add parser made of the typed text: a new task in quick-add syntax, a filled-in
/// edit form and a typed due date. The last two, given the parser's answer, are carried
/// out by [`crate::editing::apply_edit`] and [`crate::editing::set_due_to`].
pub open spec fn submitted(
    before: Model,
    after: Model,
    es: Option<Seq<EffectView>>,
    sub: SubmissionView,
    g: Geometry,
    offset: i32,
) -> bool {
    match sub {
        SubmissionView::Search(text) => es matches Some(e) && searched(before, after, e, text),
        SubmissionView::Picked(Pick::Project(id)) => es matches Some(e) && {
            let m = reloading(crate::update::showing(before, crate::model::Scope::Project(id)));
            &&& after == m
            &&& e == seq![load_of(m), EffectView::RememberProject(Some(id))]
        },
        SubmissionView::Picked(Pick::Label(id)) => es matches Some(e) && {
            let m = reloading(crate::update::showing(before, crate::model::Scope::Label(id)));
            &&& after == m
            &&& e == seq![load_of(m), EffectView::RememberProject(None)]
        },
        SubmissionView::Picked(Pick::MoveTo(id)) => es matches Some(e) && selected_changed_to(
            before,
            after,
            e,
            g,
            offset,
            filed_in(id),
            moved_words(project_name(before, id)),
        ),
        SubmissionView::Picked(Pick::Command(a)) => es matches Some(e) && acted(before, after, e, a, g, offset),
        SubmissionView::Priority(v) => es matches Some(e) && selected_changed_to(
            before,
            after,
            e,
            g,
            offset,
            prioritised_to(v),
            priority_words(),
        ),
        SubmissionView::Labels(ids) => es matches Some(e) && labels_set(before, after, e, ids, g, offset),
        SubmissionView::CreateLabel(title) => es matches Some(e) && label_created(
            before,
            after,
            e,
            title,
            g,
            offset,
        ),
        SubmissionView::EditLabel(id) => es matches Some(e) && crate::label_flow::label_form_opened(
            before,
            after,
            e,
            id,
        ),
        SubmissionView::EditedLabel { before: l, title, hex_color } => es matches Some(e)
            && crate::label_flow::label_renamed(before, after, e, l, title, hex_color, g, offset),
        SubmissionView::QuickAction(i) => es matches Some(e) && crate::quick::quick_ran(
            before,
            after,
            e,
            i as int,
            g,
            offset,
        ),
        _ => es is None && after == before,
    }
}

/// Carry out what a form submitted, when the library can.
pub fn on_submit(model: &mut Model, submission: Submission, geometry: &Geometry, offset: i32) -> (effects:
    Option<Vec<Effect>>)
    requires
        steady_in(*old(model), *geometry, offset),
        roomy(*old(model)),
        stacks_dated(*old(model)),
    ensures
        submitted(
            *old(model),
            *final(model),
            match effects {
                Some(e) => Some(effect_views(e@)),
                None => None,
            },
            submission@,
            *geometry,
            offset,
        ),
{
    match submission {
        Submission::Search(text) => Some(search_for(model, text.as_str())),
        Submission::Picked(Pick::Project(id)) => Some(
            crate::update::show(model, crate::model::Scope::Project(id)),
        ),
        Submission::Picked(Pick::Label(id)) => Some(crate::update::show(model, crate::model::Scope::Label(id))),
        Submission::Picked(Pick::MoveTo(id)) => Some(move_to(model, id, geometry, offset)),
        Submission::Picked(Pick::Command(a)) => Some(act(model, a, geometry, offset)),
        Submission::Priority(v) => Some(set_priority_to(model, v, geometry, offset)),
        Submission::Labels(ids) => Some(set_labels_to(model, &ids, geometry, offset)),
        Submission::CreateLabel(title) => Some(create_label(model, title, geometry, offset)),
        Submission::EditLabel(id) => Some(crate::label_flow::open_label_form(model, id)),
        Submission::EditedLabel { before, title, hex_color } => Some(
            crate::label_flow::rename_label(model, *before, title, hex_color, geometry, offset),
        ),
        Submission::QuickAction(i) => Some(crate::quick::run_quick_action(model, i, geometry, offset)),
        _ => None,
    }
}

/// Whether the models `ms` and the cuts `cuts` in `es` trace the changes `xs` made one
/// after the other: each step from `ms[i]` to `ms[i + 1]` is [`edit`] making `xs[i]` and
/// asking for what `es` holds between the cuts.
pub open spec fn traced(
    ms: Seq<Model>,
    cuts: Seq<int>,
    es: Seq<EffectView>,
    xs: Seq<MutationView>,
    g: Geometry,
    offset: i32,
) -> bool {
    &&& ms.len() == xs.len() + 1
    &&& cuts.len() == xs.len() + 1
    &&& cuts[0] == 0
    &&& cuts.last() == es.len()
    &&& forall|i: int| 0 <= i < xs.len() ==> 0 <= #[trigger] cuts[i] <= cuts[i + 1] <= es.len()
    &&& forall|i: int|
        0 <= i < xs.len() ==> edited(
            ms[i],
            #[trigger] ms[i + 1],
            es.subrange(cuts[i], cuts[i + 1]),
            xs[i],
            g,
            offset,
        )
}

/// Whether `after` and `es` are `before` once the changes `xs` were made one after the
/// other, each as [`edit`] makes it.
pub open spec fn edited_all(
    before: Model,
    after: Model,
    es: Seq<EffectView>,
    xs: Seq<MutationView>,
    g: Geometry,
    offset: i32,
) -> bool {
    exists|ms: Seq<Model>, cuts: Seq<int>|
        #[trigger] traced(ms, cuts, es, xs, g, offset) && ms[0] == before && ms.last() == after
}

/// An edit keeps what laying the model out needs, when the change it makes has dates
/// the calendar reads.
proof fn lemma_edit_keeps_steady(
    before: Model,
    after: Model,
    es: Seq<EffectView>,
    x: MutationView,
    g: Geometry,
    offset: i32,
)
    requires
        edited(before, after, es, x, g, offset),
        steady_in(before, g, offset),
        mutation_dated(x),
    ensures
        steady_in(after, g, offset),
{
    let b2 = Model { undo: after.undo, redo: after.redo, ..before };
    let mid = Model {
        list: crate::model::TaskList {
            offset: if x is CreateTask {
                0
            } else {
                b2.list.offset
            },
            ..after.list
        },
        ..after
    };
    crate::update::lemma_still_dated(b2.data.tasks@, mid.data.tasks@, x, b2.query.include_done);
}

/// Append `more` to `effects`.
fn extend_effects(effects: &mut Vec<Effect>, more: Vec<Effect>)
    ensures
        effect_views(final(effects)@) == effect_views(old(effects)@) + effect_views(more@),
{
    let mut more = more;
    let ghost m = effect_views(more@);
    let ghost start = effect_views(effects@);
    while more.len() > 0
        invariant
            effect_views(effects@) + effect_views(more@) == start + m,
        decreases more.len(),
    {
        let ghost mv = effect_views(more@);
        let ghost ev = effect_views(effects@);
        let e = more.remove(0);
        proof {
            assert(mv[0] == e@);
            assert(effect_views(more@) =~= mv.drop_first());
        }
        crate::update::push_effect(effects, e);
        proof {
            assert(effect_views(effects@) + effect_views(more@) =~= ev + mv);
        }
    }
    proof {
        assert(effect_views(more@) =~= Seq::<EffectView>::empty());
        assert(effect_views(effects@) =~= start + m);
    }
}

/// Make the label changes `xs` one after the other.
pub(crate) fn edit_all(model: &mut Model, xs: Vec<Mutation>, geometry: &Geometry, offset: i32) -> (effects: Vec<Effect>)
    requires
        steady_in(*old(model), *geometry, offset),
        forall|k: int| 0 <= k < xs@.len() ==> mutation_dated(#[trigger] xs@[k]@),
    ensures
        edited_all(
            *old(model),
            *final(model),
            effect_views(effects@),
            crate::mutation::mutation_views(xs@),
            *geometry,
            offset,
        ),
{
    let ghost all = crate::mutation::mutation_views(xs@);
    let mut rest = xs;
    let mut effects: Vec<Effect> = Vec::new();
    let ghost mut done: int = 0;
    let ghost mut ms: Seq<Model> = seq![*model];
    let ghost mut cuts: Seq<int> = seq![0int];
    proof {
        assert(all.take(0) =~= Seq::<MutationView>::empty());
        assert(traced(ms, cuts, effect_views(effects@), all.take(0), *geometry, offset));
    }
    while rest.len() > 0
        invariant
            0 <= done <= all.len(),
            done + rest@.len() == all.len(),
            crate::mutation::mutation_views(rest@) == all.skip(done),
            forall|k: int| 0 <= k < rest@.len() ==> mutation_dated(#[trigger] rest@[k]@),
            steady_in(*model, *geometry, offset),
            traced(ms, cuts, effect_views(effects@), all.take(done), *geometry, offset),
            ms[0] == *old(model),
            ms.last() == *model,
        decreases rest.len(),
    {
        let ghost rv = rest@;
        let x = rest.remove(0);
        proof {
            assert(crate::mutation::mutation_views(rv)[0] == x@);
            assert(all.skip(done)[0] == x@);
            assert(rest@ =~= rv.drop_first());
            assert(crate::mutation::mutation_views(rest@) =~= crate::mutation::mutation_views(rv).drop_first());
            assert(all.skip(done + 1) =~= all.skip(done).drop_first());
            assert(mutation_dated(rv[0]@));
            assert forall|k: int| 0 <= k < rest@.len() implies mutation_dated(#[trigger] rest@[k]@) by {
                assert(rest@[k] == rv[k + 1]);
            }
        }
        let ghost mid = *model;
        let ghost es0 = effect_views(effects@);
        let ghost xv = x@;
        let more = edit(model, x, geometry, offset);
        let ghost es1 = effect_views(more@);
        extend_effects(&mut effects, more);
        proof {
            lemma_edit_keeps_steady(mid, *model, es1, xv, *geometry, offset);
            let es = effect_views(effects@);
            let n = es0.len() as int;
            let xs2 = all.take(done + 1);
            let ms2 = ms.push(*model);
            let cuts2 = cuts.push(es.len() as int);
            assert(es.subrange(0, n) =~= es0);
            assert(es.subrange(n, es.len() as int) =~= es1);
            assert forall|i: int| 0 <= i < xs2.len() implies edited(
                ms2[i],
                #[trigger] ms2[i + 1],
                es.subrange(cuts2[i], cuts2[i + 1]),
                xs2[i],
                *geometry,
                offset,
            ) by {
                if i < done {
                    assert(ms2[i] == ms[i] && ms2[i + 1] == ms[i + 1]);
                    assert(cuts2[i] == cuts[i] && cuts2[i + 1] == cuts[i + 1]);
                    assert(xs2[i] == all.take(done)[i]);
                    assert(es.subrange(cuts[i], cuts[i + 1]) =~= es0.subrange(cuts[i], cuts[i + 1]));
                    assert(traced(ms, cuts, es0, all.take(done), *geometry, offset));
                    assert(edited(ms[i], ms[i + 1], es0.subrange(cuts[i], cuts[i + 1]), all.take(done)[i], *geometry, offset));
                } else {
                    assert(i == done);
                    assert(ms2[i] == mid);
                    assert(xs2[i] == xv);
                }
            }
            assert forall|i: int| 0 <= i < xs2.len() implies 0 <= #[trigger] cuts2[i] <= cuts2[i + 1] <= es.len() by {
                if i < done {
                    assert(traced(ms, cuts, es0, all.take(done), *geometry, offset));
                }
            }
            assert(traced(ms2, cuts2, es, xs2, *geometry, offset));
            ms = ms2;
            cuts = cuts2;
            done = done + 1;
        }
    }
    proof {
        assert(all.take(done) =~= all);
        assert(traced(ms, cuts, effect_views(effects@), all, *geometry, offset));
    }
    effects
}

/// Whether a pool label is one to put on: chosen, and not already held.
pub open spec fn to_attach(held: Seq<LabelView>, chosen: Seq<i64>) -> spec_fn(LabelView) -> bool {
    |l: LabelView| chosen.contains(l.id) && first_where(held, crate::update::has_label_id(l.id)) >= held.len()
}

/// Whether a held label is one to take off: not chosen.
pub open spec fn to_detach(chosen: Seq<i64>) -> spec_fn(LabelView) -> bool {
    |l: LabelView| !chosen.contains(l.id)
}

/// The changes that make `chosen`, exactly `chosen`, the labels of task `t`: the pool's
/// chosen labels it lacks put on, in pool order, then the ones it holds that are not
/// chosen taken off, in its order.
pub open spec fn label_changes(pool: Seq<LabelView>, t: TaskView, chosen: Seq<i64>) -> Seq<MutationView> {
    pool.filter(to_attach(t.labels, chosen)).map_values(
        |l: LabelView| MutationView::AttachLabel { task: t.id, label: l },
    ) + t.labels.filter(to_detach(chosen)).map_values(
        |l: LabelView| MutationView::DetachLabel { task: t.id, label: l },
    )
}

/// What a label selection says: how many went on and how many came off.
pub open spec fn labels_words(added: nat, removed: nat) -> Seq<char> {
    let s = |n: nat| if n == 1 {
        ""@
    } else {
        "s"@
    };
    if removed == 0 {
        decimal(added) + " label"@ + s(added) + " added"@
    } else if added == 0 {
        decimal(removed) + " label"@ + s(removed) + " removed"@
    } else {
        decimal(added) + " added, "@ + decimal(removed) + " removed"@
    }
}

/// Whether `after` and `es` are `before` once `chosen` was made the selected task's
/// labels: a word that none is selected, or that nothing changed; otherwise the count
/// said, and the changes made one by one.
pub open spec fn labels_set(
    before: Model,
    after: Model,
    es: Seq<EffectView>,
    chosen: Seq<i64>,
    g: Geometry,
    offset: i32,
) -> bool {
    match selection_of(before) {
        None => told(before, after, "No task selected"@, Level::Info) && es.len() == 0,
        Some(k) => {
            let t = before.data.tasks@[k]@;
            let pool = label_views(before.data.labels@);
            let added = pool.filter(to_attach(t.labels, chosen)).len();
            let removed = t.labels.filter(to_detach(chosen)).len();
            if added + removed == 0 {
                told(before, after, "Nothing changed"@, Level::Info) && es.len() == 0
            } else {
                exists|m: Model|
                    #[trigger] told(before, m, labels_words(added, removed), Level::Info) && edited_all(
                        m,
                        after,
                        es,
                        label_changes(pool, t, chosen),
                        g,
                        offset,
                    )
            }
        },
    }
}

/// The labels of `labels` for which `keep` holds, copied, in order.
pub(crate) fn labels_where(labels: &Vec<Label>, held: &Vec<Label>, chosen: &Vec<i64>, attach: bool) -> (out: Vec<Label>)
    ensures
        label_views(out@) == label_views(labels@).filter(
            if attach {
                to_attach(label_views(held@), chosen@)
            } else {
                to_detach(chosen@)
            },
        ),
{
    let ghost lv = label_views(labels@);
    let ghost keep = if attach {
        to_attach(label_views(held@), chosen@)
    } else {
        to_detach(chosen@)
    };
    let mut out: Vec<Label> = Vec::new();
    let mut i: usize = 0;
    while i < labels.len()
        invariant
            i <= labels@.len(),
            lv == label_views(labels@),
            keep == (if attach {
                to_attach(label_views(held@), chosen@)
            } else {
                to_detach(chosen@)
            }),
            label_views(out@) == lv.take(i as int).filter(keep),
        decreases labels.len() - i,
    {
        proof {
            assert(lv.take(i + 1).drop_last() =~= lv.take(i as int));
            reveal(Seq::filter);
        }
        let l = &labels[i];
        let wanted = chosen_holds(chosen, l.id);
        let take = if attach {
            wanted && crate::update::label_index(held, l.id) >= held.len()
        } else {
            !wanted
        };
        let ghost before = label_views(out@);
        if take {
            out.push(l.duplicate());
            proof {
                assert(label_views(out@) =~= before.push(lv[i as int]));
            }
        }
        proof {
            assert(label_views(out@) =~= lv.take(i + 1).filter(keep));
        }
        i += 1;
    }
    proof {
        assert(lv.take(i as int) =~= lv);
    }
    out
}

/// Whether `id` is among `chosen`.
fn chosen_holds(chosen: &Vec<i64>, id: i64) -> (r: bool)
    ensures
        r == chosen@.contains(id),
{
    let mut k: usize = 0;
    while k < chosen.len()
        invariant
            k <= chosen@.len(),
            forall|j: int| 0 <= j < k ==> chosen@[j] != id,
        decreases chosen.len() - k,
    {
        if chosen[k] == id {
            return true;
        }
        k += 1;
    }
    false
}

/// The changes putting `on` on and taking `off` off task `task`.
pub(crate) fn label_edits(task: i64, on: Vec<Label>, off: Vec<Label>) -> (xs: Vec<Mutation>)
    ensures
        crate::mutation::mutation_views(xs@) == label_views(on@).map_values(
            |l: LabelView| MutationView::AttachLabel { task, label: l },
        ) + label_views(off@).map_values(|l: LabelView| MutationView::DetachLabel { task, label: l }),
        forall|k: int| 0 <= k < xs@.len() ==> mutation_dated(#[trigger] xs@[k]@),
{
    let ghost a = label_views(on@).map_values(|l: LabelView| MutationView::AttachLabel { task, label: l });
    let ghost d = label_views(off@).map_values(|l: LabelView| MutationView::DetachLabel { task, label: l });
    let mut xs: Vec<Mutation> = Vec::new();
    let mut i: usize = 0;
    while i < on.len()
        invariant
            i <= on@.len(),
            a == label_views(on@).map_values(|l: LabelView| MutationView::AttachLabel { task, label: l }),
            crate::mutation::mutation_views(xs@) == a.take(i as int),
            forall|k: int| 0 <= k < xs@.len() ==> mutation_dated(#[trigger] xs@[k]@),
        decreases on.len() - i,
    {
        let ghost before = crate::mutation::mutation_views(xs@);
        xs.push(Mutation::AttachLabel { task, label: on[i].duplicate() });
        proof {
            assert(crate::mutation::mutation_views(xs@) =~= before.push(a[i as int]));
            assert(a.take(i + 1) =~= a.take(i as int).push(a[i as int]));
        }
        i += 1;
    }
    let mut j: usize = 0;
    proof {
        assert(a.take(i as int) =~= a);
    }
    while j < off.len()
        invariant
            j <= off@.len(),
            d == label_views(off@).map_values(|l: LabelView| MutationView::DetachLabel { task, label: l }),
            crate::mutation::mutation_views(xs@) == a + d.take(j as int),
            forall|k: int| 0 <= k < xs@.len() ==> mutation_dated(#[trigger] xs@[k]@),
        decreases off.len() - j,
    {
        let ghost before = crate::mutation::mutation_views(xs@);
        xs.push(Mutation::DetachLabel { task, label: off[j].duplicate() });
        proof {
            assert(crate::mutation::mutation_views(xs@) =~= before.push(d[j as int]));
            assert(d.take(j + 1) =~= d.take(j as int).push(d[j as int]));
            assert(a + d.take(j + 1) =~= (a + d.take(j as int)).push(d[j as int]));
        }
        j += 1;
    }
    proof {
        assert(d.take(j as int) =~= d);
    }
    xs
}

/// What a label selection says.
fn labels_text(added: usize, removed: usize) -> (s: String)
    ensures
        s@ == labels_words(added as nat, removed as nat),
{
    proof {
        reveal_strlit(" label");
        reveal_strlit(" added");
        reveal_strlit(" removed");
        reveal_strlit(" added, ");
        reveal_strlit("");
        reveal_strlit("s");
    }
    let mut w: Vec<char> = Vec::new();
    if removed == 0 {
        crate::text::push_all(&mut w, decimal_of(added as u64).as_slice());
        crate::text::push_all(&mut w, chars_of(" label").as_slice());
        crate::text::push_all(&mut w, chars_of(crate::resolve::plural(added)).as_slice());
        crate::text::push_all(&mut w, chars_of(" added").as_slice());
    } else if added == 0 {
        crate::text::push_all(&mut w, decimal_of(removed as u64).as_slice());
        crate::text::push_all(&mut w, chars_of(" label").as_slice());
        crate::text::push_all(&mut w, chars_of(crate::resolve::plural(removed)).as_slice());
        crate::text::push_all(&mut w, chars_of(" removed").as_slice());
    } else {
        crate::text::push_all(&mut w, decimal_of(added as u64).as_slice());
        crate::text::push_all(&mut w, chars_of(" added, ").as_slice());
        crate::text::push_all(&mut w, decimal_of(removed as u64).as_slice());
        crate::text::push_all(&mut w, chars_of(" removed").as_slice());
    }
    let r = crate::text::string_of(w.as_slice());
    proof {
        assert(r@ =~= labels_words(added as nat, removed as nat));
    }
    r
}

/// Make `chosen`, exactly `chosen`, the selected task's labels: the changes go one label
/// at a time, since labels are put on and taken off through their own requests.
pub fn set_labels_to(model: &mut Model, chosen: &Vec<i64>, geometry: &Geometry, offset: i32) -> (effects: Vec<
    Effect,
>)
    requires
        steady_in(*old(model), *geometry, offset),
    ensures
        labels_set(*old(model), *final(model), effect_views(effects@), chosen@, *geometry, offset),
{
    proof {
        if let Some(id) = model.list.selected {
            lemma_first_where(model.data.tasks@, task_with_id(id));
        }
        reveal_strlit("Nothing changed");
    }
    let plan = match model.selected_task() {
        Some(task) => {
            let on = labels_where(&model.data.labels, &task.labels, chosen, true);
            let off = labels_where(&task.labels, &task.labels, chosen, false);
            Some((task.id, on, off))
        },
        None => None,
    };
    match plan {
        None => nothing_selected(model),
        Some((id, on, off)) => {
            if on.len() == 0 && off.len() == 0 {
                model.toast(Toast::info(String::from_str("Nothing changed")));
                return Vec::new();
            }
            let words = labels_text(on.len(), off.len());
            let xs = label_edits(id, on, off);
            model.toast(Toast::info(words));
            let ghost m = *model;
            let effects = edit_all(model, xs, geometry, offset);
            proof {
                let k = selection_of(*old(model))->0;
                let t = old(model).data.tasks@[k]@;
                assert(crate::mutation::mutation_views(xs@) =~= label_changes(
                    label_views(old(model).data.labels@),
                    t,
                    chosen@,
                )) by {
                    assert(label_views(old(model).data.tasks@[k].labels@) == t.labels);
                }
                assert(told(*old(model), m, labels_words(
                    label_views(old(model).data.labels@).filter(to_attach(t.labels, chosen@)).len(),
                    t.labels.filter(to_detach(chosen@)).len(),
                ), Level::Info));
            }
            effects
        },
    }
}

} // verus!
