//! What the world outside the interface tells it, and what each message does to the
//! model: the terminal resized, the clock ticked, the store answered or failed.
use crate::grid::{all_dated_sanely, sanely_dated};
use crate::label_forms::{absorb_all, first_where, label_views, lemma_first_where, refreshed, LabelsState};
use crate::modal::{clamped_row, ranked, Candidate, Modal, Pick, PickerState};
use crate::models::{Label, LabelView};
use crate::update::has_label_id;
use crate::model::{toast_view, Level, Model, Snapshot, Status, TOAST_LIFETIME};
use crate::models::{Project, Task};
use crate::sidebar::{can_draw, drawable, ProjectCounts};
use crate::update::{
    counts_loaded, effect_views, frames_of, load_of, pending_loaded, projects_loaded,
    reload_everything, reloading, resize, resized, sidebar_kept, steady_in, store_failed,
    task_views, tasks_loaded, tasks_taken, tick, ticked, Effect, EffectView, Geometry,
};
use vstd::prelude::*;

verus! {

/// What a label list form makes of a fresh label list: the labels it was waiting for,
/// created meanwhile, ticked, as [`LabelsState::absorb_created`] says.
pub open spec fn absorbs(a: LabelsState, b: LabelsState, known: Seq<LabelView>) -> bool {
    &&& a.awaiting@.len() == 0 ==> b == a
    &&& a.awaiting@.len() > 0 ==> {
        &&& b.held() == absorb_all(a.held(), known)
        &&& b.input == a.input
        &&& ranked(b.titles(), b.input@.value, b.matches@)
        &&& b.selected == clamped_row(a.selected, b.matches@.len())
    }
}

/// A label list form with every label it lists replaced by the fresh copy, as
/// [`LabelsState::refresh`] says.
pub open spec fn refreshes(a: LabelsState, b: LabelsState, known: Seq<LabelView>) -> bool {
    &&& b.labels@.len() == a.labels@.len()
    &&& forall|k: int| 0 <= k < a.labels@.len() ==> (#[trigger] b.labels@[k])@ == refreshed(a.labels@[k]@, known)
    &&& b.input == a.input
    &&& b.chosen == a.chosen
    &&& b.matches == a.matches
    &&& b.selected == a.selected
    &&& b.awaiting == a.awaiting
}

/// A candidate with the fresh title of the label it offers, if the list has that label.
pub open spec fn retitled(c: Candidate, d: Candidate, known: Seq<LabelView>) -> bool {
    &&& d.pick == c.pick
    &&& d.hint@ == c.hint@
    &&& d.title@ == match c.pick {
        Pick::Label(id) => {
            let k = first_where(known, has_label_id(id));
            if k < known.len() {
                known[k].title
            } else {
                c.title@
            }
        },
        _ => c.title@,
    }
}

/// A picker whose label candidates carry the fresh titles, and nothing else changed.
pub open spec fn picker_retitled(p: PickerState, q: PickerState, known: Seq<LabelView>) -> bool {
    &&& q.kind == p.kind
    &&& q.input == p.input
    &&& q.matches == p.matches
    &&& q.selected == p.selected
    &&& q.candidates@.len() == p.candidates@.len()
    &&& forall|i: int|
        0 <= i < p.candidates@.len() ==> retitled(p.candidates@[i], #[trigger] q.candidates@[i], known)
}

/// What a fresh label list does to one open form: a label list takes in the labels it was
/// waiting for and the fresh copies of the ones it lists; a picker shows the fresh titles;
/// every other form is left alone, the label form above all, whose fields are what the
/// user is part-way through typing.
pub open spec fn modal_takes_labels(before: Modal, after: Modal, known: Seq<LabelView>) -> bool {
    match before {
        Modal::Labels(a) => after matches Modal::Labels(b) && exists|mid: LabelsState|
            #[trigger] absorbs(a, mid, known) && refreshes(mid, b, known),
        Modal::Picker(p) => after matches Modal::Picker(q) && picker_retitled(p, q, known),
        _ => after == before,
    }
}

/// Whether `after` is `before` once the label list `labels` came in: the pool is that list,
/// and every open form took it in.
pub open spec fn labels_taken(before: Model, after: Model, labels: Seq<Label>) -> bool {
    let known = label_views(labels);
    &&& after.data.labels@ == labels
    &&& after == (Model {
        data: Snapshot { labels: after.data.labels, ..before.data },
        modals: after.modals,
        ..before
    })
    &&& after.modals@.len() == before.modals@.len()
    &&& forall|i: int|
        0 <= i < before.modals@.len() ==> modal_takes_labels(before.modals@[i], #[trigger] after.modals@[i], known)
}

/// Give a picker's label candidates the fresh titles.
fn retitle(picker: &mut PickerState, known: &Vec<Label>)
    ensures
        picker_retitled(*old(picker), *final(picker), label_views(known@)),
{
    let ghost kv = label_views(known@);
    let mut i: usize = 0;
    while i < picker.candidates.len()
        invariant
            i <= picker.candidates@.len(),
            kv == label_views(known@),
            picker.candidates@.len() == old(picker).candidates@.len(),
            picker.kind == old(picker).kind,
            picker.input == old(picker).input,
            picker.matches == old(picker).matches,
            picker.selected == old(picker).selected,
            forall|j: int| 0 <= j < i ==> retitled(old(picker).candidates@[j], #[trigger] picker.candidates@[j], kv),
            forall|j: int| i <= j < picker.candidates@.len() ==> #[trigger] picker.candidates@[j] == old(picker).candidates@[j],
        decreases picker.candidates.len() - i,
    {
        let pick = picker.candidates[i].pick;
        match pick {
            Pick::Label(id) => {
                let k = crate::update::label_index(known, id);
                if k < known.len() {
                    proof {
                        lemma_first_where(kv, has_label_id(id));
                    }
                    let hint = picker.candidates[i].hint.clone();
                    let title = known[k].title.clone();
                    picker.candidates.set(i, Candidate { pick, title, hint });
                }
            },
            _ => {},
        }
        i += 1;
    }
}

/// Take a fresh label list into one open form.
fn take_labels_into(modal: Modal, known: &Vec<Label>) -> (out: Modal)
    ensures
        modal_takes_labels(modal, out, label_views(known@)),
{
    match modal {
        Modal::Labels(state) => {
            let mut s = state;
            let ghost a = s;
            s.absorb_created(known);
            let ghost mid = s;
            s.refresh(known);
            proof {
                assert(absorbs(a, mid, label_views(known@)));
                assert(refreshes(mid, s, label_views(known@)));
            }
            Modal::Labels(s)
        },
        Modal::Picker(state) => {
            let mut p = state;
            retitle(&mut p, known);
            Modal::Picker(p)
        },
        other => other,
    }
}

/// A fresh label list: the pool, and every open form that lists labels.
pub fn labels_loaded(model: &mut Model, labels: Vec<Label>)
    ensures
        labels_taken(*old(model), *final(model), labels@),
{
    model.data.labels = labels;
    let ghost known = label_views(model.data.labels@);
    let mut i: usize = 0;
    while i < model.modals.len()
        invariant
            i <= model.modals@.len(),
            model.modals@.len() == old(model).modals@.len(),
            known == label_views(model.data.labels@),
            model.data.labels@ == labels@,
            *model == (Model {
                data: Snapshot { labels: model.data.labels, ..old(model).data },
                modals: model.modals,
                ..*old(model)
            }),
            forall|j: int| 0 <= j < i ==> modal_takes_labels(old(model).modals@[j], #[trigger] model.modals@[j], known),
            forall|j: int| i <= j < model.modals@.len() ==> #[trigger] model.modals@[j] == old(model).modals@[j],
        decreases model.modals.len() - i,
    {
        let ghost before = model.modals@;
        let m = model.modals.remove(i);
        let taken = take_labels_into(m, &model.data.labels);
        model.modals.insert(i, taken);
        proof {
            assert(model.modals@ =~= before.update(i as int, taken));
        }
        i += 1;
    }
}

/// A message from outside the interface.
pub enum Msg {
    /// The terminal is now this many columns by this many rows.
    Resize(u16, u16),
    /// The clock, in seconds since the Unix epoch.
    Tick(i64),
    /// The store's answer to the task query with this id; `truncated` when it stopped at
    /// its limit.
    TasksLoaded { id: u64, tasks: Vec<Task>, truncated: bool },
    /// The project list.
    ProjectsLoaded(Vec<Project>),
    /// The label list.
    LabelsLoaded(Vec<Label>),
    /// Per-project task counts for the sidebar.
    CountsLoaded(ProjectCounts),
    /// How many changes the store still holds queued.
    PendingLoaded(usize),
    /// Read everything again.
    Reload,
    /// The store failed, for this reason.
    StoreFailed(String),
    /// A report from the sync engine.
    Sync(crate::sync::SyncEvent),
}

/// Whether the model can take a message: it lays out whichever panes are wanted, and what
/// the message brings is something it can lay out too.
pub open spec fn takes(m: Model, msg: Msg, g: Geometry, offset: i32) -> bool {
    match msg {
        Msg::Resize(_, _) => steady_in(m, g, offset),
        Msg::TasksLoaded { tasks, .. } => steady_in(m, g, offset) && all_dated_sanely(tasks@),
        Msg::ProjectsLoaded(projects) => drawable(projects@, m.data.counts),
        _ => true,
    }
}

/// What a message makes of `before`, and the effects it asks for.
pub open spec fn updated(before: Model, after: Model, es: Seq<EffectView>, msg: Msg, g: Geometry, offset: i32) -> bool {
    match msg {
        Msg::Resize(width, height) => resized(before, after, width, height, g, offset) && es.len() == 0,
        Msg::Tick(now) => ticked(before, after, now) && es.len() == 0,
        Msg::TasksLoaded { id, tasks, truncated } => tasks_taken(
            before,
            after,
            id,
            task_views(tasks@),
            truncated,
            g,
            offset,
        ) && es.len() == 0,
        Msg::ProjectsLoaded(projects) => {
            let m = Model { data: Snapshot { projects: after.data.projects, ..before.data }, ..before };
            &&& after == sidebar_kept(m, frames_of(m, g))
            &&& after.data.projects@ == projects@
            &&& es.len() == 0
        },
        Msg::LabelsLoaded(labels) => labels_taken(before, after, labels@) && es.len() == 0,
        Msg::CountsLoaded(counts) => after == (Model { data: Snapshot { counts, ..before.data }, ..before })
            && es.len() == 0,
        Msg::PendingLoaded(queued) => after == (Model { status: Status { queued, ..before.status }, ..before })
            && es.len() == 0,
        Msg::Reload => after == reloading(before) && es == seq![
            load_of(reloading(before)),
            EffectView::LoadProjects,
            EffectView::LoadLabels,
            EffectView::LoadCounts,
            EffectView::LoadPending,
        ],
        Msg::StoreFailed(message) => {
            &&& after.data.error matches Some(e) && e@ == message@
            &&& toast_view(after.status.toast) == Some((message@, Level::Error, TOAST_LIFETIME))
            &&& after == (Model {
                data: Snapshot { loading: false, error: after.data.error, ..before.data },
                status: Status { toast: after.status.toast, ..before.status },
                ..before
            })
            &&& es.len() == 0
        },
        Msg::Sync(e) => crate::sync::synced(before, after, es, e),
    }
}

/// Take a message in: the one place the world outside changes the model.
pub fn update(model: &mut Model, msg: Msg, geometry: &Geometry, offset: i32) -> (effects: Vec<Effect>)
    requires
        takes(*old(model), msg, *geometry, offset),
    ensures
        updated(*old(model), *final(model), effect_views(effects@), msg, *geometry, offset),
{
    let none: Vec<Effect> = Vec::new();
    proof {
        assert(effect_views(none@).len() == 0);
    }
    match msg {
        Msg::Resize(width, height) => {
            resize(model, width, height, geometry, offset);
            none
        },
        Msg::Tick(now) => {
            tick(model, now);
            none
        },
        Msg::TasksLoaded { id, tasks, truncated } => {
            tasks_loaded(model, id, tasks, truncated, geometry, offset);
            none
        },
        Msg::ProjectsLoaded(projects) => {
            projects_loaded(model, projects, geometry);
            none
        },
        Msg::LabelsLoaded(labels) => {
            labels_loaded(model, labels);
            none
        },
        Msg::CountsLoaded(counts) => {
            counts_loaded(model, counts);
            none
        },
        Msg::PendingLoaded(queued) => {
            pending_loaded(model, queued);
            none
        },
        Msg::Reload => reload_everything(model),
        Msg::StoreFailed(message) => {
            store_failed(model, message);
            none
        },
        Msg::Sync(e) => crate::sync::on_sync(model, e),
    }
}

/// Whether every task has dates the calendar reads.
fn all_sanely_dated(tasks: &Vec<Task>) -> (r: bool)
    ensures
        r == all_dated_sanely(tasks@),
{
    let mut k: usize = 0;
    while k < tasks.len()
        invariant
            k <= tasks@.len(),
            forall|j: int| 0 <= j < k ==> crate::grid::dated_sanely(#[trigger] tasks@[j]@),
        decreases tasks.len() - k,
    {
        if !sanely_dated(&tasks[k]) {
            return false;
        }
        k += 1;
    }
    true
}

/// Whether the model can take the message.
pub fn can_take(model: &Model, msg: &Msg, geometry: &Geometry, offset: i32) -> (r: bool)
    ensures
        r == takes(*model, *msg, *geometry, offset),
{
    match msg {
        Msg::Resize(_, _) => crate::actions::is_steady(model, geometry, offset),
        Msg::TasksLoaded { tasks, .. } => crate::actions::is_steady(model, geometry, offset)
            && all_sanely_dated(tasks),
        Msg::ProjectsLoaded(projects) => can_draw(projects, &model.data.counts),
        _ => true,
    }
}

/// Take a message in when the model can take it, and otherwise leave the model as it is
/// and answer `None`.
pub fn try_update(model: &mut Model, msg: Msg, geometry: &Geometry, offset: i32) -> (r: Option<Vec<Effect>>)
    ensures
        match r {
            Some(effects) => takes(*old(model), msg, *geometry, offset) && updated(
                *old(model),
                *final(model),
                effect_views(effects@),
                msg,
                *geometry,
                offset,
            ),
            None => !takes(*old(model), msg, *geometry, offset) && *final(model) == *old(model),
        },
{
    if can_take(model, &msg, geometry, offset) {
        Some(update(model, msg, geometry, offset))
    } else {
        None
    }
}

} // verus!
