//! What the sync engine reports, and what each report does to the interface: the status
//! line while a pass runs, a warning when an edit saved over someone else's, a rollback
//! when the server refuses a change, and the ids the server gives to what was created here.
use crate::label_forms::{first_where, label_views, lemma_first_where, texts, LabelsState};
use crate::modal::{joined, Candidate, EditState, Modal, Pick, PickerState};
use crate::label_forms::LabelEditState;
use crate::model::{Query, Scope, Snapshot, TaskList};
use crate::model::{task_with_id, toast_view, Level, Model, Status, SyncStatus, Toast, TOAST_LIFETIME};
use crate::models::{Label, LabelView, Task, TaskView};
use crate::mutation::{mutation_views, Mutation, MutationView};
use crate::text::{chars_of, decimal, decimal_of, push_all, string_of};
use crate::update::{
    effect_views, has_label_id, has_task_id, task_index, task_views, label_index, load_of, push_effect, reload_everything, reload_tasks,
    reloading, told, Effect, EffectView,
};
use vstd::prelude::*;

verus! {

/// What a change or a report is about: a task or a label, by id. The two id spaces are
/// unrelated, so the kind travels with the id.
#[derive(Debug, Clone, Copy, PartialEq, Eq, Structural)]
pub enum Subject {
    Task(i64),
    Label(i64),
}

/// Which half of a pass has started.
#[derive(Debug, Clone, Copy, PartialEq, Eq, Structural)]
pub enum Phase {
    /// Sending local changes.
    Push,
    /// Fetching the server's.
    Pull,
}

/// What a pull is storing.
#[derive(Debug, Clone, Copy, PartialEq, Eq, Structural)]
pub enum Stage {
    Projects,
    Labels,
    Tasks,
}

/// A report from the sync engine.
pub enum SyncEvent {
    /// A half of a pass began.
    Started(Phase),
    /// A pull has stored this many of something.
    Progress { stage: Stage, stored: u64 },
    /// A write went through over a change made elsewhere to these fields.
    Overwrote { subject: Subject, fields: Vec<String> },
    /// The server refused a change of this kind, and the store rolled it back.
    Rejected { subject: Subject, kind: String, message: String },
    /// Something created here, known by a provisional id, was given its real one.
    Adopted { provisional: Subject, assigned: Subject },
    /// A push ended the pass, leaving this many changes deferred.
    Pushed { deferred: usize },
    /// A whole pass ended, its push leaving this many changes deferred.
    Finished { deferred: usize },
    /// The pass could not finish.
    Failed { message: String },
}

/// What a change is about. Putting a label on a task or taking it off is a change to the
/// task; renaming or creating a label is a change to the label.
pub open spec fn subject_of(x: MutationView) -> Subject {
    match x {
        MutationView::CreateTask { task } => Subject::Task(task.id),
        MutationView::UpdateTask { before, .. } => Subject::Task(before.id),
        MutationView::DeleteTask { before } => Subject::Task(before.id),
        MutationView::AttachLabel { task, .. } => Subject::Task(task),
        MutationView::DetachLabel { task, .. } => Subject::Task(task),
        MutationView::UpdateLabel { before, .. } => Subject::Label(before.id),
        MutationView::CreateLabel { label } => Subject::Label(label.id),
    }
}

/// What a change is about.
pub fn subject(x: &Mutation) -> (s: Subject)
    ensures
        s == subject_of(x@),
{
    match x {
        Mutation::CreateTask { task } => Subject::Task(task.id),
        Mutation::UpdateTask { before, .. } => Subject::Task(before.id),
        Mutation::DeleteTask { before } => Subject::Task(before.id),
        Mutation::AttachLabel { task, .. } => Subject::Task(*task),
        Mutation::DetachLabel { task, .. } => Subject::Task(*task),
        Mutation::UpdateLabel { before, .. } => Subject::Label(before.id),
        Mutation::CreateLabel { label } => Subject::Label(label.id),
    }
}

/// What the status line says while a pass runs.
pub open spec fn started_detail(phase: Phase) -> Seq<char> {
    match phase {
        Phase::Push => "sending"@,
        Phase::Pull => "fetching"@,
    }
}

/// What a stage stores, as the status line names it.
pub open spec fn stage_word(stage: Stage) -> Seq<char> {
    match stage {
        Stage::Projects => "projects"@,
        Stage::Labels => "labels"@,
        Stage::Tasks => "tasks"@,
    }
}

/// What a subject is called in a message: its kind always, and its title, cut to 40
/// cells, when this model holds it; a title the model never loaded is not invented.
pub open spec fn subject_name(m: Model, s: Subject) -> Seq<char> {
    match s {
        Subject::Task(id) => {
            let ts = task_views(m.data.tasks@);
            let k = first_where(ts, has_task_id(id));
            if k < ts.len() {
                "task \""@ + crate::rows::truncated(ts[k].title, 40) + "\""@
            } else {
                "a task"@
            }
        },
        Subject::Label(id) => {
            let pool = label_views(m.data.labels@);
            let k = first_where(pool, has_label_id(id));
            if k < pool.len() {
                "label \""@ + crate::rows::truncated(pool[k].title, 40) + "\""@
            } else {
                "a label"@
            }
        },
    }
}

/// The warning for a write that saved over a change made elsewhere.
pub open spec fn overwrote_words(m: Model, s: Subject, fields: Seq<Seq<char>>) -> Seq<char> {
    "saved over a change made elsewhere to "@ + subject_name(m, s) + " ("@ + joined(fields, ", "@) + ")"@
}

/// The model with its sync status set.
pub open spec fn with_sync(m: Model, s: SyncStatus) -> Model {
    Model { status: Status { sync: s, ..m.status }, ..m }
}

/// Whether a stack change is about something other than `s`.
pub open spec fn not_about(s: Subject) -> spec_fn(Mutation) -> bool {
    |x: Mutation| subject_of(x@) != s
}

/// Whether forms `after` are `before` with every label form's wait ended, when `release`,
/// and unchanged otherwise.
pub open spec fn waits_ended(before: Seq<Modal>, after: Seq<Modal>, release: bool) -> bool {
    &&& after.len() == before.len()
    &&& forall|i: int|
        0 <= i < before.len() ==> (if release {
            match before[i] {
                Modal::Labels(s) => after[i] matches Modal::Labels(t) && t == (LabelsState {
                    awaiting: t.awaiting,
                    ..s
                }) && t.awaiting@.len() == 0,
                _ => #[trigger] after[i] == before[i],
            }
        } else {
            after[i] == before[i]
        })
}

/// The kind the store gives a queued label creation.
pub open spec fn create_label_kind() -> Seq<char> {
    "create_label"@
}

/// Whether `after` and `es` answer the server refusing a change of kind `kind` to `s`
/// with `message`: a refused label creation ends every wait for a label; the rejection is
/// said, loudest; every change about `s` leaves both stacks, since an inverse of a change
/// that never happened undoes nothing; and the list, counts, labels and queue are read
/// again, so the rolled-back row leaves the screen.
pub open spec fn rejection_taken(
    before: Model,
    after: Model,
    es: Seq<EffectView>,
    s: Subject,
    kind: Seq<char>,
    message: Seq<char>,
) -> bool {
    let release = s is Label && kind == create_label_kind();
    let m = Model {
        modals: after.modals,
        undo: after.undo,
        redo: after.redo,
        status: Status { toast: after.status.toast, ..before.status },
        ..before
    };
    &&& waits_ended(before.modals@, after.modals@, release)
    &&& toast_view(after.status.toast) == Some((kind + " rejected: "@ + message, Level::Error, TOAST_LIFETIME))
    &&& after.undo@ == before.undo@.filter(not_about(s))
    &&& after.redo@ == before.redo@.filter(not_about(s))
    &&& after == reloading(m)
    &&& es == seq![load_of(reloading(m)), EffectView::LoadCounts, EffectView::LoadLabels, EffectView::LoadPending]
}

/// Keep only the changes on a stack that are about something other than `s`, in order.
fn drop_about(stack: &mut Vec<Mutation>, s: Subject)
    ensures
        final(stack)@ == old(stack)@.filter(not_about(s)),
{
    let mut rest: Vec<Mutation> = Vec::new();
    std::mem::swap(stack, &mut rest);
    let ghost all = rest@;
    let total: usize = rest.len();
    let mut i: usize = 0;
    proof {
        assert(all.take(0).filter(not_about(s)) =~= Seq::<Mutation>::empty());
    }
    while rest.len() > 0
        invariant
            i <= all.len(),
            all.len() == total,
            all.len() == i + rest@.len(),
            rest@ == all.skip(i as int),
            stack@ == all.take(i as int).filter(not_about(s)),
        decreases rest.len(),
    {
        let ghost rv = rest@;
        let x = rest.remove(0);
        proof {
            assert(x == all[i as int]);
            assert(rest@ =~= all.skip(i + 1));
            assert(all.take(i + 1).drop_last() =~= all.take(i as int));
            reveal(Seq::filter);
        }
        if subject(&x) != s {
            stack.push(x);
        }
        proof {
            assert(stack@ =~= all.take(i + 1).filter(not_about(s)));
        }
        i += 1;
    }
    proof {
        assert(all.take(i as int) =~= all);
    }
}

/// End every label form's wait for the labels it asked to create.
fn end_waits(model: &mut Model)
    ensures
        waits_ended(old(model).modals@, final(model).modals@, true),
        *final(model) == (Model { modals: final(model).modals, ..*old(model) }),
{
    let mut i: usize = 0;
    while i < model.modals.len()
        invariant
            i <= model.modals@.len(),
            model.modals@.len() == old(model).modals@.len(),
            *model == (Model { modals: model.modals, ..*old(model) }),
            forall|j: int| 0 <= j < i ==> match old(model).modals@[j] {
                Modal::Labels(s) => model.modals@[j] matches Modal::Labels(t) && t == (LabelsState {
                    awaiting: t.awaiting,
                    ..s
                }) && t.awaiting@.len() == 0,
                _ => #[trigger] model.modals@[j] == old(model).modals@[j],
            },
            forall|j: int| i <= j < model.modals@.len() ==> #[trigger] model.modals@[j] == old(model).modals@[j],
        decreases model.modals.len() - i,
    {
        let ghost before = model.modals@;
        let m = model.modals.remove(i);
        let out = match m {
            Modal::Labels(state) => {
                let mut st = state;
                st.awaiting = Vec::new();
                Modal::Labels(st)
            },
            other => other,
        };
        model.modals.insert(i, out);
        proof {
            assert(model.modals@ =~= before.update(i as int, out));
        }
        i += 1;
    }
}

/// The server refused a change: say so, forget how to undo what never happened, and read
/// everything it touched again.
pub fn on_rejected(model: &mut Model, s: Subject, kind: String, message: String) -> (effects: Vec<Effect>)
    ensures
        rejection_taken(*old(model), *final(model), effect_views(effects@), s, kind@, message@),
{
    proof {
        reveal_strlit("create_label");
        reveal_strlit(" rejected: ");
    }
    let release = match s {
        Subject::Label(_) => crate::editing::same_text(kind.as_str(), "create_label"),
        Subject::Task(_) => false,
    };
    let ghost forms_before = model.modals@;
    if release {
        end_waits(model);
    }
    let ghost forms = model.modals@;
    let mut words = chars_of(kind.as_str());
    push_all(&mut words, chars_of(" rejected: ").as_slice());
    push_all(&mut words, chars_of(message.as_str()).as_slice());
    let toast = Toast::error(string_of(words.as_slice()));
    model.toast(toast);
    let ghost t = model.status.toast;
    drop_about(&mut model.undo, s);
    drop_about(&mut model.redo, s);
    let ghost m = *model;
    let mut effects = reload_tasks(model);
    push_effect(&mut effects, Effect::LoadCounts);
    push_effect(&mut effects, Effect::LoadLabels);
    push_effect(&mut effects, Effect::LoadPending);
    proof {
        if !release {
            assert(waits_ended(forms_before, forms, false));
        }
        assert(toast_view(t) == Some((kind@ + " rejected: "@ + message@, Level::Error, TOAST_LIFETIME)));
        assert(m == (Model {
            modals: m.modals,
            undo: m.undo,
            redo: m.redo,
            status: Status { toast: t, ..old(model).status },
            ..*old(model)
        }));
        assert(effect_views(effects@) =~= seq![
            load_of(reloading(m)),
            EffectView::LoadCounts,
            EffectView::LoadLabels,
            EffectView::LoadPending,
        ]);
        let rel = s is Label && kind@ == create_label_kind();
        assert(release == rel);
        assert(waits_ended(old(model).modals@, forms, rel));
        assert(model.modals@ == forms);
        assert(*model == reloading(m));
        assert(toast_view(t) == Some((kind@ + " rejected: "@ + message@, Level::Error, TOAST_LIFETIME)));
    }
    effects
}

/// `id`, or `to` when it is `from`.
pub open spec fn swapped(id: i64, from: i64, to: i64) -> i64 {
    if id == from {
        to
    } else {
        id
    }
}

/// A label with its id moved from `from` to `to`.
pub open spec fn relabel(l: LabelView, from: i64, to: i64) -> LabelView {
    LabelView { id: swapped(l.id, from, to), ..l }
}

/// Labels with the id moved.
pub open spec fn relabels(ls: Seq<LabelView>, from: i64, to: i64) -> Seq<LabelView> {
    ls.map_values(|l: LabelView| relabel(l, from, to))
}

/// A task with the id of a label it carries moved.
pub open spec fn relabel_task(t: TaskView, from: i64, to: i64) -> TaskView {
    TaskView { labels: relabels(t.labels, from, to), ..t }
}

/// A task with its own id moved.
pub open spec fn renumber_task(t: TaskView, from: i64, to: i64) -> TaskView {
    TaskView { id: swapped(t.id, from, to), ..t }
}

/// A change with every task id it names moved.
pub open spec fn retarget_task(x: MutationView, from: i64, to: i64) -> MutationView {
    match x {
        MutationView::CreateTask { task } => MutationView::CreateTask { task: renumber_task(task, from, to) },
        MutationView::UpdateTask { before, after } => MutationView::UpdateTask {
            before: renumber_task(before, from, to),
            after: renumber_task(after, from, to),
        },
        MutationView::DeleteTask { before } => MutationView::DeleteTask { before: renumber_task(before, from, to) },
        MutationView::AttachLabel { task, label } => MutationView::AttachLabel { task: swapped(task, from, to), label },
        MutationView::DetachLabel { task, label } => MutationView::DetachLabel { task: swapped(task, from, to), label },
        _ => x,
    }
}

/// A change with every label id it names moved, those of the labels its tasks carry too.
pub open spec fn retarget_label(x: MutationView, from: i64, to: i64) -> MutationView {
    match x {
        MutationView::CreateTask { task } => MutationView::CreateTask { task: relabel_task(task, from, to) },
        MutationView::UpdateTask { before, after } => MutationView::UpdateTask {
            before: relabel_task(before, from, to),
            after: relabel_task(after, from, to),
        },
        MutationView::DeleteTask { before } => MutationView::DeleteTask { before: relabel_task(before, from, to) },
        MutationView::AttachLabel { task, label } => MutationView::AttachLabel { task, label: relabel(label, from, to) },
        MutationView::DetachLabel { task, label } => MutationView::DetachLabel { task, label: relabel(label, from, to) },
        MutationView::UpdateLabel { before, after } => MutationView::UpdateLabel {
            before: relabel(before, from, to),
            after: relabel(after, from, to),
        },
        MutationView::CreateLabel { label } => MutationView::CreateLabel { label: relabel(label, from, to) },
    }
}

/// Move a label id in every label of a list.
fn relabel_all(ls: &mut Vec<Label>, from: i64, to: i64)
    ensures
        label_views(final(ls)@) == relabels(label_views(old(ls)@), from, to),
{
    let mut i: usize = 0;
    while i < ls.len()
        invariant
            i <= ls@.len(),
            ls@.len() == old(ls)@.len(),
            forall|j: int| 0 <= j < i ==> (#[trigger] ls@[j])@ == relabel(old(ls)@[j]@, from, to),
            forall|j: int| i <= j < ls@.len() ==> #[trigger] ls@[j] == old(ls)@[j],
        decreases ls.len() - i,
    {
        let mut l = ls[i].duplicate();
        if l.id == from {
            l.id = to;
        }
        ls.set(i, l);
        i += 1;
    }
    assert(label_views(ls@) =~= relabels(label_views(old(ls)@), from, to));
}

/// Move a label id in the labels a task carries.
fn relabel_task_in(t: &mut Task, from: i64, to: i64)
    ensures
        final(t)@ == relabel_task(old(t)@, from, to),
{
    relabel_all(&mut t.labels, from, to);
    assert(t.labels@.map_values(|l: Label| l@) == label_views(t.labels@));
}

/// A change with every task id it names moved.
fn retargeted_task(x: Mutation, from: i64, to: i64) -> (y: Mutation)
    ensures
        y@ == retarget_task(x@, from, to),
{
    let sw = |id: i64| -> (r: i64)
        ensures
            r == swapped(id, from, to),
        {
            if id == from {
                to
            } else {
                id
            }
        };
    match x {
        Mutation::CreateTask { task } => {
            let mut task = task;
            task.id = sw(task.id);
            Mutation::CreateTask { task }
        },
        Mutation::UpdateTask { before, after } => {
            let mut before = before;
            let mut after = after;
            before.id = sw(before.id);
            after.id = sw(after.id);
            Mutation::UpdateTask { before, after }
        },
        Mutation::DeleteTask { before } => {
            let mut before = before;
            before.id = sw(before.id);
            Mutation::DeleteTask { before }
        },
        Mutation::AttachLabel { task, label } => Mutation::AttachLabel { task: sw(task), label },
        Mutation::DetachLabel { task, label } => Mutation::DetachLabel { task: sw(task), label },
        other => other,
    }
}

/// A change with every label id it names moved.
fn retargeted_label(x: Mutation, from: i64, to: i64) -> (y: Mutation)
    ensures
        y@ == retarget_label(x@, from, to),
{
    match x {
        Mutation::CreateTask { task } => {
            let mut task = task;
            relabel_task_in(&mut task, from, to);
            Mutation::CreateTask { task }
        },
        Mutation::UpdateTask { before, after } => {
            let mut before = before;
            let mut after = after;
            relabel_task_in(&mut before, from, to);
            relabel_task_in(&mut after, from, to);
            Mutation::UpdateTask { before, after }
        },
        Mutation::DeleteTask { before } => {
            let mut before = before;
            relabel_task_in(&mut before, from, to);
            Mutation::DeleteTask { before }
        },
        Mutation::AttachLabel { task, label } => {
            let mut label = label;
            if label.id == from {
                label.id = to;
            }
            Mutation::AttachLabel { task, label }
        },
        Mutation::DetachLabel { task, label } => {
            let mut label = label;
            if label.id == from {
                label.id = to;
            }
            Mutation::DetachLabel { task, label }
        },
        Mutation::UpdateLabel { before, after } => {
            let mut before = before;
            let mut after = after;
            if before.id == from {
                before.id = to;
            }
            if after.id == from {
                after.id = to;
            }
            Mutation::UpdateLabel { before, after }
        },
        Mutation::CreateLabel { label } => {
            let mut label = label;
            if label.id == from {
                label.id = to;
            }
            Mutation::CreateLabel { label }
        },
    }
}

/// Move an id in every change on a stack: a task id, or a label id when `label`.
fn retarget_stack(stack: &mut Vec<Mutation>, from: i64, to: i64, label: bool)
    ensures
        mutation_views(final(stack)@) == mutation_views(old(stack)@).map_values(
            |x: MutationView| if label {
                retarget_label(x, from, to)
            } else {
                retarget_task(x, from, to)
            },
        ),
{
    let ghost f = |x: MutationView| if label {
        retarget_label(x, from, to)
    } else {
        retarget_task(x, from, to)
    };
    let mut rest: Vec<Mutation> = Vec::new();
    std::mem::swap(stack, &mut rest);
    let ghost all = mutation_views(rest@);
    let total: usize = rest.len();
    let mut i: usize = 0;
    while rest.len() > 0
        invariant
            all.len() == total,
            f == (|x: MutationView| if label {
                retarget_label(x, from, to)
            } else {
                retarget_task(x, from, to)
            }),
            i + rest@.len() == total,
            mutation_views(rest@) == all.skip(i as int),
            mutation_views(stack@) == all.take(i as int).map_values(f),
        decreases rest.len(),
    {
        let ghost rv = mutation_views(rest@);
        let x = rest.remove(0);
        proof {
            assert(x@ == rv[0]);
            assert(mutation_views(rest@) =~= rv.drop_first());
        }
        let y = if label {
            retargeted_label(x, from, to)
        } else {
            retargeted_task(x, from, to)
        };
        let ghost before = mutation_views(stack@);
        proof {
            assert(rv[0] == all[i as int]);
            assert(y@ == f(all[i as int]));
        }
        stack.push(y);
        proof {
            assert(mutation_views(stack@) =~= before.push(y@));
            assert(all.take(i + 1).map_values(f) =~= all.take(i as int).map_values(f).push(f(all[i as int])));
            assert(all.skip(i + 1) =~= all.skip(i as int).drop_first());
        }
        i += 1;
    }
    proof {
        assert(all.take(i as int) =~= all);
    }
}

/// Whether `after` and `es` are `before` once task `from`, created here, was given the id
/// `to`: the first row with that id renumbered, the selection with it, every change on both
/// stacks that names it, and the list read again.
pub open spec fn task_adopted(before: Model, after: Model, es: Seq<EffectView>, from: i64, to: i64) -> bool {
    let ts = task_views(before.data.tasks@);
    let k = first_where(ts, has_task_id(from));
    let moved = if k < ts.len() {
        ts.update(k, renumber_task(ts[k], from, to))
    } else {
        ts
    };
    let m = Model {
        data: Snapshot { tasks: after.data.tasks, ..before.data },
        list: TaskList {
            selected: if before.list.selected == Some(from) {
                Some(to)
            } else {
                before.list.selected
            },
            ..before.list
        },
        undo: after.undo,
        redo: after.redo,
        ..before
    };
    &&& task_views(after.data.tasks@) == moved
    &&& mutation_views(after.undo@) == mutation_views(before.undo@).map_values(
        |x: MutationView| retarget_task(x, from, to),
    )
    &&& mutation_views(after.redo@) == mutation_views(before.redo@).map_values(
        |x: MutationView| retarget_task(x, from, to),
    )
    &&& after == reloading(m)
    &&& es == seq![load_of(reloading(m))]
}

/// Give task `from` the id `to` everywhere the interface holds it.
pub fn adopt_task(model: &mut Model, from: i64, to: i64) -> (effects: Vec<Effect>)
    ensures
        task_adopted(*old(model), *final(model), effect_views(effects@), from, to),
{
    let ghost ts = task_views(model.data.tasks@);
    let k = task_index(&model.data.tasks, from);
    proof {
        lemma_first_where(ts, has_task_id(from));
    }
    if k < model.data.tasks.len() {
        let mut t = model.data.tasks[k].duplicate();
        t.id = to;
        model.data.tasks.set(k, t);
        proof {
            assert(task_views(model.data.tasks@) =~= ts.update(k as int, renumber_task(ts[k as int], from, to)));
        }
    } else {
        assert(task_views(model.data.tasks@) =~= ts);
    }
    match model.list.selected {
        Some(id) => {
            if id == from {
                model.list.selected = Some(to);
            }
        },
        None => {},
    }
    retarget_stack(&mut model.undo, from, to, false);
    retarget_stack(&mut model.redo, from, to, false);
    proof {
        assert(mutation_views(model.undo@) =~= mutation_views(old(model).undo@).map_values(
            |x: MutationView| retarget_task(x, from, to),
        ));
        assert(mutation_views(model.redo@) =~= mutation_views(old(model).redo@).map_values(
            |x: MutationView| retarget_task(x, from, to),
        ));
    }
    let ghost mid = *model;
    proof {
        let b = *old(model);
        let m = Model {
            data: Snapshot { tasks: mid.data.tasks, ..b.data },
            list: TaskList {
                selected: if b.list.selected == Some(from) {
                    Some(to)
                } else {
                    b.list.selected
                },
                ..b.list
            },
            undo: mid.undo,
            redo: mid.redo,
            ..b
        };
        assert(mid.data == m.data);
        assert(mid.list == m.list);
        assert(mid == m);
    }
    reload_tasks(model)
}

/// A picker candidate with the id of the label it offers moved.
pub open spec fn candidate_relabelled(c: Candidate, d: Candidate, from: i64, to: i64) -> bool {
    &&& d.title@ == c.title@
    &&& d.hint@ == c.hint@
    &&& d.pick == match c.pick {
        Pick::Label(id) => Pick::Label(swapped(id, from, to)),
        other => other,
    }
}

/// What moving a label id does to one open form: the label list's labels and ticks, a
/// picker's label candidates, the edit form's task, and the label form's label; the
/// other forms hold no label id.
pub open spec fn modal_relabelled(before: Modal, after: Modal, from: i64, to: i64) -> bool {
    match before {
        Modal::Labels(s) => after matches Modal::Labels(t) && {
            &&& t == (LabelsState { labels: t.labels, chosen: t.chosen, ..s })
            &&& label_views(t.labels@) == relabels(label_views(s.labels@), from, to)
            &&& t.chosen@ == s.chosen@.map_values(|id: i64| swapped(id, from, to))
        },
        Modal::Picker(p) => after matches Modal::Picker(q) && {
            &&& q == (PickerState { candidates: q.candidates, ..p })
            &&& q.candidates@.len() == p.candidates@.len()
            &&& forall|i: int|
                0 <= i < p.candidates@.len() ==> candidate_relabelled(
                    p.candidates@[i],
                    #[trigger] q.candidates@[i],
                    from,
                    to,
                )
        },
        Modal::Edit(e) => after matches Modal::Edit(f) && {
            &&& *f == (EditState { before: f.before, ..*e })
            &&& (*f.before)@ == relabel_task((*e.before)@, from, to)
        },
        Modal::LabelEdit(l) => after matches Modal::LabelEdit(k) && {
            &&& k == (LabelEditState { label: k.label, ..l })
            &&& k.label@ == relabel(l.label@, from, to)
        },
        _ => after == before,
    }
}

/// Move a label id in one open form.
fn relabel_modal(m: Modal, from: i64, to: i64) -> (out: Modal)
    ensures
        modal_relabelled(m, out, from, to),
{
    match m {
        Modal::Labels(state) => {
            let mut st = state;
            let ghost s0 = st;
            relabel_all(&mut st.labels, from, to);
            assert(st == (LabelsState { labels: st.labels, ..s0 }));
            let mut i: usize = 0;
            let ghost chosen0 = st.chosen@;
            let ghost st0 = st;
            while i < st.chosen.len()
                invariant
                    st == (LabelsState { chosen: st.chosen, ..st0 }),
                    i <= st.chosen@.len(),
                    st.chosen@.len() == chosen0.len(),
                    forall|j: int| 0 <= j < i ==> #[trigger] st.chosen@[j] == swapped(chosen0[j], from, to),
                    forall|j: int| i <= j < st.chosen@.len() ==> #[trigger] st.chosen@[j] == chosen0[j],
                decreases st.chosen.len() - i,
            {
                let id = st.chosen[i];
                if id == from {
                    st.chosen.set(i, to);
                }
                i += 1;
            }
            proof {
                assert(st.chosen@ =~= chosen0.map_values(|id: i64| swapped(id, from, to)));
                assert(chosen0 == s0.chosen@);
                assert(label_views(st.labels@) == relabels(label_views(s0.labels@), from, to));
                assert(st == (LabelsState { labels: st.labels, chosen: st.chosen, ..s0 }));
                assert(modal_relabelled(Modal::Labels(s0), Modal::Labels(st), from, to));
            }
            Modal::Labels(st)
        },
        Modal::Picker(state) => {
            let mut p = state;
            let ghost cs = p.candidates@;
            let ghost p0 = p;
            let mut i: usize = 0;
            while i < p.candidates.len()
                invariant
                    p == (PickerState { candidates: p.candidates, ..p0 }),
                    i <= p.candidates@.len(),
                    p.candidates@.len() == cs.len(),
                    forall|j: int| 0 <= j < i ==> candidate_relabelled(cs[j], #[trigger] p.candidates@[j], from, to),
                    forall|j: int| i <= j < p.candidates@.len() ==> #[trigger] p.candidates@[j] == cs[j],
                decreases p.candidates.len() - i,
            {
                let pick = match p.candidates[i].pick {
                    Pick::Label(id) => Pick::Label(if id == from {
                        to
                    } else {
                        id
                    }),
                    other => other,
                };
                let title = p.candidates[i].title.clone();
                let hint = p.candidates[i].hint.clone();
                p.candidates.set(i, Candidate { pick, title, hint });
                i += 1;
            }
            Modal::Picker(p)
        },
        Modal::Edit(state) => {
            let mut e = *state;
            let mut t = *e.before;
            relabel_task_in(&mut t, from, to);
            e.before = Box::new(t);
            Modal::Edit(Box::new(e))
        },
        Modal::LabelEdit(state) => {
            let mut l = state;
            if l.label.id == from {
                l.label.id = to;
            }
            Modal::LabelEdit(l)
        },
        other => other,
    }
}

/// Whether `after` and `es` are `before` once label `from`, created here, was given the id
/// `to`: the pool, the labels every task carries, both stacks, the list's filter, and
/// every open form that holds a label id, and then the list and the labels read again.
pub open spec fn label_adopted(before: Model, after: Model, es: Seq<EffectView>, from: i64, to: i64) -> bool {
    let m = Model {
        data: Snapshot { labels: after.data.labels, tasks: after.data.tasks, ..before.data },
        query: Query {
            scope: if before.query.scope == Scope::Label(from) {
                Scope::Label(to)
            } else {
                before.query.scope
            },
            ..before.query
        },
        undo: after.undo,
        redo: after.redo,
        modals: after.modals,
        ..before
    };
    &&& label_views(after.data.labels@) == relabels(label_views(before.data.labels@), from, to)
    &&& task_views(after.data.tasks@) == task_views(before.data.tasks@).map_values(
        |t: TaskView| relabel_task(t, from, to),
    )
    &&& mutation_views(after.undo@) == mutation_views(before.undo@).map_values(
        |x: MutationView| retarget_label(x, from, to),
    )
    &&& mutation_views(after.redo@) == mutation_views(before.redo@).map_values(
        |x: MutationView| retarget_label(x, from, to),
    )
    &&& after.modals@.len() == before.modals@.len()
    &&& forall|i: int|
        0 <= i < before.modals@.len() ==> modal_relabelled(before.modals@[i], #[trigger] after.modals@[i], from, to)
    &&& after == reloading(m)
    &&& es == seq![load_of(reloading(m)), EffectView::LoadLabels]
}

/// Move a label id in the labels every task carries.
fn relabel_tasks(tasks: &mut Vec<Task>, from: i64, to: i64)
    ensures
        task_views(final(tasks)@) == task_views(old(tasks)@).map_values(|t: TaskView| relabel_task(t, from, to)),
{
    let mut i: usize = 0;
    while i < tasks.len()
        invariant
            i <= tasks@.len(),
            tasks@.len() == old(tasks)@.len(),
            forall|j: int| 0 <= j < i ==> (#[trigger] tasks@[j])@ == relabel_task(old(tasks)@[j]@, from, to),
            forall|j: int| i <= j < tasks@.len() ==> #[trigger] tasks@[j] == old(tasks)@[j],
        decreases tasks.len() - i,
    {
        let mut t = tasks[i].duplicate();
        relabel_task_in(&mut t, from, to);
        tasks.set(i, t);
        i += 1;
    }
    assert(task_views(tasks@) =~= task_views(old(tasks)@).map_values(|t: TaskView| relabel_task(t, from, to)));
}

/// Give label `from` the id `to` everywhere the interface holds it.
pub fn adopt_label(model: &mut Model, from: i64, to: i64) -> (effects: Vec<Effect>)
    ensures
        label_adopted(*old(model), *final(model), effect_views(effects@), from, to),
{
    relabel_all(&mut model.data.labels, from, to);
    relabel_tasks(&mut model.data.tasks, from, to);
    retarget_stack(&mut model.undo, from, to, true);
    retarget_stack(&mut model.redo, from, to, true);
    proof {
        assert(mutation_views(model.undo@) =~= mutation_views(old(model).undo@).map_values(
            |x: MutationView| retarget_label(x, from, to),
        ));
        assert(mutation_views(model.redo@) =~= mutation_views(old(model).redo@).map_values(
            |x: MutationView| retarget_label(x, from, to),
        ));
    }
    match model.query.scope {
        Scope::Label(id) => {
            if id == from {
                model.query.scope = Scope::Label(to);
            }
        },
        _ => {},
    }
    let ghost mid = *model;
    let mut i: usize = 0;
    while i < model.modals.len()
        invariant
            *model == (Model { modals: model.modals, ..mid }),
            mid.modals == old(model).modals,
            i <= model.modals@.len(),
            model.modals@.len() == old(model).modals@.len(),
            forall|j: int| 0 <= j < i ==> modal_relabelled(old(model).modals@[j], #[trigger] model.modals@[j], from, to),
            forall|j: int| i <= j < model.modals@.len() ==> #[trigger] model.modals@[j] == old(model).modals@[j],
        decreases model.modals.len() - i,
    {
        let ghost before = model.modals@;
        let m = model.modals.remove(i);
        let out = relabel_modal(m, from, to);
        model.modals.insert(i, out);
        proof {
            assert(model.modals@ =~= before.update(i as int, out));
        }
        i += 1;
    }
    proof {
        let b = *old(model);
        let a = *model;
        let m = Model {
            data: Snapshot { labels: a.data.labels, tasks: a.data.tasks, ..b.data },
            query: Query {
                scope: if b.query.scope == Scope::Label(from) {
                    Scope::Label(to)
                } else {
                    b.query.scope
                },
                ..b.query
            },
            undo: a.undo,
            redo: a.redo,
            modals: a.modals,
            ..b
        };
        assert(a.query == m.query);
        assert(a.data == m.data);
        assert(a == m);
    }
    let ghost pre = *model;
    let mut effects = reload_tasks(model);
    push_effect(&mut effects, Effect::LoadLabels);
    proof {
        assert(effect_views(effects@) =~= seq![load_of(reloading(pre)), EffectView::LoadLabels]);
    }
    effects
}

/// What a subject is called in a message.
fn subject_text(model: &Model, s: Subject) -> (out: String)
    ensures
        out@ == subject_name(*model, s),
{
    proof {
        reveal_strlit("task \"");
        reveal_strlit("label \"");
        reveal_strlit("\"");
        reveal_strlit("a task");
        reveal_strlit("a label");
    }
    match s {
        Subject::Task(id) => {
            let k = task_index(&model.data.tasks, id);
            proof {
                lemma_first_where(task_views(model.data.tasks@), has_task_id(id));
            }
            if k < model.data.tasks.len() {
                let mut w = chars_of("task \"");
                let cut = crate::resolve::truncated(model.data.tasks[k].title.as_str());
                push_all(&mut w, chars_of(cut.as_str()).as_slice());
                push_all(&mut w, chars_of("\"").as_slice());
                string_of(w.as_slice())
            } else {
                String::from_str("a task")
            }
        },
        Subject::Label(id) => {
            let k = label_index(&model.data.labels, id);
            proof {
                lemma_first_where(label_views(model.data.labels@), has_label_id(id));
            }
            if k < model.data.labels.len() {
                let mut w = chars_of("label \"");
                let cut = crate::resolve::truncated(model.data.labels[k].title.as_str());
                push_all(&mut w, chars_of(cut.as_str()).as_slice());
                push_all(&mut w, chars_of("\"").as_slice());
                string_of(w.as_slice())
            } else {
                String::from_str("a label")
            }
        },
    }
}

/// Whether `after` is `before` with only its sync status changed, to a pass working on
/// what `detail` says.
pub open spec fn working(before: Model, after: Model, detail: Seq<char>) -> bool {
    &&& after == (Model { status: Status { sync: after.status.sync, ..before.status }, ..before })
    &&& after.status.sync matches SyncStatus::Working { detail: d } && d@ == detail
}

/// Whether `after` and `es` answer sync report `e`.
///
/// A pass that starts, or stores something, says so on the status line. A write that saved
/// over a change made elsewhere is a warning naming what it was about. A refusal is taken
/// as [`rejection_taken`] says, an id given by the server as [`task_adopted`] and
/// [`label_adopted`] say; a pair of ids of two different kinds is ignored. A push that ends
/// the pass leaves the line idle and asks the store how much is queued; a finished pass
/// also stamps the time and reads everything again; a failed one says why.
pub open spec fn synced(before: Model, after: Model, es: Seq<EffectView>, e: SyncEvent) -> bool {
    match e {
        SyncEvent::Started(phase) => working(before, after, started_detail(phase)) && es.len() == 0,
        SyncEvent::Progress { stage, stored } => working(
            before,
            after,
            decimal(stored as nat) + " "@ + stage_word(stage),
        ) && es.len() == 0,
        SyncEvent::Overwrote { subject, fields } => told(
            before,
            after,
            overwrote_words(before, subject, texts(fields@)),
            Level::Warning,
        ) && es.len() == 0,
        SyncEvent::Rejected { subject, kind, message } => rejection_taken(
            before,
            after,
            es,
            subject,
            kind@,
            message@,
        ),
        SyncEvent::Adopted { provisional, assigned } => match (provisional, assigned) {
            (Subject::Task(from), Subject::Task(to)) => task_adopted(before, after, es, from, to),
            (Subject::Label(from), Subject::Label(to)) => label_adopted(before, after, es, from, to),
            _ => after == before && es.len() == 0,
        },
        SyncEvent::Pushed { deferred } => {
            &&& after == (Model {
                status: Status { sync: SyncStatus::Idle, queued: deferred, ..before.status },
                ..before
            })
            &&& es == seq![EffectView::LoadPending]
        },
        SyncEvent::Finished { deferred } => {
            let m = Model {
                status: Status {
                    sync: SyncStatus::Idle,
                    last_sync: Some(before.now),
                    queued: deferred,
                    ..before.status
                },
                ..before
            };
            &&& after == reloading(m)
            &&& es == seq![
                load_of(reloading(m)),
                EffectView::LoadProjects,
                EffectView::LoadLabels,
                EffectView::LoadCounts,
                EffectView::LoadPending,
            ]
        },
        SyncEvent::Failed { message } => {
            &&& after == (Model { status: Status { sync: after.status.sync, ..before.status }, ..before })
            &&& after.status.sync matches SyncStatus::Failed { message: m } && m@ == message@
            &&& es.len() == 0
        },
    }
}

/// Take in a report from the sync engine.
pub fn on_sync(model: &mut Model, e: SyncEvent) -> (effects: Vec<Effect>)
    ensures
        synced(*old(model), *final(model), effect_views(effects@), e),
{
    proof {
        reveal_strlit("sending");
        reveal_strlit("fetching");
        reveal_strlit(" ");
        reveal_strlit("projects");
        reveal_strlit("labels");
        reveal_strlit("tasks");
        reveal_strlit("saved over a change made elsewhere to ");
        reveal_strlit(" (");
        reveal_strlit(")");
    }
    let none: Vec<Effect> = Vec::new();
    proof {
        assert(effect_views(none@).len() == 0);
    }
    match e {
        SyncEvent::Started(phase) => {
            let detail = match phase {
                Phase::Push => String::from_str("sending"),
                Phase::Pull => String::from_str("fetching"),
            };
            model.status.sync = SyncStatus::Working { detail };
            none
        },
        SyncEvent::Progress { stage, stored } => {
            let mut w = decimal_of(stored);
            push_all(&mut w, chars_of(" ").as_slice());
            let what = match stage {
                Stage::Projects => "projects",
                Stage::Labels => "labels",
                Stage::Tasks => "tasks",
            };
            push_all(&mut w, chars_of(what).as_slice());
            let detail = string_of(w.as_slice());
            proof {
                assert(detail@ =~= decimal(stored as nat) + " "@ + stage_word(stage));
            }
            model.status.sync = SyncStatus::Working { detail };
            none
        },
        SyncEvent::Overwrote { subject, fields } => {
            let mut w = chars_of("saved over a change made elsewhere to ");
            let name = subject_text(model, subject);
            push_all(&mut w, chars_of(name.as_str()).as_slice());
            push_all(&mut w, chars_of(" (").as_slice());
            let list = crate::editing::join_texts(&fields, ", ");
            push_all(&mut w, chars_of(list.as_str()).as_slice());
            push_all(&mut w, chars_of(")").as_slice());
            let words = string_of(w.as_slice());
            proof {
                assert(words@ =~= overwrote_words(*old(model), subject, texts(fields@)));
            }
            model.toast(Toast::warning(words));
            none
        },
        SyncEvent::Rejected { subject, kind, message } => on_rejected(model, subject, kind, message),
        SyncEvent::Adopted { provisional, assigned } => match (provisional, assigned) {
            (Subject::Task(from), Subject::Task(to)) => adopt_task(model, from, to),
            (Subject::Label(from), Subject::Label(to)) => adopt_label(model, from, to),
            _ => none,
        },
        SyncEvent::Pushed { deferred } => {
            model.status.sync = SyncStatus::Idle;
            model.status.queued = deferred;
            let mut effects: Vec<Effect> = Vec::new();
            push_effect(&mut effects, Effect::LoadPending);
            proof {
                assert(effect_views(effects@) =~= seq![EffectView::LoadPending]);
            }
            effects
        },
        SyncEvent::Finished { deferred } => {
            model.status.sync = SyncStatus::Idle;
            model.status.last_sync = Some(model.now);
            model.status.queued = deferred;
            reload_everything(model)
        },
        SyncEvent::Failed { message } => {
            model.status.sync = SyncStatus::Failed { message };
            none
        },
    }
}

/// A rejection rolls the change back and says so: once the server has refused a change to
/// `s`, neither stack holds a change about `s` any more, so no key can replay a state the
/// server never held, and the toast is an error naming the kind of change refused.
pub proof fn law_a_rejection_forgets_the_change_and_says_so(
    before: Model,
    after: Model,
    es: Seq<EffectView>,
    s: Subject,
    kind: Seq<char>,
    message: Seq<char>,
)
    requires
        rejection_taken(before, after, es, s, kind, message),
    ensures
        forall|k: int| 0 <= k < after.undo@.len() ==> subject_of((#[trigger] after.undo@[k])@) != s,
        forall|k: int| 0 <= k < after.redo@.len() ==> subject_of((#[trigger] after.redo@[k])@) != s,
        toast_view(after.status.toast) == Some((kind + " rejected: "@ + message, Level::Error, TOAST_LIFETIME)),
{
    broadcast use vstd::seq_lib::group_filter_ensures;

    assert forall|k: int| 0 <= k < after.undo@.len() implies subject_of((#[trigger] after.undo@[k])@) != s by {
        assert(not_about(s)(after.undo@[k]));
    }
    assert forall|k: int| 0 <= k < after.redo@.len() implies subject_of((#[trigger] after.redo@[k])@) != s by {
        assert(not_about(s)(after.redo@[k]));
    }
}

} // verus!
