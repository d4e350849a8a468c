//! Running a configured quick action: a priority, a move into a named project, or a named
//! label put on or taken off, all on the selected task.
use crate::actions::{
    filed_in, move_to, moved_words, prioritised_to, priority_words, project_name,
    selected_changed_to, set_priority_to,
};
use crate::label_forms::{first_where, label_views, lemma_first_where, lemma_first_where_is};
use crate::model::{task_with_id, toast_view, Level, Model, QuickActionKind, Toast, TOAST_LIFETIME};
use crate::models::{Label, LabelView};
use crate::mutation::{Mutation, MutationView};
use crate::resolve::{label_titled, resolve_project, resolved_project};
use crate::text::{chars_of, debug_quoted, debug_text, eq_ignore_case, push_all, string_of, trim, trimmed};
use crate::update::{
    edit, edited, effect_views, has_label_id, label_index, nothing_selected, selection_of,
    steady_in, told, toasted, Effect, EffectView, Geometry,
};
use vstd::prelude::*;

verus! {

/// What toggling label `l` on the selected task says: that it came off, when the task had
/// it, and otherwise that it went on.
pub open spec fn toggle_words(held: bool, l: LabelView) -> Seq<char> {
    if held {
        "Removed *"@ + l.title
    } else {
        "Added *"@ + l.title
    }
}

/// Whether `after` and `es` are `before` once label `l` was put on the selected task, or
/// taken off when the task has it, and said; or a word that no task is selected.
pub open spec fn label_toggled(
    before: Model,
    after: Model,
    es: Seq<EffectView>,
    l: LabelView,
    g: Geometry,
    offset: i32,
) -> bool {
    match selection_of(before) {
        None => told(before, after, "No task selected"@, Level::Info) && es.len() == 0,
        Some(k) => {
            let t = before.data.tasks@[k]@;
            let held = first_where(t.labels, has_label_id(l.id)) < t.labels.len();
            let x = if held {
                MutationView::DetachLabel { task: t.id, label: l }
            } else {
                MutationView::AttachLabel { task: t.id, label: l }
            };
            &&& toast_view(after.status.toast) == Some((toggle_words(held, l), Level::Info, TOAST_LIFETIME))
            &&& edited(toasted(before, after.status.toast), after, es, x, g, offset)
        },
    }
}

/// Put `label` on the selected task, or take it off when the task has it.
pub fn toggle_label(model: &mut Model, label: &Label, geometry: &Geometry, offset: i32) -> (effects: Vec<Effect>)
    requires
        steady_in(*old(model), *geometry, offset),
    ensures
        label_toggled(*old(model), *final(model), effect_views(effects@), label@, *geometry, offset),
{
    proof {
        if let Some(id) = model.list.selected {
            lemma_first_where(model.data.tasks@, task_with_id(id));
        }
        reveal_strlit("Removed *");
        reveal_strlit("Added *");
    }
    let (task_id, held) = match model.selected_task() {
        Some(task) => {
            let at = label_index(&task.labels, label.id);
            proof {
                assert(label_views(task.labels@) == task@.labels);
            }
            (task.id, at < task.labels.len())
        },
        None => {
            return nothing_selected(model);
        },
    };
    let mut words = if held {
        chars_of("Removed *")
    } else {
        chars_of("Added *")
    };
    push_all(&mut words, chars_of(label.title.as_str()).as_slice());
    let words = string_of(words.as_slice());
    proof {
        assert(words@ =~= toggle_words(held, label@));
    }
    let x = if held {
        Mutation::DetachLabel { task: task_id, label: label.duplicate() }
    } else {
        Mutation::AttachLabel { task: task_id, label: label.duplicate() }
    };
    model.toast(Toast::info(words));
    edit(model, x, geometry, offset)
}

/// Whether `after` and `es` answer the quick action at `index`: nothing at all past the
/// configured ones; a priority set as the priority form sets it; a move into the project
/// the name resolves to, as the move picker makes it, or an error when none does; the label
/// the name matches, ignoring ASCII case and surrounding space, put on or taken off, or an
/// error when none does.
pub open spec fn quick_ran(before: Model, after: Model, es: Seq<EffectView>, index: int, g: Geometry, offset: i32) -> bool {
    if index < 0 || index >= before.quick_actions@.len() {
        after == before && es.len() == 0
    } else {
        match before.quick_actions@[index].kind {
            QuickActionKind::Priority(v) => selected_changed_to(
                before,
                after,
                es,
                g,
                offset,
                prioritised_to(v as i64),
                priority_words(),
            ),
            QuickActionKind::Project(name) => match resolved_project(before.data.projects@, name@) {
                Some(id) => selected_changed_to(
                    before,
                    after,
                    es,
                    g,
                    offset,
                    filed_in(id),
                    moved_words(project_name(before, id)),
                ),
                None => told(before, after, "No project called "@ + debug_quoted(name@), Level::Error)
                    && es.len() == 0,
            },
            QuickActionKind::Label(name) => {
                let pool = label_views(before.data.labels@);
                let k = first_where(pool, label_titled(trimmed(name@)));
                if k < pool.len() {
                    label_toggled(before, after, es, pool[k], g, offset)
                } else {
                    told(before, after, "No label called "@ + debug_quoted(name@), Level::Error) && es.len() == 0
                }
            },
        }
    }
}

/// The first label in the pool titled `name`, ignoring ASCII case and surrounding space.
fn label_named(labels: &Vec<Label>, name: &str) -> (k: usize)
    ensures
        k == first_where(label_views(labels@), label_titled(trimmed(name@))),
{
    let ghost pool = label_views(labels@);
    let wanted = trim(chars_of(name).as_slice());
    let mut k: usize = 0;
    while k < labels.len()
        invariant
            k <= labels@.len(),
            pool == label_views(labels@),
            wanted@ == trimmed(name@),
            forall|j: int| 0 <= j < k ==> !label_titled(trimmed(name@))(#[trigger] pool[j]),
        decreases labels.len() - k,
    {
        let title = chars_of(labels[k].title.as_str());
        if eq_ignore_case(title.as_slice(), wanted.as_slice()) {
            proof {
                lemma_first_where_is(pool, label_titled(trimmed(name@)), k as int);
            }
            return k;
        }
        k += 1;
    }
    proof {
        lemma_first_where_is(pool, label_titled(trimmed(name@)), k as int);
    }
    k
}

/// `a` followed by `b`.
fn joined_text(a: &str, b: &str) -> (s: String)
    ensures
        s@ == a@ + b@,
{
    let mut out = chars_of(a);
    push_all(&mut out, chars_of(b).as_slice());
    string_of(out.as_slice())
}

/// Run the configured quick action at `index` on the selected task. A name in the
/// configuration is resolved only now, when the key is pressed, since the project or label
/// it names may not exist; the moment to say so is this one.
pub fn run_quick_action(model: &mut Model, index: usize, geometry: &Geometry, offset: i32) -> (effects: Vec<
    Effect,
>)
    requires
        steady_in(*old(model), *geometry, offset),
    ensures
        quick_ran(*old(model), *final(model), effect_views(effects@), index as int, *geometry, offset),
{
    proof {
        reveal_strlit("No project called ");
        reveal_strlit("No label called ");
    }
    let none: Vec<Effect> = Vec::new();
    proof {
        assert(effect_views(none@).len() == 0);
    }
    if index >= model.quick_actions.len() {
        return none;
    }
    let plan = match &model.quick_actions[index].kind {
        QuickActionKind::Priority(v) => QuickPlan::Priority(*v),
        QuickActionKind::Project(name) => match resolve_project(&model.data.projects, name.as_str()) {
            Some(id) => QuickPlan::Move(id),
            None => QuickPlan::NoProject(debug_text(name.as_str())),
        },
        QuickActionKind::Label(name) => {
            let k = label_named(&model.data.labels, name.as_str());
            if k < model.data.labels.len() {
                QuickPlan::Toggle(model.data.labels[k].duplicate())
            } else {
                QuickPlan::NoLabel(debug_text(name.as_str()))
            }
        },
    };
    match plan {
        QuickPlan::Priority(v) => set_priority_to(model, v as i64, geometry, offset),
        QuickPlan::Move(id) => move_to(model, id, geometry, offset),
        QuickPlan::NoProject(shown) => {
            model.toast(Toast::error(joined_text("No project called ", shown.as_str())));
            none
        },
        QuickPlan::Toggle(label) => toggle_label(model, &label, geometry, offset),
        QuickPlan::NoLabel(shown) => {
            model.toast(Toast::error(joined_text("No label called ", shown.as_str())));
            none
        },
    }
}

/// What a quick action comes to once its name is resolved.
enum QuickPlan {
    Priority(u8),
    Move(i64),
    NoProject(String),
    Toggle(Label),
    NoLabel(String),
}

} // verus!
