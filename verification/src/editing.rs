//! Saving the task form: what each field the user typed comes to, and the changes that
//! make the task so.
//!
//! Every field is still text when it arrives. The title is trimmed, the priority read as
//! a number from 0 to 5, the project name looked up, the label names matched against the
//! labels that exist. A field that cannot be understood keeps what the task had and is
//! reported; the rest of the save goes ahead.
use crate::actions::{edit_all, edited_all, label_changes, label_edits, labels_where};
use crate::dates::{
    day_of, local_day, on_calendar, past_due_note, past_due_text, relative_date, relative_text,
    valid_offset,
};
use crate::grid::dated_sanely;
use crate::label_forms::{label_views, opt_text, texts};
use crate::modal::{joined, EditDraft, EditDraftView};
use crate::model::{task_with_id, toast_view, Level, Model, Toast, TOAST_LIFETIME};
use crate::models::{duplicate_labels, Label, LabelView, Project, Task, TaskView};
use crate::mutation::{mutation_views, Mutation, MutationView};
use crate::resolve::{
    label_names, names_in, parse_i64, parsed_i64, resolve_labels, resolve_project,
    resolved_labels, resolved_project,
};
use crate::text::{
    chars_of, debug_quoted, debug_text, eq_fold, eq_ignore_case, push_all, string_of, trim,
    trimmed,
};
use crate::update::{
    edit, edited, effect_views, mutation_dated, nothing_selected, selection_of, steady_in, told,
    toasted, Effect, EffectView, Geometry,
};
use vstd::prelude::*;

verus! {

/// What a save does with a label name that no label answers to.
#[derive(Debug, Clone, Copy, PartialEq, Eq, Structural)]
pub enum Unknown {
    /// Stop before anything changes, and hand the names back so the user can be asked
    /// whether to create them. What a save does when it first arrives.
    Ask,
    /// Leave the label off and say so. What a save does once the question was answered,
    /// so it is never asked twice.
    Report,
}

/// The note for a priority field that holds no priority.
pub open spec fn priority_note(typed: Seq<char>) -> Seq<char> {
    debug_quoted(typed) + " is not a priority between 0 and 5"@
}

/// The priority a typed field comes to, and what to say when it is not one: empty clears
/// it, a whole number from 0 to 5 sets it, and anything else keeps what the task had.
pub open spec fn priority_field(typed: Seq<char>, was: i64) -> (i64, Option<Seq<char>>) {
    if typed.len() == 0 {
        (0, None)
    } else {
        match parsed_i64(typed) {
            Some(v) => if 0 <= v <= 5 {
                (v, None)
            } else {
                (was, Some(priority_note(typed)))
            },
            None => (was, Some(priority_note(typed))),
        }
    }
}

/// The due date a typed field comes to, given what the date parser made of the text:
/// empty clears it, and text the parser did not understand keeps what the task had.
pub open spec fn due_field_of(typed: Seq<char>, parsed: Option<i64>, was: Option<i64>) -> (
    Option<i64>,
    Option<Seq<char>>,
) {
    if typed.len() == 0 {
        (None, None)
    } else {
        match parsed {
            Some(d) => (Some(d), None),
            None => (was, Some(debug_quoted(typed) + " is not a date tui-do understands"@)),
        }
    }
}

/// The project a typed field comes to. A field that still reads as it did when the form
/// opened, ignoring ASCII case, keeps the task where it is: two projects can share a name,
/// and looking an untouched name up could answer with the other one. Emptied, it keeps the
/// project and says so; retyped, it is looked up among the projects a task can be filed in.
pub open spec fn project_field(projects: Seq<Project>, typed: Seq<char>, typed_was: Seq<char>, was: i64) -> (
    i64,
    Option<Seq<char>>,
) {
    if eq_fold(typed, typed_was) {
        (was, None)
    } else if typed.len() == 0 {
        (was, Some("A task needs a project; kept the one it was in"@))
    } else {
        match resolved_project(projects, typed) {
            Some(id) => (id, None),
            None => (was, Some("No project called "@ + debug_quoted(typed))),
        }
    }
}

/// What to say of label names that no label answers to, if there are any.
pub open spec fn labels_note(missing: Seq<Seq<char>>) -> Option<Seq<char>> {
    if missing.len() == 0 {
        None
    } else {
        Some("No label called "@ + joined(missing, ", "@))
    }
}

/// A note as a list of none or one.
pub open spec fn listed(note: Option<Seq<char>>) -> Seq<Seq<char>> {
    match note {
        Some(n) => seq![n],
        None => Seq::empty(),
    }
}

/// Everything a save has to say about fields it could not use, in the order of the form.
pub open spec fn edit_notes(
    t: TaskView,
    d: EditDraftView,
    due: Option<i64>,
    projects: Seq<Project>,
    missing: Seq<Seq<char>>,
) -> Seq<Seq<char>> {
    listed(priority_field(d.priority, t.priority).1) + listed(due_field_of(d.due, due, t.due_date).1)
        + listed(project_field(projects, d.project, d.project_was, t.project_id).1) + listed(
        labels_note(missing),
    )
}

/// The task as the form says it should be: every field it does not show kept.
pub open spec fn edited_task(
    t: TaskView,
    d: EditDraftView,
    due: Option<i64>,
    projects: Seq<Project>,
    found: Seq<LabelView>,
) -> TaskView {
    TaskView {
        title: trimmed(d.title),
        description: d.description,
        priority: priority_field(d.priority, t.priority).0,
        due_date: due_field_of(d.due, due, t.due_date).0,
        project_id: project_field(projects, d.project, d.project_was, t.project_id).0,
        labels: found,
        ..t
    }
}

/// The ids of some labels, in order.
pub open spec fn label_ids(labels: Seq<LabelView>) -> Seq<i64> {
    labels.map_values(|l: LabelView| l.id)
}

/// The changes a save makes: the task's own fields when any of them moved, then the labels
/// it names and lacks put on, then the ones it holds and does not name taken off. Labels
/// travel in requests of their own, never in the task's.
pub open spec fn edit_changes(t: TaskView, a: TaskView, found: Seq<LabelView>) -> Seq<MutationView> {
    (if a == t {
        Seq::empty()
    } else {
        seq![MutationView::UpdateTask { before: t, after: a }]
    }) + label_changes(found, t, label_ids(found))
}

/// The reader's day of a date, if there is one.
pub open spec fn day_in(date: Option<i64>, offset: i32) -> Option<int> {
    match date {
        Some(d) => Some(local_day(d, offset)),
        None => None,
    }
}

/// The warning a save earns for moving the due date onto a day already past. Only when
/// the form moved the day: an overdue task with some other field edited is not a task the
/// user just backdated.
pub open spec fn backdate_note(t: TaskView, a: TaskView, now: i64, offset: i32) -> Option<Seq<char>> {
    if day_in(a.due_date, offset) != day_in(t.due_date, offset) {
        past_due_text(a.due_date, now, offset)
    } else {
        None
    }
}

/// What a save says, and how loudly: what it could not use, when there is any; that
/// nothing changed; or that it saved, with the warning for a date already past.
pub open spec fn save_words(notes: Seq<Seq<char>>, changes: nat, backdated: Option<Seq<char>>) -> (
    Seq<char>,
    Level,
) {
    if notes.len() > 0 {
        (joined(notes, " \u{b7} "@), Level::Error)
    } else if changes == 0 {
        ("Nothing changed"@, Level::Info)
    } else {
        match backdated {
            Some(n) => ("Saved \u{2014} "@ + n, Level::Warning),
            None => ("Saved"@, Level::Info),
        }
    }
}

/// A save's answer as values: the effects, or the label names to ask about.
pub open spec fn save_view(r: Result<Vec<Effect>, Vec<String>>) -> Result<Seq<EffectView>, Seq<Seq<char>>> {
    match r {
        Ok(es) => Ok(effect_views(es@)),
        Err(names) => Err(texts(names@)),
    }
}

/// What saving the draft `d` makes of `before`, with `due` what the date parser made of
/// the due field.
///
/// An empty title refuses the save. Label names no label answers to stop it before
/// anything changes when `unknown` says to ask, and the names come back. Otherwise every
/// field is read, the task changed as far as they allow, and the fields that could not be
/// used are reported together.
pub open spec fn edit_applied(
    before: Model,
    after: Model,
    r: Result<Seq<EffectView>, Seq<Seq<char>>>,
    d: EditDraftView,
    due: Option<i64>,
    unknown: Unknown,
    g: Geometry,
    offset: i32,
) -> bool {
    let resolved = resolved_labels(label_views(before.data.labels@), names_in(d.labels));
    let found = resolved.0;
    let missing = resolved.1;
    let t = d.before;
    if trimmed(d.title).len() == 0 {
        told(before, after, "A task needs a title"@, Level::Error) && r == Ok::<
            Seq<EffectView>,
            Seq<Seq<char>>,
        >(Seq::empty())
    } else if unknown == Unknown::Ask && missing.len() > 0 {
        after == before && r == Err::<Seq<EffectView>, Seq<Seq<char>>>(missing)
    } else {
        let a = edited_task(t, d, due, before.data.projects@, found);
        let notes = edit_notes(t, d, due, before.data.projects@, missing);
        let changes = edit_changes(t, a, found);
        let said = save_words(notes, changes.len(), backdate_note(t, a, before.now, offset));
        r matches Ok(es) && exists|m: Model|
            #[trigger] told(before, m, said.0, said.1) && edited_all(m, after, es, changes, g, offset)
    }
}

/// `a` followed by `b`.
fn concat(a: &str, b: &str) -> (s: String)
    ensures
        s@ == a@ + b@,
{
    let mut out = chars_of(a);
    let more = chars_of(b);
    push_all(&mut out, more.as_slice());
    string_of(out.as_slice())
}

/// Whether two texts are the same.
pub(crate) fn same_text(a: &str, b: &str) -> (r: bool)
    ensures
        r == (a@ == b@),
{
    let x = chars_of(a);
    let y = chars_of(b);
    if x.len() != y.len() {
        return false;
    }
    let mut i: usize = 0;
    while i < x.len()
        invariant
            x.len() == y.len(),
            x@ == a@,
            y@ == b@,
            i <= x.len(),
            forall|k: int| 0 <= k < i ==> x@[k] == y@[k],
        decreases x.len() - i,
    {
        if x[i] != y[i] {
            assert(a@[i as int] != b@[i as int]);
            return false;
        }
        i += 1;
    }
    assert(x@ =~= y@);
    true
}

/// Whether two lists of labels are the same, label for label.
fn same_labels(a: &Vec<Label>, b: &Vec<Label>) -> (r: bool)
    ensures
        r == (label_views(a@) == label_views(b@)),
{
    if a.len() != b.len() {
        assert(label_views(a@).len() != label_views(b@).len());
        return false;
    }
    let mut i: usize = 0;
    while i < a.len()
        invariant
            a.len() == b.len(),
            i <= a.len(),
            forall|k: int| 0 <= k < i ==> label_views(a@)[k] == label_views(b@)[k],
        decreases a.len() - i,
    {
        let same = a[i].id == b[i].id && same_text(a[i].title.as_str(), b[i].title.as_str())
            && same_text(a[i].hex_color.as_str(), b[i].hex_color.as_str());
        if !same {
            assert(label_views(a@)[i as int] != label_views(b@)[i as int]);
            return false;
        }
        assert(label_views(a@)[i as int] == label_views(b@)[i as int]);
        i += 1;
    }
    assert(label_views(a@) =~= label_views(b@));
    true
}

/// The ids of some labels, in order.
fn ids_of(labels: &Vec<Label>) -> (ids: Vec<i64>)
    ensures
        ids@ == label_ids(label_views(labels@)),
{
    let mut ids: Vec<i64> = Vec::new();
    let mut i: usize = 0;
    while i < labels.len()
        invariant
            i <= labels.len(),
            ids@ == label_ids(label_views(labels@)).take(i as int),
        decreases labels.len() - i,
    {
        ids.push(labels[i].id);
        proof {
            assert(ids@ =~= label_ids(label_views(labels@)).take(i + 1));
        }
        i += 1;
    }
    assert(label_ids(label_views(labels@)).take(i as int) =~= label_ids(label_views(labels@)));
    ids
}

/// Texts joined by a separator.
pub(crate) fn join_texts(parts: &Vec<String>, sep: &str) -> (s: String)
    ensures
        s@ == joined(texts(parts@), sep@),
{
    let ghost all = texts(parts@);
    let between = chars_of(sep);
    let mut out: Vec<char> = Vec::new();
    let mut i: usize = 0;
    while i < parts.len()
        invariant
            i <= parts.len(),
            all == texts(parts@),
            all.len() == parts@.len(),
            between@ == sep@,
            out@ == joined(all.subrange(0, i as int), sep@),
        decreases parts.len() - i,
    {
        if i > 0 {
            push_all(&mut out, between.as_slice());
        }
        let part = chars_of(parts[i].as_str());
        push_all(&mut out, part.as_slice());
        proof {
            assert(all.subrange(0, i + 1).drop_last() =~= all.subrange(0, i as int));
            assert(all[i as int] == parts@[i as int]@);
        }
        i += 1;
    }
    assert(all.subrange(0, all.len() as int) =~= all);
    string_of(out.as_slice())
}

/// The priority a typed field comes to.
fn priority_from(typed: &str, was: i64) -> (r: (i64, Option<String>))
    ensures
        r.0 == priority_field(typed@, was).0,
        opt_text(r.1) == priority_field(typed@, was).1,
{
    let chars = chars_of(typed);
    if chars.len() == 0 {
        return (0, None);
    }
    match parse_i64(chars.as_slice()) {
        Some(v) => {
            if 0 <= v && v <= 5 {
                return (v, None);
            }
        },
        None => {},
    }
    (was, Some(concat(debug_text(typed).as_str(), " is not a priority between 0 and 5")))
}

/// The due date a typed field comes to, given what the parser made of it.
fn due_from(typed: &str, parsed: Option<i64>, was: Option<i64>) -> (r: (Option<i64>, Option<String>))
    ensures
        r.0 == due_field_of(typed@, parsed, was).0,
        opt_text(r.1) == due_field_of(typed@, parsed, was).1,
{
    let chars = chars_of(typed);
    if chars.len() == 0 {
        return (None, None);
    }
    match parsed {
        Some(d) => (Some(d), None),
        None => (was, Some(concat(debug_text(typed).as_str(), " is not a date tui-do understands"))),
    }
}

/// The project a typed field comes to.
fn project_from(projects: &Vec<Project>, typed: &str, typed_was: &str, was: i64) -> (r: (
    i64,
    Option<String>,
))
    ensures
        r.0 == project_field(projects@, typed@, typed_was@, was).0,
        opt_text(r.1) == project_field(projects@, typed@, typed_was@, was).1,
{
    let now = chars_of(typed);
    let then = chars_of(typed_was);
    if eq_ignore_case(now.as_slice(), then.as_slice()) {
        return (was, None);
    }
    if now.len() == 0 {
        return (was, Some(String::from_str("A task needs a project; kept the one it was in")));
    }
    match resolve_project(projects, typed) {
        Some(id) => (id, None),
        None => (was, Some(concat("No project called ", debug_text(typed).as_str()))),
    }
}

/// What to say of label names that no label answers to.
fn labels_note_of(missing: &Vec<String>) -> (r: Option<String>)
    ensures
        opt_text(r) == labels_note(texts(missing@)),
{
    if missing.len() == 0 {
        return None;
    }
    let names = join_texts(missing, ", ");
    Some(concat("No label called ", names.as_str()))
}

/// Add a note to the list, if there is one.
fn note(notes: &mut Vec<String>, n: Option<String>)
    ensures
        texts(final(notes)@) == texts(old(notes)@) + listed(opt_text(n)),
{
    match n {
        Some(text) => {
            let ghost was = texts(notes@);
            notes.push(text);
            proof {
                assert(texts(notes@) =~= was + listed(opt_text(Some(text))));
            }
        },
        None => {
            assert(listed(opt_text(n)) =~= Seq::<Seq<char>>::empty());
            assert(texts(notes@) + listed(opt_text(n)) =~= texts(notes@));
        },
    }
}

/// The reader's day of a date, if there is one.
fn day_opt(date: Option<i64>, offset: i32) -> (r: Option<i64>)
    requires
        date matches Some(d) ==> on_calendar(d),
        valid_offset(offset),
    ensures
        match r {
            Some(x) => day_in(date, offset) == Some(x as int),
            None => day_in(date, offset) is None,
        },
{
    match date {
        Some(d) => Some(day_of(d, offset)),
        None => None,
    }
}

/// Whether a save moves the due date to another of the reader's days.
fn day_moved(a: Option<i64>, b: Option<i64>, offset: i32) -> (r: bool)
    requires
        a matches Some(d) ==> on_calendar(d),
        b matches Some(d) ==> on_calendar(d),
        valid_offset(offset),
    ensures
        r == (day_in(a, offset) != day_in(b, offset)),
{
    match (day_opt(a, offset), day_opt(b, offset)) {
        (Some(x), Some(y)) => x != y,
        (None, None) => false,
        _ => true,
    }
}

/// The task as the form says it should be, and what the save could not use.
fn read_fields(
    projects: &Vec<Project>,
    draft: &EditDraft,
    title: Vec<char>,
    due: Option<i64>,
    found: &Vec<Label>,
    missing: &Vec<String>,
) -> (r: (Task, Vec<String>))
    requires
        title@ == trimmed(draft@.title),
    ensures
        r.0@ == edited_task(draft@.before, draft@, due, projects@, label_views(found@)),
        texts(r.1@) == edit_notes(draft@.before, draft@, due, projects@, texts(missing@)),
{
    let before: &Task = &draft.before;
    let (priority, n1) = priority_from(draft.priority.as_str(), before.priority);
    let (due_date, n2) = due_from(draft.due.as_str(), due, before.due_date);
    let (project_id, n3) = project_from(
        projects,
        draft.project.as_str(),
        draft.project_was.as_str(),
        before.project_id,
    );
    let n4 = labels_note_of(missing);
    let mut notes: Vec<String> = Vec::new();
    proof {
        assert(texts(notes@) =~= Seq::<Seq<char>>::empty());
    }
    note(&mut notes, n1);
    note(&mut notes, n2);
    note(&mut notes, n3);
    note(&mut notes, n4);
    let mut after = before.duplicate();
    after.title = string_of(title.as_slice());
    after.description = draft.description.clone();
    after.priority = priority;
    after.due_date = due_date;
    after.project_id = project_id;
    after.labels = duplicate_labels(found);
    proof {
        let a = edited_task(draft@.before, draft@, due, projects@, label_views(found@));
        assert(after@.labels == label_views(found@));
        assert(after@ == a);
    }
    (after, notes)
}

/// Whether the form changed any field of the task it edits.
fn fields_moved(a: &Task, t: &Task) -> (r: bool)
    requires
        a@ == (TaskView {
            title: a@.title,
            description: a@.description,
            priority: a@.priority,
            due_date: a@.due_date,
            project_id: a@.project_id,
            labels: a@.labels,
            ..t@
        }),
    ensures
        r == (a@ != t@),
{
    let same_due = match (a.due_date, t.due_date) {
        (Some(x), Some(y)) => x == y,
        (None, None) => true,
        _ => false,
    };
    let same = same_text(a.title.as_str(), t.title.as_str()) && same_text(
        a.description.as_str(),
        t.description.as_str(),
    ) && a.priority == t.priority && same_due && a.project_id == t.project_id && same_labels(
        &a.labels,
        &t.labels,
    );
    proof {
        if same {
            assert(a@.title == t@.title);
            assert(a@.description == t@.description);
            assert(a@.labels == t@.labels);
            assert(a@ == t@);
        }
    }
    !same
}

/// The changes a save makes, in order.
fn plan_changes(t: &Task, a: Task, found: &Vec<Label>) -> (xs: Vec<Mutation>)
    requires
        a@ == (TaskView {
            title: a@.title,
            description: a@.description,
            priority: a@.priority,
            due_date: a@.due_date,
            project_id: a@.project_id,
            labels: a@.labels,
            ..t@
        }),
        dated_sanely(t@),
        dated_sanely(a@),
    ensures
        mutation_views(xs@) == edit_changes(t@, a@, label_views(found@)),
        forall|k: int| 0 <= k < xs@.len() ==> mutation_dated(#[trigger] xs@[k]@),
{
    let ghost av = a@;
    let ghost found_v = label_views(found@);
    let moved = fields_moved(&a, t);
    let ids = ids_of(found);
    let on = labels_where(found, &t.labels, &ids, true);
    let off = labels_where(&t.labels, &t.labels, &ids, false);
    let mut xs = label_edits(t.id, on, off);
    proof {
        assert(mutation_views(xs@) =~= label_changes(found_v, t@, label_ids(found_v))) by {
            assert(label_views(t.labels@) == t@.labels);
        }
    }
    if moved {
        let ghost rest = xs@;
        xs.insert(0, Mutation::UpdateTask { before: t.duplicate(), after: a });
        proof {
            assert(mutation_views(xs@) =~= seq![MutationView::UpdateTask { before: t@, after: av }]
                + mutation_views(rest));
            assert forall|k: int| 0 <= k < xs@.len() implies mutation_dated(#[trigger] xs@[k]@) by {
                if k > 0 {
                    assert(xs@[k] == rest[k - 1]);
                }
            }
        }
    }
    proof {
        assert(mutation_views(xs@) =~= edit_changes(t@, av, found_v));
    }
    xs
}

/// The toast a save ends with.
fn save_toast(notes: &Vec<String>, changes: usize, backdated: Option<String>) -> (toast: Toast)
    ensures
        (toast.text@, toast.level) == save_words(texts(notes@), changes as nat, opt_text(backdated)),
        toast.ticks == crate::model::TOAST_LIFETIME,
{
    proof {
        reveal_strlit("Nothing changed");
        reveal_strlit("Saved");
    }
    if notes.len() > 0 {
        Toast::error(join_texts(notes, " \u{b7} "))
    } else if changes == 0 {
        Toast::info(String::from_str("Nothing changed"))
    } else {
        match backdated {
            Some(n) => Toast::warning(concat("Saved \u{2014} ", n.as_str())),
            None => Toast::info(String::from_str("Saved")),
        }
    }
}

/// Save the task form.
///
/// `due` is what the quick-add date parser made of the due field, `None` where it
/// understood nothing; it is not read when the field is empty, which clears the date. The
/// title is trimmed and must not be empty. When `unknown` is [`Unknown::Ask`] and label
/// names match no label, nothing changes and the names come back as `Err`, so the caller
/// can ask whether to create them and save again with [`Unknown::Report`]. Otherwise the
/// task is changed as far as its fields allow, labels go on and come off one request each,
/// and the toast says what could not be used, that nothing changed, or that it saved, with
/// a warning when the due date moved onto a day already past.
pub fn apply_edit(
    model: &mut Model,
    draft: EditDraft,
    due: Option<i64>,
    unknown: Unknown,
    geometry: &Geometry,
    offset: i32,
) -> (r: Result<Vec<Effect>, Vec<String>>)
    requires
        steady_in(*old(model), *geometry, offset),
        dated_sanely(draft@.before),
        due matches Some(d) ==> on_calendar(d),
    ensures
        edit_applied(*old(model), *final(model), save_view(r), draft@, due, unknown, *geometry, offset),
{
    proof {
        reveal_strlit("A task needs a title");
    }
    let title_chars = chars_of(draft.title.as_str());
    let title = trim(title_chars.as_slice());
    if title.len() == 0 {
        model.toast(Toast::error(String::from_str("A task needs a title")));
        let none: Vec<Effect> = Vec::new();
        proof {
            assert(effect_views(none@) =~= Seq::<EffectView>::empty());
        }
        return Ok(none);
    }
    let wanted = label_names(draft.labels.as_str());
    let (found, missing) = resolve_labels(&model.data.labels, &wanted);
    match unknown {
        Unknown::Ask => {
            if missing.len() > 0 {
                return Err(missing);
            }
        },
        Unknown::Report => {},
    }
    let ghost t = draft@.before;
    let ghost found_v = label_views(found@);
    let ghost a = edited_task(t, draft@, due, model.data.projects@, found_v);
    let ghost notes_v = edit_notes(t, draft@, due, model.data.projects@, texts(missing@));
    let ghost changes = edit_changes(t, a, found_v);
    let ghost said = save_words(notes_v, changes.len(), backdate_note(t, a, model.now, offset));
    let (after, notes) = read_fields(&model.data.projects, &draft, title, due, &found, &missing);
    let moved = day_moved(after.due_date, draft.before.due_date, offset);
    let backdated = if moved {
        past_due_note(after.due_date, model.now, offset)
    } else {
        None
    };
    proof {
        assert(opt_text(backdated) == backdate_note(t, a, old(model).now, offset));
    }
    let xs = plan_changes(&draft.before, after, &found);
    let toast = save_toast(&notes, xs.len(), backdated);
    proof {
        assert(xs@.len() == changes.len());
        assert((toast.text@, toast.level) == said);
    }
    model.toast(toast);
    let ghost m = *model;
    proof {
        assert(told(*old(model), m, said.0, said.1));
    }
    let effects = edit_all(model, xs, geometry, offset);
    proof {
        assert(edited_all(m, *model, effect_views(effects@), changes, *geometry, offset));
        let resolved = resolved_labels(label_views(old(model).data.labels@), names_in(draft@.labels));
        assert(resolved.0 == found_v);
        assert(resolved.1 == texts(missing@));
        assert(!(unknown == Unknown::Ask && texts(missing@).len() > 0));
        assert(trimmed(draft@.title).len() != 0);
    }
    Ok(effects)
}

/// Save the task form when the model and the draft are ones [`apply_edit`] can be asked
/// for: the model lays out, and the draft's task and the parsed date are on the calendar.
/// Otherwise nothing changes and the answer is `None`.
pub fn try_apply_edit(
    model: &mut Model,
    draft: EditDraft,
    due: Option<i64>,
    unknown: Unknown,
    geometry: &Geometry,
    offset: i32,
) -> (r: Option<Result<Vec<Effect>, Vec<String>>>)
    ensures
        match r {
            Some(saved) => steady_in(*old(model), *geometry, offset) && dated_sanely(draft@.before)
                && (due matches Some(d) ==> on_calendar(d)) && edit_applied(
                *old(model),
                *final(model),
                save_view(saved),
                draft@,
                due,
                unknown,
                *geometry,
                offset,
            ),
            None => !(steady_in(*old(model), *geometry, offset) && dated_sanely(draft@.before) && (
            due matches Some(d) ==> on_calendar(d))) && *final(model) == *old(model),
        },
{
    let due_ok = match due {
        Some(d) => -8_334_601_228_800 <= d && d <= 8_210_266_790_399,
        None => true,
    };
    if !due_ok || !crate::grid::sanely_dated(&draft.before) {
        return None;
    }
    if !crate::actions::is_steady(model, geometry, offset) {
        return None;
    }
    Some(apply_edit(model, draft, due, unknown, geometry, offset))
}

/// What setting a due date says, and how loudly: the day it is now due, loudly when that
/// day has already passed, since `2024` typed where `2026` was meant looks exactly like a
/// deliberate backdate once stored; or that the date was cleared.
pub open spec fn due_words(due: Option<i64>, now: i64, offset: i32) -> (Seq<char>, Level) {
    match due {
        Some(d) => if d < now {
            ("Due "@ + relative_text(Some(d), now, offset) + " \u{2014} that date has passed"@, Level::Warning)
        } else {
            ("Due "@ + relative_text(Some(d), now, offset), Level::Info)
        },
        None => ("Due date cleared"@, Level::Info),
    }
}

/// Whether `after` and `es` answer the due-date form's `text`, with `parsed` what the date
/// parser made of it, trimmed: text the parser did not understand is refused; otherwise
/// the selected task is due then, or not at all for an empty field; a word that none is
/// selected, or that nothing changed, when that is so.
pub open spec fn due_set(
    before: Model,
    after: Model,
    es: Seq<EffectView>,
    text: Seq<char>,
    parsed: Option<i64>,
    g: Geometry,
    offset: i32,
) -> bool {
    let typed = trimmed(text);
    if typed.len() > 0 && parsed is None {
        told(before, after, debug_quoted(typed) + " is not a date tui-do understands"@, Level::Error)
            && es.len() == 0
    } else {
        let due = if typed.len() == 0 {
            None
        } else {
            parsed
        };
        match selection_of(before) {
            None => told(before, after, "No task selected"@, Level::Info) && es.len() == 0,
            Some(k) => {
                let t = before.data.tasks@[k]@;
                let x = TaskView { due_date: due, ..t };
                if x == t {
                    told(before, after, "Nothing changed"@, Level::Info) && es.len() == 0
                } else {
                    let said = due_words(due, before.now, offset);
                    &&& toast_view(after.status.toast) == Some((said.0, said.1, TOAST_LIFETIME))
                    &&& edited(
                        toasted(before, after.status.toast),
                        after,
                        es,
                        MutationView::UpdateTask { before: t, after: x },
                        g,
                        offset,
                    )
                }
            },
        }
    }
}

/// The toast for a due date set.
fn due_toast(due: Option<i64>, now: i64, offset: i32) -> (toast: Toast)
    requires
        on_calendar(now),
        valid_offset(offset),
        due matches Some(d) ==> on_calendar(d),
    ensures
        (toast.text@, toast.level) == due_words(due, now, offset),
        toast.ticks == TOAST_LIFETIME,
{
    proof {
        reveal_strlit("Due ");
        reveal_strlit("Due date cleared");
    }
    match due {
        Some(d) => {
            let when = relative_date(Some(d), now, offset);
            let said = concat("Due ", when.as_str());
            if d < now {
                Toast::warning(concat(said.as_str(), " \u{2014} that date has passed"))
            } else {
                Toast::info(said)
            }
        },
        None => Toast::info(String::from_str("Due date cleared")),
    }
}

/// Set the selected task's due date from the form's text, with `parsed` what the quick-add
/// date parser made of it, so the field understands `tomorrow` and `next friday` as the
/// edit form's does. An empty field clears the date.
pub fn set_due_to(model: &mut Model, text: &str, parsed: Option<i64>, geometry: &Geometry, offset: i32) -> (effects:
    Vec<Effect>)
    requires
        steady_in(*old(model), *geometry, offset),
        parsed matches Some(d) ==> on_calendar(d),
    ensures
        due_set(*old(model), *final(model), effect_views(effects@), text@, parsed, *geometry, offset),
{
    proof {
        if let Some(id) = model.list.selected {
            crate::label_forms::lemma_first_where(model.data.tasks@, task_with_id(id));
        }
        reveal_strlit("Nothing changed");
    }
    let chars = chars_of(text);
    let typed = trim(chars.as_slice());
    let due = if typed.len() == 0 {
        None
    } else {
        match parsed {
            Some(d) => Some(d),
            None => {
                let shown = debug_text(string_of(typed.as_slice()).as_str());
                model.toast(Toast::error(concat(shown.as_str(), " is not a date tui-do understands")));
                let none: Vec<Effect> = Vec::new();
                proof {
                    assert(effect_views(none@).len() == 0);
                }
                return none;
            },
        }
    };
    let change = match model.selected_task() {
        Some(task) => {
            let same = match (task.due_date, due) {
                (Some(a), Some(b)) => a == b,
                (None, None) => true,
                _ => false,
            };
            if same {
                None
            } else {
                let before = task.duplicate();
                let mut after = task.duplicate();
                after.due_date = due;
                Some(Mutation::UpdateTask { before, after })
            }
        },
        None => {
            return nothing_selected(model);
        },
    };
    match change {
        None => {
            model.toast(Toast::info(String::from_str("Nothing changed")));
            Vec::new()
        },
        Some(x) => {
            let toast = due_toast(due, model.now, offset);
            model.toast(toast);
            edit(model, x, geometry, offset)
        },
    }
}

/// Set the selected task's due date when the model lays out and the parsed date is on the
/// calendar; otherwise leave the model as it is and answer `None`.
pub fn try_set_due_to(model: &mut Model, text: &str, parsed: Option<i64>, geometry: &Geometry, offset: i32) -> (r:
    Option<Vec<Effect>>)
    ensures
        match r {
            Some(effects) => steady_in(*old(model), *geometry, offset) && (parsed matches Some(d) ==> on_calendar(d))
                && due_set(*old(model), *final(model), effect_views(effects@), text@, parsed, *geometry, offset),
            None => !(steady_in(*old(model), *geometry, offset) && (parsed matches Some(d) ==> on_calendar(d)))
                && *final(model) == *old(model),
        },
{
    let parsed_ok = match parsed {
        Some(d) => -8_334_601_228_800 <= d && d <= 8_210_266_790_399,
        None => true,
    };
    if !parsed_ok || !crate::actions::is_steady(model, geometry, offset) {
        return None;
    }
    Some(set_due_to(model, text, parsed, geometry, offset))
}

} // verus!
