//! Adding a task from what the quick-add parser read out of a line: the project it names,
//! or the one being shown, or the configured default, or the Inbox; the labels it names;
//! and the word that says what was added and what was not.
use crate::dates::{on_calendar, past_due_note, past_due_text};
use crate::editing::{labels_note, listed};
use crate::grid::dated_sanely;
use crate::label_forms::{first_where, label_views, lemma_first_where, lemma_first_where_is, texts};
use crate::modal::joined;
use crate::model::{project_with_id, toast_view, Level, Model, Scope, Toast, TOAST_LIFETIME};
use crate::models::{duplicate_labels, Label, LabelView, Project, Task, TaskView};
use crate::mutation::{Mutation, MutationView};
use crate::resolve::{resolve_labels, resolve_project, resolved_labels, resolved_project};
use crate::text::{chars_of, eq_fold, eq_ignore_case, push_all, string_of, trim, trimmed};
use crate::update::{edit, edited, effect_views, push_effect, steady_in, told, toasted, Effect, EffectView, Geometry};
use vstd::prelude::*;

verus! {

/// What the quick-add parser read out of a line of text.
pub struct Parsed {
    /// What is left once every token is taken out.
    pub title: String,
    /// The project a `+name` token named.
    pub project: Option<String>,
    /// The labels `*name` tokens named, in order.
    pub labels: Vec<String>,
    /// The priority a `!n` token gave.
    pub priority: Option<u8>,
    /// When it is due, in seconds since the Unix epoch.
    pub due_date: Option<i64>,
    /// When it starts.
    pub start_date: Option<i64>,
}

/// A task built from a parsed line, with what could not be resolved.
pub struct QuickAdd {
    /// The task to create.
    pub task: Task,
    /// Label names no label answers to, each spelling once.
    pub unknown_labels: Vec<String>,
    /// Whether more than one project answers to the name the line gave.
    pub ambiguous_project: bool,
}

/// Whether a project is a real one a task can be filed in: not one of the server's
/// pseudo-projects, and not archived.
pub open spec fn fileable(p: Project) -> bool {
    p.id > 0 && !p.is_archived
}

/// Whether a project is a real one called Inbox, ignoring ASCII case.
pub open spec fn real_inbox() -> spec_fn(Project) -> bool {
    |p: Project| fileable(p) && eq_fold(p.title@, "inbox"@)
}

/// Whether a project is a real one.
pub open spec fn is_real() -> spec_fn(Project) -> bool {
    |p: Project| fileable(p)
}

/// Whether a project is a real one answering to `name`, trimmed, ignoring ASCII case.
pub open spec fn real_named(name: Seq<char>) -> spec_fn(Project) -> bool {
    |p: Project| fileable(p) && eq_fold(p.title@, trimmed(name))
}

/// Which project a new task goes in: the one named, when one was; otherwise the one being
/// shown; otherwise the configured default, when it resolves; otherwise the real Inbox, or
/// failing that the first real project.
pub open spec fn project_chosen(
    projects: Seq<Project>,
    named: Option<Seq<char>>,
    showing: Option<i64>,
    configured: Option<Seq<char>>,
) -> Option<i64> {
    match named {
        Some(n) => resolved_project(projects, n),
        None => match showing {
            Some(id) => Some(id),
            None => {
                let c = match configured {
                    Some(spec) => resolved_project(projects, spec),
                    None => None,
                };
                if c is Some {
                    c
                } else {
                    let k = first_where(projects, real_inbox());
                    let j = first_where(projects, is_real());
                    if k < projects.len() {
                        Some(projects[k].id)
                    } else if j < projects.len() {
                        Some(projects[j].id)
                    } else {
                        None
                    }
                }
            },
        },
    }
}

/// The task a parsed line makes, once its project and labels are settled.
pub open spec fn built_task(p: Parsed, project: i64, labels: Seq<LabelView>) -> TaskView {
    TaskView {
        id: 0,
        title: p.title@,
        description: Seq::empty(),
        done: false,
        priority: match p.priority {
            Some(v) => v as i64,
            None => 0,
        },
        project_id: project,
        labels,
        due_date: p.due_date,
        start_date: p.start_date,
        created: None,
        updated: None,
        assignees: Seq::empty(),
        identifier: Seq::empty(),
        percent_done: None,
        done_at: None,
    }
}

/// Whether `q` is the task a parsed line makes, with what it could not resolve; `None`
/// when no project can be found for it.
pub open spec fn quickadd_of(
    q: Option<QuickAdd>,
    p: Parsed,
    projects: Seq<Project>,
    labels: Seq<Label>,
    showing: Option<i64>,
    configured: Option<Seq<char>>,
) -> bool {
    let named = match p.project {
        Some(n) => Some(n@),
        None => None,
    };
    match project_chosen(projects, named, showing, configured) {
        None => q is None,
        Some(id) => {
            let resolved = resolved_labels(label_views(labels), texts(p.labels@));
            q matches Some(b) && {
                &&& b.task@ == built_task(p, id, resolved.0)
                &&& texts(b.unknown_labels@) == resolved.1
                &&& b.ambiguous_project == match p.project {
                    Some(n) => projects.filter(real_named(n@)).len() > 1,
                    None => false,
                }
            }
        },
    }
}

/// The first project from `from` on for which `keep` holds, given as the kind of project
/// wanted: the real Inbox when `inbox`, any real one otherwise.
fn first_real(projects: &Vec<Project>, inbox: bool) -> (k: usize)
    ensures
        k == first_where(projects@, if inbox {
            real_inbox()
        } else {
            is_real()
        }),
{
    let ghost want = if inbox {
        real_inbox()
    } else {
        is_real()
    };
    let inbox_chars = chars_of("inbox");
    proof {
        reveal_strlit("inbox");
    }
    let mut k: usize = 0;
    while k < projects.len()
        invariant
            k <= projects@.len(),
            inbox_chars@ == "inbox"@,
            want == (if inbox {
                real_inbox()
            } else {
                is_real()
            }),
            forall|j: int| 0 <= j < k ==> !want(#[trigger] projects@[j]),
        decreases projects.len() - k,
    {
        let p = &projects[k];
        let ok = p.id > 0 && !p.is_archived && (!inbox || eq_ignore_case(
            chars_of(p.title.as_str()).as_slice(),
            inbox_chars.as_slice(),
        ));
        if ok {
            proof {
                lemma_first_where_is(projects@, want, k as int);
            }
            return k;
        }
        k += 1;
    }
    proof {
        lemma_first_where_is(projects@, want, k as int);
    }
    k
}

/// Which project a new task goes in.
pub fn project_for(
    projects: &Vec<Project>,
    named: Option<&str>,
    showing: Option<i64>,
    configured: Option<&str>,
) -> (r: Option<i64>)
    ensures
        r == project_chosen(
            projects@,
            match named {
                Some(n) => Some(n@),
                None => None,
            },
            showing,
            match configured {
                Some(c) => Some(c@),
                None => None,
            },
        ),
{
    if let Some(name) = named {
        return resolve_project(projects, name);
    }
    if let Some(id) = showing {
        return Some(id);
    }
    let c = match configured {
        Some(spec) => resolve_project(projects, spec),
        None => None,
    };
    if c.is_some() {
        return c;
    }
    let k = first_real(projects, true);
    if k < projects.len() {
        return Some(projects[k].id);
    }
    let j = first_real(projects, false);
    if j < projects.len() {
        return Some(projects[j].id);
    }
    None
}

/// How many real projects answer to `name`.
fn count_named(projects: &Vec<Project>, name: &str) -> (n: usize)
    ensures
        n == projects@.filter(real_named(name@)).len(),
{
    let wanted = trim(chars_of(name).as_slice());
    let mut n: usize = 0;
    let mut k: usize = 0;
    while k < projects.len()
        invariant
            k <= projects@.len(),
            wanted@ == trimmed(name@),
            n == projects@.take(k as int).filter(real_named(name@)).len(),
            n <= k,
        decreases projects.len() - k,
    {
        proof {
            assert(projects@.take(k + 1).drop_last() =~= projects@.take(k as int));
            reveal(Seq::filter);
        }
        let p = &projects[k];
        if p.id > 0 && !p.is_archived && eq_ignore_case(chars_of(p.title.as_str()).as_slice(), wanted.as_slice()) {
            n += 1;
        }
        k += 1;
    }
    proof {
        assert(projects@.take(k as int) =~= projects@);
    }
    n
}

/// The task a parsed line makes, and what it could not resolve; `None` when there is no
/// project to put it in.
pub fn quickadd_task(
    parsed: &Parsed,
    projects: &Vec<Project>,
    labels: &Vec<Label>,
    showing: Option<i64>,
    configured: Option<&str>,
) -> (q: Option<QuickAdd>)
    ensures
        quickadd_of(
            q,
            *parsed,
            projects@,
            labels@,
            showing,
            match configured {
                Some(c) => Some(c@),
                None => None,
            },
        ),
{
    let named = match &parsed.project {
        Some(n) => Some(n.as_str()),
        None => None,
    };
    let project = match project_for(projects, named, showing, configured) {
        Some(id) => id,
        None => {
            return None;
        },
    };
    let (found, unknown_labels) = resolve_labels(labels, &parsed.labels);
    let ambiguous_project = match &parsed.project {
        Some(n) => count_named(projects, n.as_str()) > 1,
        None => false,
    };
    let task = Task {
        id: 0,
        title: parsed.title.clone(),
        description: String::new(),
        done: false,
        priority: match parsed.priority {
            Some(v) => v as i64,
            None => 0,
        },
        project_id: project,
        labels: found,
        due_date: parsed.due_date,
        start_date: parsed.start_date,
        created: None,
        updated: None,
        assignees: Vec::new(),
        identifier: String::new(),
        percent_done: None,
        done_at: None,
    };
    proof {
        assert(task@.labels == label_views(task.labels@));
        assert(task@.assignees =~= Seq::<Seq<char>>::empty());
        assert(task@ == built_task(*parsed, project, label_views(task.labels@)));
    }
    Some(QuickAdd { task, unknown_labels, ambiguous_project })
}

/// What a project is called in the word about a new task: its title, or nothing when
/// the model does not hold it.
pub open spec fn project_title(m: Model, id: i64) -> Seq<char> {
    let k = first_where(m.data.projects@, project_with_id(id));
    if k < m.data.projects@.len() {
        m.data.projects@[k].title@
    } else {
        Seq::empty()
    }
}

/// What a new task's word says beyond that it was added: the labels left off, a project
/// name more than one project answers to, and a due date already past.
pub open spec fn added_notes(
    unknown: Seq<Seq<char>>,
    ambiguous: bool,
    project: Seq<char>,
    due: Option<i64>,
    now: i64,
    offset: i32,
) -> Seq<Seq<char>> {
    listed(
        if unknown.len() > 0 {
            Some("no label called "@ + joined(unknown, ", "@))
        } else {
            None
        },
    ) + listed(
        if ambiguous {
            Some("more than one project is called "@ + project)
        } else {
            None
        },
    ) + listed(past_due_text(due, now, offset))
}

/// The word about a new task, and how loud it is.
pub open spec fn added_words(title: Seq<char>, notes: Seq<Seq<char>>) -> (Seq<char>, Level) {
    if notes.len() == 0 {
        ("Added \""@ + title + "\""@, Level::Info)
    } else {
        ("Added \""@ + title + "\" \u{2014} "@ + joined(notes, "; "@), Level::Warning)
    }
}

/// The project the list is showing, if it is showing one.
pub open spec fn showing_of(m: Model) -> Option<i64> {
    match m.query.scope {
        Scope::Project(id) => Some(id),
        _ => None,
    }
}

/// Whether `after` and `r` answer a line the quick-add parser read as `p`.
///
/// A line with no title adds nothing and says so. A line with no project to go in is
/// refused, naming the project it asked for. Label names no label answers to stop it
/// before anything changes when `unknown` says to ask, and come back. Otherwise the task
/// is created in the project chosen as [`project_chosen`] says, the word says what was
/// added and warns of what was not, and the per-project counts are read again.
pub open spec fn added(
    before: Model,
    after: Model,
    r: Result<Seq<EffectView>, Seq<Seq<char>>>,
    p: Parsed,
    unknown: crate::editing::Unknown,
    g: Geometry,
    offset: i32,
) -> bool {
    let named = match p.project {
        Some(n) => Some(n@),
        None => None,
    };
    let configured = match before.default_project {
        Some(c) => Some(c@),
        None => None,
    };
    if trimmed(p.title@).len() == 0 {
        told(before, after, "Nothing to add"@, Level::Info) && r == Ok::<Seq<EffectView>, Seq<Seq<char>>>(
            Seq::empty(),
        )
    } else {
        match project_chosen(before.data.projects@, named, showing_of(before), configured) {
            None => told(
                before,
                after,
                match p.project {
                    Some(n) => "No project called \""@ + n@ + "\""@,
                    None => "No project to add to"@,
                },
                Level::Error,
            ) && r == Ok::<Seq<EffectView>, Seq<Seq<char>>>(Seq::empty()),
            Some(id) => {
                let resolved = resolved_labels(label_views(before.data.labels@), texts(p.labels@));
                if unknown == crate::editing::Unknown::Ask && resolved.1.len() > 0 {
                    after == before && r == Err::<Seq<EffectView>, Seq<Seq<char>>>(resolved.1)
                } else {
                    let ambiguous = match p.project {
                        Some(n) => before.data.projects@.filter(real_named(n@)).len() > 1,
                        None => false,
                    };
                    let notes = added_notes(
                        resolved.1,
                        ambiguous,
                        project_title(before, id),
                        p.due_date,
                        before.now,
                        offset,
                    );
                    let said = added_words(p.title@, notes);
                    r matches Ok(es) && {
                        &&& es.len() == 3
                        &&& edited(
                            before,
                            toasted(after, before.status.toast),
                            es.take(2),
                            MutationView::CreateTask { task: built_task(p, id, resolved.0) },
                            g,
                            offset,
                        )
                        &&& toast_view(after.status.toast) == Some((said.0, said.1, TOAST_LIFETIME))
                        &&& es[2] == EffectView::LoadCounts
                    }
                }
            },
        }
    }
}

/// `a` followed by `b`.
fn text_then(a: Vec<char>, b: &str) -> (out: Vec<char>)
    ensures
        out@ == a@ + b@,
{
    let mut out = a;
    push_all(&mut out, chars_of(b).as_slice());
    out
}

/// The word about a new task.
fn added_toast(title: &str, notes: &Vec<String>) -> (t: Toast)
    ensures
        (t.text@, t.level) == added_words(title@, texts(notes@)),
        t.ticks == TOAST_LIFETIME,
{
    proof {
        reveal_strlit("Added \"");
        reveal_strlit("\"");
        reveal_strlit("\" \u{2014} ");
    }
    let w = text_then(chars_of("Added \""), title);
    if notes.len() == 0 {
        let w = text_then(w, "\"");
        Toast::info(string_of(w.as_slice()))
    } else {
        let w = text_then(w, "\" \u{2014} ");
        let joined_notes = crate::editing::join_texts(notes, "; ");
        let w = text_then(w, joined_notes.as_str());
        Toast::warning(string_of(w.as_slice()))
    }
}

/// What a new task's word notes, in order.
fn notes_for(
    unknown: &Vec<String>,
    ambiguous: bool,
    project: &str,
    due: Option<i64>,
    now: i64,
    offset: i32,
) -> (notes: Vec<String>)
    requires
        crate::dates::on_calendar(now),
        crate::dates::valid_offset(offset),
        due matches Some(d) ==> on_calendar(d),
    ensures
        texts(notes@) == added_notes(texts(unknown@), ambiguous, project@, due, now, offset),
{
    proof {
        reveal_strlit("no label called ");
        reveal_strlit("more than one project is called ");
    }
    let mut notes: Vec<String> = Vec::new();
    let ghost a = listed(
        if texts(unknown@).len() > 0 {
            Some("no label called "@ + joined(texts(unknown@), ", "@))
        } else {
            None
        },
    );
    if unknown.len() > 0 {
        let list = crate::editing::join_texts(unknown, ", ");
        let w = text_then(chars_of("no label called "), list.as_str());
        notes.push(string_of(w.as_slice()));
    }
    proof {
        assert(texts(notes@) =~= a);
    }
    let ghost b = listed(
        if ambiguous {
            Some("more than one project is called "@ + project@)
        } else {
            None
        },
    );
    if ambiguous {
        let w = text_then(chars_of("more than one project is called "), project);
        notes.push(string_of(w.as_slice()));
    }
    proof {
        assert(texts(notes@) =~= a + b);
    }
    let late = past_due_note(due, now, offset);
    match late {
        Some(n) => notes.push(n),
        None => {},
    }
    proof {
        assert(texts(notes@) =~= a + b + listed(past_due_text(due, now, offset)));
    }
    notes
}

/// Add the task a line read as `p` describes.
///
/// `p` is what the quick-add parser made of the line. When `unknown` is
/// [`crate::editing::Unknown::Ask`] and label names match no label, nothing changes and the
/// names come back as `Err`, so the caller can ask whether to create them and add the task
/// again with [`crate::editing::Unknown::Report`].
pub fn add_parsed(
    model: &mut Model,
    p: Parsed,
    unknown: crate::editing::Unknown,
    geometry: &Geometry,
    offset: i32,
) -> (r: Result<Vec<Effect>, Vec<String>>)
    requires
        steady_in(*old(model), *geometry, offset),
        p.due_date matches Some(d) ==> on_calendar(d),
        p.start_date matches Some(d) ==> on_calendar(d),
    ensures
        added(*old(model), *final(model), crate::editing::save_view(r), p, unknown, *geometry, offset),
{
    proof {
        reveal_strlit("Nothing to add");
        reveal_strlit("No project called \"");
        reveal_strlit("\"");
        reveal_strlit("No project to add to");
    }
    let none: Vec<Effect> = Vec::new();
    proof {
        assert(effect_views(none@) =~= Seq::<EffectView>::empty());
    }
    let title = trim(chars_of(p.title.as_str()).as_slice());
    if title.len() == 0 {
        model.toast(Toast::info(String::from_str("Nothing to add")));
        return Ok(none);
    }
    let showing = match model.query.scope {
        Scope::Project(id) => Some(id),
        _ => None,
    };
    let configured = match &model.default_project {
        Some(c) => Some(c.as_str()),
        None => None,
    };
    let built = quickadd_task(&p, &model.data.projects, &model.data.labels, showing, configured);
    let built = match built {
        Some(b) => b,
        None => {
            let words = match &p.project {
                Some(n) => {
                    let w = text_then(chars_of("No project called \""), n.as_str());
                    let w = text_then(w, "\"");
                    string_of(w.as_slice())
                },
                None => String::from_str("No project to add to"),
            };
            model.toast(Toast::error(words));
            return Ok(none);
        },
    };
    match unknown {
        crate::editing::Unknown::Ask => {
            if built.unknown_labels.len() > 0 {
                return Err(built.unknown_labels);
            }
        },
        crate::editing::Unknown::Report => {},
    }
    let project = match model.project(built.task.project_id) {
        Some(pr) => pr.title.clone(),
        None => String::new(),
    };
    proof {
        lemma_first_where(model.data.projects@, project_with_id(built.task.project_id));
    }
    let notes = notes_for(&built.unknown_labels, built.ambiguous_project, project.as_str(), p.due_date, model.now, offset);
    let toast = added_toast(p.title.as_str(), &notes);
    let ghost pre = *model;
    let mut effects = edit(model, Mutation::CreateTask { task: built.task }, geometry, offset);
    let ghost edited_model = *model;
    let ghost two = effect_views(effects@);
    model.toast(toast);
    push_effect(&mut effects, Effect::LoadCounts);
    proof {
        assert(effect_views(effects@).take(2) =~= two);
        assert(toasted(*model, old(model).status.toast) == edited_model);
    }
    Ok(effects)
}

} // verus!
