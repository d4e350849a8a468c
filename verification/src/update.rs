//! What a key, or a command, does to the interface.
//!
//! Every function here takes the model, changes it, and returns the side effects it would
//! like performed: it never waits, reads a clock or touches a store. Where the panes are
//! is handed in as [`Frames`], because laying them out is the renderer's business.
use crate::columns::{heading_text, Column, ColumnLayout, ColumnSpec};
use crate::dates::{on_calendar, valid_offset};
use crate::drawing::Rect;
use crate::grid::{all_dated_sanely, dated_sanely, first_visible, heights_in, RowContext};
use crate::rows::{asks_fit, measure, measured, shows, MeasuredColumn, MAX_ROW_LINES};
use crate::label_forms::{first_where, lemma_first_where, lemma_first_where_is};
use crate::model::{
    task_with_id, toast_view, Focus, Level, Model, Query, QueryView, Scope, Snapshot, Status,
    TaskList, Toast, TOAST_LIFETIME,
};
use crate::model::{toggled_spec, Panes, PaneState};
use crate::mutation::{Mutation, MutationView};
use crate::text::{chars_of, decimal, decimal_of, push_all, string_of};
use crate::label_forms::{label_views, LabelsState};
use crate::modal::{Candidate, Modal, Pick, PickerState};
use crate::models::{project_views, Label, LabelView, Project, ProjectView, Task, TaskView};
use crate::mutation::{inverse_of, maybe_view, mutation_views};
use crate::sidebar::{
    drawable, parent_in, row_views, rows, sidebar_rows, target_of, RowView, SidebarRow,
    SidebarState, SidebarTarget,
};
use vstd::prelude::*;

verus! {

/// Where the panes are at the current size, as the layout placed them.
#[derive(Debug, Clone, Copy, PartialEq, Eq, Structural)]
pub struct Frames {
    /// The project tree, when there is room for it and it is wanted.
    pub sidebar: Option<Rect>,
    /// The task list, headings included.
    pub list: Rect,
    /// The preview, when there is room for it and it is wanted.
    pub preview: Option<Rect>,
}

/// Where the panes go at the current size, for each choice of optional panes wanted: the
/// layout's answer, which the renderer computes.
#[derive(Debug, Clone, Copy, PartialEq, Eq, Structural)]
pub struct Geometry {
    /// Neither the sidebar nor the preview wanted.
    pub neither: Frames,
    /// The sidebar wanted, the preview not.
    pub sidebar: Frames,
    /// The preview wanted, the sidebar not.
    pub preview: Frames,
    /// Both wanted.
    pub both: Frames,
}

/// The frames `g` gives when the sidebar is wanted or not, and the preview.
pub open spec fn pick(g: Geometry, sidebar: bool, preview: bool) -> Frames {
    if sidebar {
        if preview {
            g.both
        } else {
            g.sidebar
        }
    } else if preview {
        g.preview
    } else {
        g.neither
    }
}

/// Whether the preview is wanted in `m`: at this width, and with a task to show.
pub open spec fn preview_wanted_in(m: Model) -> bool {
    &&& crate::model::wanted_spec(m.panes.preview, m.size.0, crate::model::PREVIEW_AUTO_MIN)
    &&& selection_of(m) is Some
}

/// Whether the sidebar is wanted in `m` at this width.
pub open spec fn sidebar_wanted_in(m: Model) -> bool {
    crate::model::wanted_spec(m.panes.sidebar, m.size.0, crate::model::SIDEBAR_AUTO_MIN)
}

/// Where the panes are for `m`.
pub open spec fn frames_of(m: Model, g: Geometry) -> Frames {
    pick(g, sidebar_wanted_in(m), preview_wanted_in(m))
}

/// Where the panes are for this model.
pub fn frames(model: &Model, geometry: &Geometry) -> (f: Frames)
    ensures
        f == frames_of(*model, *geometry),
{
    proof {
        if let Some(id) = model.list.selected {
            lemma_first_where(model.data.tasks@, task_with_id(id));
        }
    }
    let sidebar = model.panes.sidebar_wanted(model.size.0);
    let preview = model.preview_wanted();
    if sidebar {
        if preview {
            geometry.both
        } else {
            geometry.sidebar
        }
    } else if preview {
        geometry.preview
    } else {
        geometry.neither
    }
}

/// What the interface asks the runtime to do.
pub enum Effect {
    /// Read tasks, and answer carrying `id`.
    LoadTasks { id: u64, query: Query },
    /// Read the project list.
    LoadProjects,
    /// Read the label list.
    LoadLabels,
    /// Read per-project task counts for the sidebar.
    LoadCounts,
    /// Read how many changes are still queued.
    LoadPending,
    /// Remember the project to open on next launch; `None` means everything.
    RememberProject(Option<i64>),
    /// Apply a change locally and queue it for the server.
    Apply(Mutation),
    /// Push, then fetch only what the server says has changed.
    SyncNow,
    /// Push, then fetch everything and remove what the server no longer has.
    SyncFull,
    /// Leave the application.
    Quit,
    /// Open this address in the browser.
    OpenUrl(String),
    /// Put this address on the clipboard.
    CopyToClipboard(String),
}

/// An effect as a value.
pub enum EffectView {
    LoadTasks { id: u64, query: QueryView },
    LoadProjects,
    LoadLabels,
    LoadCounts,
    LoadPending,
    RememberProject(Option<i64>),
    Apply(MutationView),
    SyncNow,
    SyncFull,
    Quit,
    OpenUrl(Seq<char>),
    CopyToClipboard(Seq<char>),
}

impl View for Effect {
    type V = EffectView;

    open spec fn view(&self) -> EffectView {
        match self {
            Effect::LoadTasks { id, query } => EffectView::LoadTasks { id: *id, query: query@ },
            Effect::LoadProjects => EffectView::LoadProjects,
            Effect::LoadLabels => EffectView::LoadLabels,
            Effect::LoadCounts => EffectView::LoadCounts,
            Effect::LoadPending => EffectView::LoadPending,
            Effect::RememberProject(p) => EffectView::RememberProject(*p),
            Effect::Apply(m) => EffectView::Apply(m@),
            Effect::SyncNow => EffectView::SyncNow,
            Effect::SyncFull => EffectView::SyncFull,
            Effect::Quit => EffectView::Quit,
            Effect::OpenUrl(u) => EffectView::OpenUrl(u@),
            Effect::CopyToClipboard(u) => EffectView::CopyToClipboard(u@),
        }
    }
}

/// Effects as values.
pub open spec fn effect_views(es: Seq<Effect>) -> Seq<EffectView> {
    es.map_values(|e: Effect| e@)
}

/// Add one effect at the end.
pub(crate) fn push_effect(effects: &mut Vec<Effect>, effect: Effect)
    ensures
        effect_views(final(effects)@) == effect_views(old(effects)@).push(effect@),
{
    let ghost e = effect@;
    effects.push(effect);
    proof {
        assert(effect_views(effects@) =~= effect_views(old(effects)@).push(e));
    }
}

/// The id after `id`, wrapping at the end of the numbers.
pub open spec fn next_id(id: u64) -> u64 {
    if id == u64::MAX {
        0
    } else {
        (id + 1) as u64
    }
}

/// The model once the current query has been asked for again under a fresh id: the list
/// is loading.
pub open spec fn reloading(m: Model) -> Model {
    Model { query_id: next_id(m.query_id), data: Snapshot { loading: true, ..m.data }, ..m }
}

/// The effect that asks for the list `m` describes.
pub open spec fn load_of(m: Model) -> EffectView {
    EffectView::LoadTasks { id: m.query_id, query: m.query@ }
}

/// Ask for the current query again under a fresh id.
pub fn reload_tasks(model: &mut Model) -> (effects: Vec<Effect>)
    ensures
        *final(model) == reloading(*old(model)),
        effect_views(effects@) == seq![load_of(reloading(*old(model)))],
{
    model.query_id = if model.query_id == u64::MAX {
        0
    } else {
        model.query_id + 1
    };
    model.data.loading = true;
    let mut effects: Vec<Effect> = Vec::new();
    effects.push(Effect::LoadTasks { id: model.query_id, query: model.query.duplicate() });
    proof {
        assert(effect_views(effects@) =~= seq![load_of(reloading(*old(model)))]);
    }
    effects
}

/// Everything the interface reads, for a first paint or after a sync: the tasks, then the
/// projects, the labels, the counts and the queue.
pub fn reload_everything(model: &mut Model) -> (effects: Vec<Effect>)
    ensures
        *final(model) == reloading(*old(model)),
        effect_views(effects@) == seq![
            load_of(reloading(*old(model))),
            EffectView::LoadProjects,
            EffectView::LoadLabels,
            EffectView::LoadCounts,
            EffectView::LoadPending,
        ],
{
    let mut effects = reload_tasks(model);
    push_effect(&mut effects, Effect::LoadProjects);
    push_effect(&mut effects, Effect::LoadLabels);
    push_effect(&mut effects, Effect::LoadCounts);
    push_effect(&mut effects, Effect::LoadPending);
    proof {
        assert(effect_views(effects@) =~= seq![
            load_of(reloading(*old(model))),
            EffectView::LoadProjects,
            EffectView::LoadLabels,
            EffectView::LoadCounts,
            EffectView::LoadPending,
        ]);
    }
    effects
}

/// The sidebar row that stands for a scope; a label is no place in the tree, so the
/// highlight stays where it was.
pub open spec fn target_for(scope: Scope, was: SidebarTarget) -> SidebarTarget {
    match scope {
        Scope::Project(id) => SidebarTarget::Project(id),
        Scope::Favorites => SidebarTarget::Favorites,
        Scope::All => SidebarTarget::AllTasks,
        Scope::Label(_) => was,
    }
}

/// The model showing `scope`, before it is asked for.
pub open spec fn showing(m: Model, scope: Scope) -> Model {
    Model {
        query: Query { scope, ..m.query },
        sidebar: SidebarState { selected: target_for(scope, m.sidebar.selected), ..m.sidebar },
        ..m
    }
}

/// The project to open with next time when `scope` is showing.
pub open spec fn remembered(scope: Scope) -> Option<i64> {
    match scope {
        Scope::Project(id) => Some(id),
        _ => None,
    }
}

/// Show a scope, remembering it for next launch.
pub fn show(model: &mut Model, scope: Scope) -> (effects: Vec<Effect>)
    ensures
        *final(model) == reloading(showing(*old(model), scope)),
        effect_views(effects@) == seq![
            load_of(reloading(showing(*old(model), scope))),
            EffectView::RememberProject(remembered(scope)),
        ],
{
    model.query.scope = scope;
    model.sidebar.selected = match scope {
        Scope::Project(id) => SidebarTarget::Project(id),
        Scope::Favorites => SidebarTarget::Favorites,
        Scope::All => SidebarTarget::AllTasks,
        Scope::Label(_) => model.sidebar.selected,
    };
    let mut effects = reload_tasks(model);
    push_effect(
        &mut effects,
        Effect::RememberProject(
            match scope {
                Scope::Project(id) => Some(id),
                _ => None,
            },
        ),
    );
    proof {
        assert(effect_views(effects@) =~= seq![
            load_of(reloading(showing(*old(model), scope))),
            EffectView::RememberProject(remembered(scope)),
        ]);
    }
    effects
}

/// Stop: the runtime leaves once `running` is false.
pub fn quit(model: &mut Model) -> (effects: Vec<Effect>)
    ensures
        *final(model) == (Model { running: false, ..*old(model) }),
        effect_views(effects@) == seq![EffectView::Quit],
{
    model.running = false;
    let mut effects: Vec<Effect> = Vec::new();
    effects.push(Effect::Quit);
    proof {
        assert(effect_views(effects@) =~= seq![EffectView::Quit]);
    }
    effects
}

/// The model with `toast` showing, in place of any other.
pub open spec fn toasted(m: Model, toast: Option<Toast>) -> Model {
    Model { status: Status { toast, ..m.status }, ..m }
}

/// Whether `m` is `was` with only the toast changed, to an info toast saying `text`.
pub open spec fn told(was: Model, m: Model, text: Seq<char>, level: Level) -> bool {
    &&& m == toasted(was, m.status.toast)
    &&& toast_view(m.status.toast) == Some((text, level, TOAST_LIFETIME))
}

/// Say so when a key needs a selected task and there is none.
pub fn nothing_selected(model: &mut Model) -> (effects: Vec<Effect>)
    ensures
        told(*old(model), *final(model), "No task selected"@, Level::Info),
        effects@.len() == 0,
{
    model.toast(Toast::info(String::from_str("No task selected")));
    proof {
        reveal_strlit("No task selected");
    }
    Vec::new()
}

/// The panes the keyboard can drive, in the order Tab visits them.
pub open spec fn focus_ring(sidebar: bool, preview: bool) -> Seq<Focus> {
    (if sidebar {
        seq![Focus::Sidebar]
    } else {
        Seq::empty()
    }) + seq![Focus::List] + (if preview {
        seq![Focus::Preview]
    } else {
        Seq::empty()
    })
}

/// Whether a pane is `focus`.
pub open spec fn is_focus(focus: Focus) -> spec_fn(Focus) -> bool {
    |f: Focus| f == focus
}

/// The pane after (or before) `focus` in `ring`, going round; from a pane that is not in
/// the ring, counting from its start.
pub open spec fn cycled(ring: Seq<Focus>, focus: Focus, forward: bool) -> Focus {
    let found = first_where(ring, is_focus(focus));
    let at = if found < ring.len() {
        found
    } else {
        0
    };
    let n = ring.len() as int;
    ring[if forward {
        (at + 1) % n
    } else {
        (at + n - 1) % n
    }]
}

/// Whether the sidebar is on screen.
pub open spec fn sidebar_on(f: Frames) -> bool {
    f.sidebar is Some
}

/// Whether the preview is on screen.
pub open spec fn preview_on(f: Frames) -> bool {
    f.preview is Some
}

/// Move focus to the next (or previous) pane on screen.
pub fn cycle_focus(model: &mut Model, frames: Frames, forward: bool)
    ensures
        *final(model) == (Model {
            focus: cycled(focus_ring(sidebar_on(frames), preview_on(frames)), old(model).focus, forward),
            ..*old(model)
        }),
{
    let mut ring: Vec<Focus> = Vec::new();
    if frames.sidebar.is_some() {
        ring.push(Focus::Sidebar);
    }
    ring.push(Focus::List);
    if frames.preview.is_some() {
        ring.push(Focus::Preview);
    }
    let ghost spec_ring = focus_ring(sidebar_on(frames), preview_on(frames));
    assert(ring@ =~= spec_ring);
    let mut at: usize = 0;
    while at < ring.len()
        invariant
            at <= ring@.len(),
            forall|j: int| 0 <= j < at ==> !is_focus(model.focus)(#[trigger] ring@[j]),
        ensures
            at <= ring@.len(),
            forall|j: int| 0 <= j < at ==> !is_focus(model.focus)(#[trigger] ring@[j]),
            at < ring@.len() ==> is_focus(model.focus)(ring@[at as int]),
        decreases ring.len() - at,
    {
        if ring[at] == model.focus {
            break;
        }
        at += 1;
    }
    proof {
        lemma_first_where_is(ring@, is_focus(model.focus), at as int);
    }
    if at == ring.len() {
        at = 0;
    }
    let count = ring.len();
    let next = if forward {
        (at + 1) % count
    } else {
        (at + count - 1) % count
    };
    model.focus = ring[next];
}

/// Where focus goes when the pane it was on has left the screen: the list, which is
/// always there.
pub open spec fn settled(focus: Focus, sidebar: bool, preview: bool) -> Focus {
    match focus {
        Focus::Sidebar => if sidebar {
            focus
        } else {
            Focus::List
        },
        Focus::Preview => if preview {
            focus
        } else {
            Focus::List
        },
        Focus::List => focus,
    }
}

/// Move focus off a pane that is no longer showing.
pub fn settle_focus(model: &mut Model, frames: Frames)
    ensures
        *final(model) == (Model {
            focus: settled(old(model).focus, sidebar_on(frames), preview_on(frames)),
            ..*old(model)
        }),
{
    let stranded = match model.focus {
        Focus::Sidebar => frames.sidebar.is_none(),
        Focus::Preview => frames.preview.is_none(),
        Focus::List => false,
    };
    if stranded {
        model.focus = Focus::List;
    }
}

/// Tab from a pane on screen, then shift-Tab, comes back to it.
pub proof fn law_focus_cycles_back(sidebar: bool, preview: bool, focus: Focus)
    requires
        focus_ring(sidebar, preview).contains(focus),
    ensures
        cycled(
            focus_ring(sidebar, preview),
            cycled(focus_ring(sidebar, preview), focus, true),
            false,
        ) == focus,
{
    let ring = focus_ring(sidebar, preview);
    let n = ring.len() as int;
    lemma_first_where(ring, is_focus(focus));
    let at = first_where(ring, is_focus(focus));
    let k = choose|k: int| 0 <= k < ring.len() && ring[k] == focus;
    assert(at < ring.len()) by {
        if at >= ring.len() {
            assert(!is_focus(focus)(ring[k]));
        }
    }
    let next = (at + 1) % n;
    let g = ring[next];
    assert(forall|i: int, j: int| 0 <= i < j < ring.len() ==> ring[i] != ring[j]);
    lemma_first_where(ring, is_focus(g));
    let found = first_where(ring, is_focus(g));
    assert(found == next) by {
        if found < next {
            assert(is_focus(g)(ring[found]));
        } else if found > next {
            assert(!is_focus(g)(ring[next]));
        }
    }
    assert((next + n - 1) % n == at) by (nonlinear_arith)
        requires
            1 <= n <= 3,
            0 <= at < n,
            next == (at + 1) % n,
    {
        if n == 1 {
        } else if n == 2 {
        } else {
        }
    }
}

/// Tab and shift-Tab only ever land on a pane that is on screen.
pub proof fn law_focus_stays_on_screen(sidebar: bool, preview: bool, focus: Focus, forward: bool)
    ensures
        focus_ring(sidebar, preview).contains(cycled(focus_ring(sidebar, preview), focus, forward)),
        focus_ring(sidebar, preview).contains(settled(focus, sidebar, preview)),
{
    let ring = focus_ring(sidebar, preview);
    lemma_first_where(ring, is_focus(focus));
    let found = first_where(ring, is_focus(focus));
    let at = if found < ring.len() {
        found
    } else {
        0
    };
    let n = ring.len() as int;
    let i = if forward {
        (at + 1) % n
    } else {
        (at + n - 1) % n
    };
    assert(0 <= i < n);
    assert(ring[i] == cycled(ring, focus, forward));
    let s = settled(focus, sidebar, preview);
    if sidebar {
        assert(ring[0] == Focus::Sidebar);
    }
    let list_at: int = if sidebar {
        1
    } else {
        0
    };
    assert(ring[list_at] == Focus::List);
    if preview {
        assert(ring[n - 1] == Focus::Preview);
    }
}

/// What backing out one level makes of `before`.
pub open spec fn backed(before: Model, after: Model, es: Seq<EffectView>) -> bool {
    &&& (before.focus != Focus::List ==> {
            &&& after == (Model { focus: Focus::List, ..before })
            &&& es.len() == 0
        })
    &&& (before.focus == Focus::List && before.query.search is Some ==> {
            let cleared = Model {
                query: Query { search: None, ..before.query },
                ..before
            };
            &&& told(reloading(cleared), after, "Search cleared"@, Level::Info)
            &&& es == seq![load_of(reloading(cleared))]
        })
    &&& (before.focus == Focus::List && before.query.search is None ==> {
            &&& after == before
            &&& es.len() == 0
        })
}

/// Back out one level: focus to the list first, then the search filter. Nothing below
/// that, since the next rung would be quitting.
pub fn back(model: &mut Model) -> (effects: Vec<Effect>)
    ensures
        backed(*old(model), *final(model), effect_views(effects@)),
{
    if model.focus != Focus::List {
        model.focus = Focus::List;
        return Vec::new();
    }
    if model.query.search.is_some() {
        model.query.search = None;
        let effects = reload_tasks(model);
        model.toast(Toast::info(String::from_str("Search cleared")));
        proof {
            reveal_strlit("Search cleared");
        }
        return effects;
    }
    Vec::new()
}

/// Where the selected target's row stands among `rows`, or the length.
pub open spec fn selected_row(rows: Seq<RowView>, selected: SidebarTarget) -> int {
    first_where(rows, |r: RowView| target_of(r) == Some(selected))
}

/// The first row to draw so that the selected row is within the `height` rows drawn,
/// moving as little as possible, and never so far that the pane ends short of the last
/// row.
pub open spec fn sidebar_offset(rows: Seq<RowView>, selected: SidebarTarget, offset: int, height: int) -> int {
    let index = selected_row(rows, selected);
    let moved = if index < rows.len() {
        if index < offset {
            index
        } else if index >= offset + height {
            index + 1 - height
        } else {
            offset
        }
    } else {
        offset
    };
    let last = if rows.len() >= height {
        rows.len() - height
    } else {
        0
    };
    if moved < last {
        moved
    } else {
        last
    }
}

/// The sidebar's rows for `m`.
pub open spec fn rows_of(m: Model) -> Seq<RowView> {
    sidebar_rows(project_views(m.data.projects@), m.data.counts, m.sidebar.collapsed@)
}

/// The rows a pane of `height` lines holds: at least one.
pub open spec fn pane_rows(height: u16) -> int {
    if height == 0 {
        1
    } else {
        height as int
    }
}

/// `m` with its sidebar scrolled so the selected row is on screen, when there is a
/// sidebar.
pub open spec fn sidebar_kept(m: Model, f: Frames) -> Model {
    match f.sidebar {
        None => m,
        Some(area) => Model {
            sidebar: SidebarState {
                offset: sidebar_offset(
                    rows_of(m),
                    m.sidebar.selected,
                    m.sidebar.offset as int,
                    pane_rows(area.height),
                ) as usize,
                ..m.sidebar
            },
            ..m
        },
    }
}

/// Scroll the sidebar so the selected row is on screen, and so that a tree that shrank
/// leaves no empty pane below its last row.
pub fn keep_sidebar_visible(model: &mut Model, frames: Frames)
    requires
        drawable(old(model).data.projects@, old(model).data.counts),
    ensures
        *final(model) == sidebar_kept(*old(model), frames),
{
    let area = match frames.sidebar {
        Some(area) => area,
        None => {
            return;
        },
    };
    let rs = rows(&model.data.projects, &model.data.counts, &model.sidebar);
    let ghost rv = row_views(rs@);
    let height: usize = if area.height == 0 {
        1
    } else {
        area.height as usize
    };
    let selected = model.sidebar.selected;
    let ghost pred = |r: RowView| target_of(r) == Some(selected);
    let mut index: usize = 0;
    while index < rs.len()
        invariant
            index <= rs@.len(),
            rv == row_views(rs@),
            pred == (|r: RowView| target_of(r) == Some(selected)),
            forall|j: int| 0 <= j < index ==> !pred(#[trigger] rv[j]),
        ensures
            index <= rs@.len(),
            forall|j: int| 0 <= j < index ==> !pred(#[trigger] rv[j]),
            index < rs@.len() ==> pred(rv[index as int]),
        decreases rs.len() - index,
    {
        let t = rs[index].target();
        assert(rv[index as int] == rs@[index as int]@);
        if t == Some(selected) {
            break;
        }
        index += 1;
    }
    proof {
        lemma_first_where_is(rv, pred, index as int);
    }
    let mut offset = model.sidebar.offset;
    if index < rs.len() {
        if index < offset {
            offset = index;
        } else if index - offset >= height {
            offset = index + 1 - height;
        }
    }
    let last = if rs.len() >= height {
        rs.len() - height
    } else {
        0
    };
    if last < offset {
        offset = last;
    }
    model.sidebar.offset = offset;
}

/// Whether some project other than `id` itself hangs under `id`.
pub open spec fn has_children_in(ps: Seq<Project>, id: i64) -> bool {
    exists|k: int| 0 <= k < ps.len() && #[trigger] ps[k].parent_project_id == id && ps[k].id != id
}

/// Whether some project other than `id` itself hangs under `id`.
pub fn has_children(projects: &Vec<Project>, id: i64) -> (r: bool)
    ensures
        r == has_children_in(projects@, id),
{
    let mut k: usize = 0;
    while k < projects.len()
        invariant
            k <= projects@.len(),
            forall|j: int|
                0 <= j < k ==> !(#[trigger] projects@[j].parent_project_id == id && projects@[j].id != id),
        decreases projects.len() - k,
    {
        if projects[k].parent_project_id == id && projects[k].id != id {
            return true;
        }
        k += 1;
    }
    false
}

/// The scope a sidebar target shows.
pub open spec fn scope_of(target: SidebarTarget) -> Scope {
    match target {
        SidebarTarget::AllTasks => Scope::All,
        SidebarTarget::Favorites => Scope::Favorites,
        SidebarTarget::Project(id) => Scope::Project(id),
    }
}

/// `m` with `target` selected in the sidebar and scrolled to.
pub open spec fn targeted(m: Model, f: Frames, target: SidebarTarget) -> Model {
    sidebar_kept(Model { sidebar: SidebarState { selected: target, ..m.sidebar }, ..m }, f)
}

/// Select a sidebar row, which shows what it stands for at once.
pub fn select_target(model: &mut Model, frames: Frames, target: SidebarTarget) -> (effects: Vec<
    Effect,
>)
    requires
        drawable(old(model).data.projects@, old(model).data.counts),
    ensures
        *final(model) == reloading(showing(targeted(*old(model), frames, target), scope_of(target))),
        effect_views(effects@) == seq![
            load_of(reloading(showing(targeted(*old(model), frames, target), scope_of(target)))),
            EffectView::RememberProject(remembered(scope_of(target))),
        ],
{
    model.sidebar.selected = target;
    keep_sidebar_visible(model, frames);
    let scope = match target {
        SidebarTarget::AllTasks => Scope::All,
        SidebarTarget::Favorites => Scope::Favorites,
        SidebarTarget::Project(id) => Scope::Project(id),
    };
    show(model, scope)
}

/// Whether `id` is among `ids`.
fn holds(ids: &Vec<i64>, id: i64) -> (r: bool)
    ensures
        r == ids@.contains(id),
{
    let mut k: usize = 0;
    while k < ids.len()
        invariant
            k <= ids@.len(),
            forall|j: int| 0 <= j < k ==> ids@[j] != id,
        decreases ids.len() - k,
    {
        if ids[k] == id {
            return true;
        }
        k += 1;
    }
    false
}

/// Whether an id is other than `id`.
pub open spec fn other_than(id: i64) -> spec_fn(i64) -> bool {
    |x: i64| x != id
}

/// `ids` without `id`.
pub open spec fn without(ids: Seq<i64>, id: i64) -> Seq<i64> {
    ids.filter(other_than(id))
}

/// Every id of `ids` but `id`, in order.
fn remove_id(ids: &Vec<i64>, id: i64) -> (out: Vec<i64>)
    ensures
        out@ == without(ids@, id),
{
    let ghost pred = other_than(id);
    let mut out: Vec<i64> = Vec::new();
    let mut i: usize = 0;
    while i < ids.len()
        invariant
            i <= ids@.len(),
            pred == other_than(id),
            out@ == ids@.take(i as int).filter(pred),
        decreases ids.len() - i,
    {
        proof {
            assert(ids@.take(i + 1).drop_last() =~= ids@.take(i as int));
            reveal(Seq::filter);
        }
        if ids[i] != id {
            out.push(ids[i]);
        }
        proof {
            assert(out@ =~= ids@.take(i + 1).filter(pred));
        }
        i += 1;
    }
    proof {
        assert(ids@.take(i as int) =~= ids@);
    }
    out
}

/// Whether the selected sidebar row is a project with children that are hidden.
pub open spec fn can_expand(m: Model) -> bool {
    match m.sidebar.selected {
        SidebarTarget::Project(id) => has_children_in(m.data.projects@, id)
            && m.sidebar.collapsed@.contains(id),
        _ => false,
    }
}

/// What expanding the selected project, or handing the keyboard to the list, makes of `before`.
pub open spec fn expanded_or_opened(before: Model, after: Model, es: Seq<EffectView>, frames: Frames) -> bool {
    &&& es.len() == 0
    &&& (can_expand(before) ==> {
        &&& after == sidebar_kept(
            Model { sidebar: SidebarState { collapsed: after.sidebar.collapsed, ..before.sidebar }, ..before },
            frames,
        )
        &&& after.sidebar.collapsed@ == without(before.sidebar.collapsed@, before.sidebar.selected->Project_0)
    })
    &&& (!can_expand(before) ==> after == (Model { focus: Focus::List, ..before }))
}

/// Expand a collapsed project, or hand the keyboard to the list.
pub fn expand_or_open(model: &mut Model, frames: Frames) -> (effects: Vec<Effect>)
    requires
        drawable(old(model).data.projects@, old(model).data.counts),
    ensures
        expanded_or_opened(*old(model), *final(model), effect_views(effects@), frames),
{
    if let SidebarTarget::Project(id) = model.sidebar.selected {
        if has_children(&model.data.projects, id) && holds(&model.sidebar.collapsed, id) {
            model.sidebar.collapsed = remove_id(&model.sidebar.collapsed, id);
            keep_sidebar_visible(model, frames);
            return Vec::new();
        }
    }
    model.focus = Focus::List;
    Vec::new()
}

/// Whether the selected sidebar row is a project with children that are showing.
pub open spec fn can_collapse(m: Model) -> bool {
    match m.sidebar.selected {
        SidebarTarget::Project(id) => has_children_in(m.data.projects@, id)
            && !m.sidebar.collapsed@.contains(id),
        _ => false,
    }
}

/// What collapsing the selected project, or moving to its parent, makes of `before`.
pub open spec fn collapsed_or_parented(before: Model, after: Model, es: Seq<EffectView>, frames: Frames) -> bool {
    &&& (!(before.sidebar.selected is Project) ==> after == before && es.len() == 0)
    &&& (can_collapse(before) ==> {
        &&& after == sidebar_kept(
            Model { sidebar: SidebarState { collapsed: after.sidebar.collapsed, ..before.sidebar }, ..before },
            frames,
        )
        &&& after.sidebar.collapsed@ == before.sidebar.collapsed@.push(before.sidebar.selected->Project_0)
        &&& es.len() == 0
    })
    &&& (before.sidebar.selected is Project && !can_collapse(before) ==> match parent_in(
        project_views(before.data.projects@),
        before.sidebar.selected->Project_0,
    ) {
        Some(parent) => {
            let target = SidebarTarget::Project(parent);
            let m = reloading(showing(targeted(before, frames, target), scope_of(target)));
            &&& after == m
            &&& es == seq![load_of(m), EffectView::RememberProject(remembered(scope_of(target)))]
        },
        None => after == before && es.len() == 0,
    })
}

/// Collapse an expanded project, or move to its parent.
pub fn collapse_or_parent(model: &mut Model, frames: Frames) -> (effects: Vec<Effect>)
    requires
        drawable(old(model).data.projects@, old(model).data.counts),
    ensures
        collapsed_or_parented(*old(model), *final(model), effect_views(effects@), frames),
{
    let id = match model.sidebar.selected {
        SidebarTarget::Project(id) => id,
        _ => {
            return Vec::new();
        },
    };
    if has_children(&model.data.projects, id) && !holds(&model.sidebar.collapsed, id) {
        model.sidebar.collapsed.push(id);
        keep_sidebar_visible(model, frames);
        return Vec::new();
    }
    match crate::sidebar::parent_of(&model.data.projects, id) {
        Some(parent) => select_target(model, frames, SidebarTarget::Project(parent)),
        None => Vec::new(),
    }
}

/// With the selected row among the rows, scrolling keeps it within the pane, and the
/// pane never starts so late that it ends short of the last row.
pub proof fn law_the_sidebar_selection_stays_on_screen(
    rows: Seq<RowView>,
    selected: SidebarTarget,
    offset: int,
    height: int,
)
    requires
        height >= 1,
        0 <= offset,
        selected_row(rows, selected) < rows.len(),
    ensures
        ({
            let o = sidebar_offset(rows, selected, offset, height);
            let i = selected_row(rows, selected);
            &&& 0 <= o <= i < o + height
            &&& o + height >= rows.len() ==> o == 0 || o + height == rows.len()
        }),
{
    lemma_first_where(rows, |r: RowView| target_of(r) == Some(selected));
}

/// The lines the list's column headings take above its rows.
pub const LIST_HEADING_HEIGHT: u16 = 1;

/// The layout drawn when the configured list holds none at the active index: the title
/// alone.
pub open spec fn fallback_columns() -> Seq<ColumnSpec> {
    seq![
        ColumnSpec {
            column: Column::Title,
            heading: None,
            min_width: None,
            max_width: None,
            width_percent: None,
            wrap: false,
        },
    ]
}

/// The columns of the active layout.
pub open spec fn layout_columns(m: Model) -> Seq<ColumnSpec> {
    if m.layout_ix < m.layouts@.len() {
        m.layouts@[m.layout_ix as int].columns@
    } else {
        fallback_columns()
    }
}

/// The columns `cols` measure to at `width`, as the renderer draws them.
pub open spec fn canonical(cols: Seq<ColumnSpec>, width: u16) -> Seq<MeasuredColumn> {
    let (kept, widths) = measured(cols, width);
    Seq::new(
        kept.len(),
        |j: int|
            MeasuredColumn {
                column: cols[kept[j] as int].column,
                heading: choose|h: String| h@ == heading_text(cols[kept[j] as int]),
                width: widths[j] as u16,
                wrap: cols[kept[j] as int].wrap,
            },
    )
}

/// Whether `ctx` is what the list's rows are laid out with: the model's projects, theme
/// and clock, read `offset` seconds east of UTC.
pub open spec fn laid_out<'a>(m: Model, offset: i32, ctx: RowContext<'a>) -> bool {
    &&& ctx.projects@ == m.data.projects@
    &&& ctx.theme == m.theme
    &&& ctx.now == m.now
    &&& ctx.offset == offset
}

/// How tall each task's row is drawn in the list.
pub open spec fn list_heights<'a>(m: Model, f: Frames, ctx: RowContext<'a>) -> Seq<u16> {
    heights_in(m.data.tasks@, canonical(layout_columns(m), f.list.width), ctx)
}

/// The lines left for rows once the headings have theirs.
pub open spec fn body_rows(f: Frames) -> u16 {
    if f.list.height >= LIST_HEADING_HEIGHT {
        (f.list.height - LIST_HEADING_HEIGHT) as u16
    } else {
        0
    }
}

/// Whether the model can be laid out in these frames: every date and the clock read on
/// the calendar, for an offset of less than a day; the columns' asks add up within the
/// numbers; the list is not so tall that a row would run past them; and the sidebar's
/// counts add up within the numbers.
pub open spec fn steady(m: Model, f: Frames, offset: i32) -> bool {
    &&& all_dated_sanely(m.data.tasks@)
    &&& on_calendar(m.now)
    &&& valid_offset(offset)
    &&& asks_fit(layout_columns(m), f.list.width)
    &&& f.list.height <= u16::MAX - MAX_ROW_LINES
    &&& drawable(m.data.projects@, m.data.counts)
}

/// Whether the model can be laid out whichever panes are wanted.
pub open spec fn steady_in(m: Model, g: Geometry, offset: i32) -> bool {
    &&& steady(m, g.neither, offset)
    &&& steady(m, g.sidebar, offset)
    &&& steady(m, g.preview, offset)
    &&& steady(m, g.both, offset)
}

/// Where the selected task stands in the list, if it is there.
pub open spec fn selection_of(m: Model) -> Option<int> {
    match m.list.selected {
        Some(id) => {
            let k = first_where(m.data.tasks@, task_with_id(id));
            if k < m.data.tasks@.len() {
                Some(k)
            } else {
                None
            }
        },
        None => None,
    }
}

/// Whether `offset` is where the list starts once scrolled to keep the selection on
/// screen: at the top with nothing selected; at the selection when it is above the old
/// start; otherwise the old start or, when that leaves the selection below the pane, the
/// latest start that still shows it.
pub open spec fn scrolled<'a>(m: Model, f: Frames, ctx: RowContext<'a>, offset: usize) -> bool {
    match selection_of(m) {
        None => offset == 0,
        Some(i) => if i < m.list.offset {
            offset == i
        } else {
            exists|g: int|
                shows(list_heights(m, f, ctx), i, body_rows(f) as int, g) && offset == (if g
                    <= m.list.offset {
                    m.list.offset as int
                } else {
                    g
                })
        },
    }
}

/// Whether `after` is `before` with the list scrolled to keep the selection on screen.
pub open spec fn list_kept(before: Model, after: Model, f: Frames, offset: i32) -> bool {
    &&& after == (Model { list: TaskList { offset: after.list.offset, ..before.list }, ..before })
    &&& forall|ctx: RowContext| #[trigger] laid_out(before, offset, ctx) ==> scrolled(
        before,
        f,
        ctx,
        after.list.offset,
    )
}

/// Measured columns that agree on what a row's height depends on give the same heights,
/// and so do two contexts with the same projects, theme, clock and offset.
pub(crate) proof fn lemma_same_heights<'a, 'b>(
    tasks: Seq<crate::models::Task>,
    a: Seq<MeasuredColumn>,
    b: Seq<MeasuredColumn>,
    c: RowContext<'a>,
    d: RowContext<'b>,
)
    requires
        a.len() == b.len(),
        forall|j: int|
            0 <= j < a.len() ==> (#[trigger] a[j]).column == b[j].column && a[j].width == b[j].width
                && a[j].wrap == b[j].wrap,
        c.projects@ == d.projects@,
        c.theme == d.theme,
        c.now == d.now,
        c.offset == d.offset,
    ensures
        heights_in(tasks, a, c) == heights_in(tasks, b, d),
{
    assert forall|k: int| 0 <= k < tasks.len() implies crate::grid::row_cells(tasks[k]@, a, c)
        == crate::grid::row_cells(tasks[k]@, b, d) by {
        assert(crate::grid::row_cells(tasks[k]@, a, c) =~= crate::grid::row_cells(tasks[k]@, b, d));
    }
    assert forall|k: int| 0 <= k < tasks.len() implies crate::grid::height_in(tasks[k]@, a, c)
        == crate::grid::height_in(tasks[k]@, b, d) by {
        assert(crate::grid::line_counts(tasks[k]@, a, c) =~= crate::grid::line_counts(tasks[k]@, b, d));
    }
    assert(heights_in(tasks, a, c) =~= heights_in(tasks, b, d));
}

/// The layout drawn when there is none at the active index: the title alone.
pub(crate) fn fallback_layout() -> (l: ColumnLayout)
    ensures
        l.columns@ == fallback_columns(),
{
    let mut columns: Vec<ColumnSpec> = Vec::new();
    columns.push(ColumnSpec::new(Column::Title));
    proof {
        assert(columns@ =~= fallback_columns());
    }
    ColumnLayout { name: String::new(), description: None, columns }
}

/// The active layout's columns, measured to `width`.
pub(crate) fn measure_active(model: &Model, width: u16) -> (out: Vec<MeasuredColumn>)
    requires
        asks_fit(layout_columns(*model), width),
    ensures
        out@.len() == canonical(layout_columns(*model), width).len(),
        forall|j: int|
            0 <= j < out@.len() ==> {
                let c = canonical(layout_columns(*model), width)[j];
                &&& (#[trigger] out@[j]).column == c.column
                &&& out@[j].width == c.width
                &&& out@[j].wrap == c.wrap
            },
{
    match model.layout() {
        Some(layout) => measure(layout, width),
        None => {
            let fallback = fallback_layout();
            measure(&fallback, width)
        },
    }
}

/// Scroll the list so the selection is on screen.
pub fn keep_selection_visible(model: &mut Model, frames: Frames, offset: i32)
    requires
        steady(*old(model), frames, offset),
    ensures
        list_kept(*old(model), *final(model), frames, offset),
{
    let ghost m0 = *model;
    let _ = model.data.tasks.len();
    let index = match model.selected_index() {
        Some(i) => {
            proof {
                lemma_first_where(model.data.tasks@, task_with_id(model.list.selected->0));
            }
            i
        },
        None => {
            model.list.offset = 0;
            return;
        },
    };
    if index < model.list.offset {
        model.list.offset = index;
        return;
    }
    let columns = measure_active(model, frames.list.width);
    let context = RowContext {
        projects: model.data.projects.as_slice(),
        theme: model.theme,
        now: model.now,
        offset,
    };
    let body = if frames.list.height >= LIST_HEADING_HEIGHT {
        frames.list.height - LIST_HEADING_HEIGHT
    } else {
        0
    };
    let first = first_visible(model.data.tasks.as_slice(), columns.as_slice(), context, index, body);
    if model.list.offset < first {
        model.list.offset = first;
    }
    proof {
        let canon = canonical(layout_columns(m0), frames.list.width);
        assert forall|ctx: RowContext| #[trigger] laid_out(m0, offset, ctx) implies scrolled(
            m0,
            frames,
            ctx,
            model.list.offset,
        ) by {
            lemma_same_heights(m0.data.tasks@, columns@, canon, context, ctx);
            assert(shows(list_heights(m0, frames, ctx), index as int, body_rows(frames) as int, first as int));
        }
    }
}

/// `m` with the task at `at` selected and the preview back at its top.
pub open spec fn selecting(m: Model, at: int) -> Model {
    Model {
        list: TaskList {
            selected: if 0 <= at < m.data.tasks@.len() {
                Some(m.data.tasks@[at].id)
            } else {
                None
            },
            preview_scroll: 0,
            ..m.list
        },
        ..m
    }
}

/// `current` moved by `delta`, held within `0..len` (at 0 when there is nothing).
pub open spec fn moved_within(current: int, delta: int, len: int) -> int {
    let last = if len > 0 {
        len - 1
    } else {
        0
    };
    let next = current + delta;
    if next < 0 {
        0
    } else if next > last {
        last
    } else {
        next
    }
}

/// The sidebar's targets for `m`, in display order.
pub open spec fn targets_in(m: Model) -> Seq<SidebarTarget> {
    crate::sidebar::targets_of(rows_of(m))
}

/// Whether a target is `t`.
pub open spec fn is_target(t: SidebarTarget) -> spec_fn(SidebarTarget) -> bool {
    |x: SidebarTarget| x == t
}

/// Whether `after` and `effects` are what moving the sidebar's selection to `to` makes of
/// `before`: nothing when there is nowhere to go or it is already there, and otherwise
/// selecting it.
pub open spec fn sidebar_moved(
    before: Model,
    after: Model,
    effects: Seq<EffectView>,
    f: Frames,
    to: Option<SidebarTarget>,
) -> bool {
    match to {
        Some(t) => if t == before.sidebar.selected {
            after == before && effects.len() == 0
        } else {
            let m = reloading(showing(targeted(before, f, t), scope_of(t)));
            &&& after == m
            &&& effects == seq![load_of(m), EffectView::RememberProject(remembered(scope_of(t)))]
        },
        None => after == before && effects.len() == 0,
    }
}

/// Where the sidebar's selection goes when moved by `delta` rows: nowhere when it is not
/// among the targets.
pub open spec fn sidebar_step(m: Model, delta: int) -> Option<SidebarTarget> {
    let ts = targets_in(m);
    let current = first_where(ts, is_target(m.sidebar.selected));
    if current < ts.len() {
        Some(ts[moved_within(current, delta, ts.len() as int)])
    } else {
        None
    }
}

/// The preview scrolled by `delta` lines, held within what a `u16` counts.
pub open spec fn scrolled_by(scroll: u16, delta: i64) -> u16 {
    let s = scroll + delta;
    if s < 0 {
        0
    } else if s > u16::MAX {
        u16::MAX
    } else {
        s as u16
    }
}

/// Move the sidebar's selection to `to`, unless it is already there.
fn move_sidebar(model: &mut Model, frames: Frames, to: Option<SidebarTarget>) -> (effects: Vec<Effect>)
    requires
        drawable(old(model).data.projects@, old(model).data.counts),
    ensures
        sidebar_moved(*old(model), *final(model), effect_views(effects@), frames, to),
{
    match to {
        Some(target) => if target != model.sidebar.selected {
            select_target(model, frames, target)
        } else {
            Vec::new()
        },
        None => Vec::new(),
    }
}

/// The sidebar's targets, in display order.
fn sidebar_targets(model: &Model) -> (ts: Vec<SidebarTarget>)
    requires
        drawable(model.data.projects@, model.data.counts),
    ensures
        ts@ == targets_in(*model),
{
    let rs = rows(&model.data.projects, &model.data.counts, &model.sidebar);
    crate::sidebar::targets(&rs)
}

/// Where `target` stands among `ts`, or the length.
fn target_position(ts: &Vec<SidebarTarget>, target: SidebarTarget) -> (k: usize)
    ensures
        k == first_where(ts@, is_target(target)),
{
    let mut k: usize = 0;
    while k < ts.len()
        invariant
            k <= ts@.len(),
            forall|j: int| 0 <= j < k ==> !is_target(target)(#[trigger] ts@[j]),
        ensures
            k <= ts@.len(),
            forall|j: int| 0 <= j < k ==> !is_target(target)(#[trigger] ts@[j]),
            k < ts@.len() ==> is_target(target)(ts@[k as int]),
        decreases ts.len() - k,
    {
        if ts[k] == target {
            break;
        }
        k += 1;
    }
    proof {
        lemma_first_where_is(ts@, is_target(target), k as int);
    }
    k
}

/// `current` moved by `delta` within `0..len`.
fn move_within(current: usize, delta: i64, len: usize) -> (r: usize)
    ensures
        r == moved_within(current as int, delta as int, len as int),
{
    let last: usize = if len > 0 {
        len - 1
    } else {
        0
    };
    let next: i128 = current as i128 + delta as i128;
    if next < 0 {
        0
    } else if next > last as i128 {
        last
    } else {
        next as usize
    }
}

/// What moving the focused pane's cursor by `delta` makes of `before`.
pub open spec fn stepped(before: Model, after: Model, es: Seq<EffectView>, g: Geometry, offset: i32, delta: i64) -> bool {
    &&& (before.focus == Focus::Preview ==> {
        &&& after == (Model {
            list: TaskList {
                preview_scroll: scrolled_by(before.list.preview_scroll, delta),
                ..before.list
            },
            ..before
        })
        &&& es.len() == 0
    })
    &&& (before.focus == Focus::List ==> es.len() == 0 && match selection_of(before) {
        None => after == before,
        Some(i) => {
            let mid = selecting(before, moved_within(i, delta as int, before.data.tasks@.len() as int));
            list_kept(mid, after, frames_of(mid, g), offset)
        },
    })
    &&& (before.focus == Focus::Sidebar ==> sidebar_moved(
        before,
        after,
        es,
        frames_of(before, g),
        sidebar_step(before, delta as int),
    ))
}

/// Move the focused pane's cursor by `delta` rows: the preview scrolls, the list moves
/// its selection, and the sidebar selects the row that many away, which shows it.
pub fn step(model: &mut Model, geometry: &Geometry, offset: i32, delta: i64) -> (effects: Vec<Effect>)
    requires
        steady_in(*old(model), *geometry, offset),
    ensures
        stepped(*old(model), *final(model), effect_views(effects@), *geometry, offset, delta),
{
    match model.focus {
        Focus::Preview => {
            let s: i128 = model.list.preview_scroll as i128 + delta as i128;
            model.list.preview_scroll = if s < 0 {
                0
            } else if s > 65535 {
                65535
            } else {
                s as u16
            };
            Vec::new()
        },
        Focus::List => {
            let _ = model.data.tasks.len();
            let current = match model.selected_index() {
                Some(i) => {
                    proof {
                        lemma_first_where(model.data.tasks@, task_with_id(model.list.selected->0));
                    }
                    i
                },
                None => {
                    return Vec::new();
                },
            };
            let next = move_within(current, delta, model.data.tasks.len());
            model.list.selected = Some(model.data.tasks[next].id);
            model.list.preview_scroll = 0;
            let f = frames(model, geometry);
            keep_selection_visible(model, f, offset);
            Vec::new()
        },
        Focus::Sidebar => {
            let f = frames(model, geometry);
            let ts = sidebar_targets(model);
            let current = target_position(&ts, model.sidebar.selected);
            if current < ts.len() {
                let next = move_within(current, delta, ts.len());
                move_sidebar(model, f, Some(ts[next]))
            } else {
                Vec::new()
            }
        },
    }
}

/// Where the sidebar's selection goes on a jump to its first or last row.
pub open spec fn sidebar_end(m: Model, first: bool) -> Option<SidebarTarget> {
    let ts = targets_in(m);
    if ts.len() == 0 {
        None
    } else if first {
        Some(ts[0])
    } else {
        Some(ts.last())
    }
}

/// What jumping to the first or last row of the focused pane makes of `before`.
pub open spec fn jumped(before: Model, after: Model, es: Seq<EffectView>, g: Geometry, offset: i32, first: bool) -> bool {
    &&& (before.focus == Focus::Preview ==> {
        &&& after == (if first {
            Model { list: TaskList { preview_scroll: 0, ..before.list }, ..before }
        } else {
            before
        })
        &&& es.len() == 0
    })
    &&& (before.focus == Focus::List ==> es.len() == 0 && {
        let mid = selecting(
            before,
            if first {
                0
            } else {
                before.data.tasks@.len() - 1
            },
        );
        list_kept(mid, after, frames_of(mid, g), offset)
    })
    &&& (before.focus == Focus::Sidebar ==> sidebar_moved(
        before,
        after,
        es,
        frames_of(before, g),
        sidebar_end(before, first),
    ))
}

/// Jump to the first or last row of the focused pane.
pub fn jump(model: &mut Model, geometry: &Geometry, offset: i32, first: bool) -> (effects: Vec<Effect>)
    requires
        steady_in(*old(model), *geometry, offset),
    ensures
        jumped(*old(model), *final(model), effect_views(effects@), *geometry, offset, first),
{
    match model.focus {
        Focus::Preview => {
            if first {
                model.list.preview_scroll = 0;
            }
            Vec::new()
        },
        Focus::List => {
            let n = model.data.tasks.len();
            model.list.selected = if n == 0 {
                None
            } else if first {
                Some(model.data.tasks[0].id)
            } else {
                Some(model.data.tasks[n - 1].id)
            };
            model.list.preview_scroll = 0;
            let f = frames(model, geometry);
            keep_selection_visible(model, f, offset);
            Vec::new()
        },
        Focus::Sidebar => {
            let f = frames(model, geometry);
            let ts = sidebar_targets(model);
            let to = if ts.len() == 0 {
                None
            } else if first {
                Some(ts[0])
            } else {
                Some(ts[ts.len() - 1])
            };
            move_sidebar(model, f, to)
        },
    }
}

/// Which optional pane a message is about.
#[derive(Debug, Clone, Copy, PartialEq, Eq, Structural)]
pub enum Pane {
    /// The project tree.
    Sidebar,
    /// The task preview.
    Preview,
}

/// What a pane is called in a message.
pub open spec fn pane_name(pane: Pane) -> Seq<char> {
    match pane {
        Pane::Sidebar => "sidebar"@,
        Pane::Preview => "preview"@,
    }
}

/// Why a pane the user asked for did not appear, in words they can act on: on a middling
/// terminal it is usually the sidebar, not the width, standing between them and a preview.
pub open spec fn no_room_text(pane: Pane, width: u16, alone: bool) -> Seq<char> {
    if pane == Pane::Preview && alone {
        "No room beside the sidebar at "@ + decimal(width as nat) + " columns \u{2014} hide it with z s"@
    } else {
        "No room for the "@ + pane_name(pane) + " at "@ + decimal(width as nat)
            + " columns \u{2014} widen the terminal"@
    }
}

/// Why a pane did not appear at this size.
pub fn no_room(pane: Pane, model: &Model, geometry: &Geometry) -> (s: String)
    ensures
        s@ == no_room_text(pane, model.size.0, geometry.preview.preview is Some),
{
    let width = decimal_of(model.size.0 as u64);
    let mut out: Vec<char> = Vec::new();
    if pane == Pane::Preview && geometry.preview.preview.is_some() {
        push_all(&mut out, chars_of("No room beside the sidebar at ").as_slice());
        push_all(&mut out, width.as_slice());
        push_all(&mut out, chars_of(" columns \u{2014} hide it with z s").as_slice());
        proof {
            reveal_strlit("No room beside the sidebar at ");
            reveal_strlit(" columns \u{2014} hide it with z s");
        }
    } else {
        push_all(&mut out, chars_of("No room for the ").as_slice());
        let name = match pane {
            Pane::Sidebar => "sidebar",
            Pane::Preview => "preview",
        };
        push_all(&mut out, chars_of(name).as_slice());
        push_all(&mut out, chars_of(" at ").as_slice());
        push_all(&mut out, width.as_slice());
        push_all(&mut out, chars_of(" columns \u{2014} widen the terminal").as_slice());
        proof {
            reveal_strlit("No room for the ");
            reveal_strlit("sidebar");
            reveal_strlit("preview");
            reveal_strlit(" at ");
            reveal_strlit(" columns \u{2014} widen the terminal");
        }
    }
    let r = string_of(out.as_slice());
    proof {
        assert(r@ =~= no_room_text(pane, model.size.0, geometry.preview.preview is Some));
    }
    r
}

/// `m` with the sidebar's pane state flipped from what is showing.
pub open spec fn sidebar_toggled(m: Model, g: Geometry) -> Model {
    Model {
        panes: Panes {
            sidebar: toggled_spec(m.panes.sidebar, frames_of(m, g).sidebar is Some),
            ..m.panes
        },
        ..m
    }
}

/// `m` with focus moved off a pane its frames no longer show.
pub open spec fn focus_settled(m: Model, g: Geometry) -> Model {
    Model {
        focus: settled(m.focus, frames_of(m, g).sidebar is Some, frames_of(m, g).preview is Some),
        ..m
    }
}

/// What flipping the sidebar makes of `before`.
pub open spec fn sidebar_flipped(before: Model, after: Model, g: Geometry) -> bool {
    &&& ({
            let m = focus_settled(sidebar_toggled(before, g), g);
            if frames_of(before, g).sidebar is None && frames_of(m, g).sidebar is None {
                told(
                    m,
                    after,
                    no_room_text(Pane::Sidebar, m.size.0, g.preview.preview is Some),
                    Level::Info,
                )
            } else {
                after == m
            }
        })
}

/// Show the sidebar if it is hidden and hide it if it is showing, pinning the choice;
/// when it was asked for and still has no room, say why.
pub fn toggle_sidebar(model: &mut Model, geometry: &Geometry)
    ensures
        sidebar_flipped(*old(model), *final(model), *geometry),
{
    let showing = frames(model, geometry).sidebar.is_some();
    model.panes.sidebar = model.panes.sidebar.toggled(showing);
    let f = frames(model, geometry);
    settle_focus(model, f);
    if !showing && frames(model, geometry).sidebar.is_none() {
        let text = no_room(Pane::Sidebar, model, geometry);
        model.toast(Toast::info(text));
    }
}

/// `m` with the preview's pane state flipped from what is showing.
pub open spec fn preview_toggled(m: Model, g: Geometry) -> Model {
    Model {
        panes: Panes {
            preview: toggled_spec(m.panes.preview, frames_of(m, g).preview is Some),
            ..m.panes
        },
        ..m
    }
}

/// What flipping the preview makes of `before`.
pub open spec fn preview_flipped(before: Model, after: Model, g: Geometry) -> bool {
    &&& ({
            let m = focus_settled(preview_toggled(before, g), g);
            if frames_of(before, g).preview is None && frames_of(m, g).preview is None {
                told(
                    m,
                    after,
                    if selection_of(m) is None {
                        "No task selected to preview"@
                    } else {
                        no_room_text(Pane::Preview, m.size.0, g.preview.preview is Some)
                    },
                    Level::Info,
                )
            } else {
                after == m
            }
        })
}

/// Show the preview if it is hidden and hide it if it is showing, pinning the choice;
/// when it was asked for and still does not appear, say why: no task to show, or no room.
pub fn toggle_preview(model: &mut Model, geometry: &Geometry)
    ensures
        preview_flipped(*old(model), *final(model), *geometry),
{
    let showing = frames(model, geometry).preview.is_some();
    model.panes.preview = model.panes.preview.toggled(showing);
    let f = frames(model, geometry);
    settle_focus(model, f);
    if !showing && frames(model, geometry).preview.is_none() {
        proof {
            if let Some(id) = model.list.selected {
                lemma_first_where(model.data.tasks@, task_with_id(id));
            }
        }
        let text = if model.selected_task().is_none() {
            proof {
                reveal_strlit("No task selected to preview");
            }
            String::from_str("No task selected to preview")
        } else {
            no_room(Pane::Preview, model, geometry)
        };
        model.toast(Toast::info(text));
    }
}

/// What showing or hiding completed tasks makes of `before`.
pub open spec fn done_tasks_flipped(before: Model, after: Model, es: Seq<EffectView>) -> bool {
    &&& ({
            let m = reloading(
                Model {
                    query: Query { include_done: !before.query.include_done, ..before.query },
                    ..before
                },
            );
            &&& told(
                m,
                after,
                if m.query.include_done {
                    "Showing completed tasks"@
                } else {
                    "Hiding completed tasks"@
                },
                Level::Info,
            )
            &&& es == seq![load_of(m)]
        })
}

/// Show or hide completed tasks, and ask for the list again.
pub fn toggle_done_tasks(model: &mut Model) -> (effects: Vec<Effect>)
    ensures
        done_tasks_flipped(*old(model), *final(model), effect_views(effects@)),
{
    model.query.include_done = !model.query.include_done;
    let text = if model.query.include_done {
        proof {
            reveal_strlit("Showing completed tasks");
        }
        String::from_str("Showing completed tasks")
    } else {
        proof {
            reveal_strlit("Hiding completed tasks");
        }
        String::from_str("Hiding completed tasks")
    };
    let effects = reload_tasks(model);
    model.toast(Toast::info(text));
    effects
}

/// What a layout is called in a message: its name, and what it is for when it says.
pub open spec fn layout_text(l: ColumnLayout) -> Seq<char> {
    match l.description {
        Some(d) => l.name@ + ": "@ + d@,
        None => l.name@,
    }
}

/// The layout index `delta` places on from `ix`, going round `count` layouts.
pub open spec fn layout_step(ix: usize, delta: i64, count: nat) -> usize {
    ((ix + delta) % (count as int)) as usize
}

/// `ix` moved by `delta`, going round `count` places.
fn wrap_index(ix: usize, delta: i64, count: usize) -> (r: usize)
    requires
        count >= 1,
    ensures
        r == layout_step(ix, delta, count as nat),
        r < count,
{
    let x: i128 = ix as i128 + delta as i128;
    let c: i128 = count as i128;
    if x >= 0 {
        let r = (x as u128 % c as u128) as usize;
        assert(r as int == (x as int) % (c as int));
        r
    } else {
        let y: u128 = (-x) as u128 % c as u128;
        let r: usize = if y == 0 {
            0
        } else {
            (c as u128 - y) as usize
        };
        proof {
            let xi = x as int;
            let ci = c as int;
            let q = (-xi) / ci;
            vstd::arithmetic::div_mod::lemma_fundamental_div_mod(-xi, ci);
            assert(-xi == ci * q + y);
            if y == 0 {
                assert(xi == (-q) * ci + 0) by (nonlinear_arith)
                    requires
                        -xi == ci * q + 0,
                ;
                vstd::arithmetic::div_mod::lemma_fundamental_div_mod_converse(xi, ci, -q, 0);
            } else {
                assert(xi == (-q - 1) * ci + (ci - y)) by (nonlinear_arith)
                    requires
                        -xi == ci * q + y,
                ;
                vstd::arithmetic::div_mod::lemma_fundamental_div_mod_converse(xi, ci, -q - 1, ci - y);
            }
        }
        r
    }
}

/// What moving `delta` layouts on makes of `before`.
pub open spec fn layout_switched(before: Model, after: Model, es: Seq<EffectView>, delta: i64) -> bool {
    &&& (before.layouts@.len() < 2 ==> after == before && es.len() == 0)
    &&& (before.layouts@.len() >= 2 ==> {
            let ix = layout_step(before.layout_ix, delta, before.layouts@.len());
            let m = reloading(Model { layout_ix: ix, ..before });
            &&& told(m, after, layout_text(before.layouts@[ix as int]), Level::Info)
            &&& es == seq![load_of(m)]
        })
}

/// Move to the next or previous column layout, say which it is, and ask for the list
/// again, since the layout decides the order. With fewer than two there is nowhere to go.
pub fn switch_layout(model: &mut Model, delta: i64) -> (effects: Vec<Effect>)
    ensures
        layout_switched(*old(model), *final(model), effect_views(effects@), delta),
{
    if model.layouts.len() < 2 {
        return Vec::new();
    }
    let ix = wrap_index(model.layout_ix, delta, model.layouts.len());
    model.layout_ix = ix;
    let layout = &model.layouts[model.layout_ix];
    let mut text: Vec<char> = chars_of(layout.name.as_str());
    match &layout.description {
        Some(d) => {
            push_all(&mut text, chars_of(": ").as_slice());
            push_all(&mut text, chars_of(d.as_str()).as_slice());
            proof {
                reveal_strlit(": ");
            }
        },
        None => {},
    }
    let words = string_of(text.as_slice());
    proof {
        assert(words@ =~= layout_text(model.layouts@[model.layout_ix as int]));
    }
    let effects = reload_tasks(model);
    model.toast(Toast::info(words));
    effects
}

/// Tasks as values.
pub open spec fn task_views(ts: Seq<Task>) -> Seq<TaskView> {
    ts.map_values(|t: Task| t@)
}

/// Whether a task has the id `id`.
pub open spec fn has_task_id(id: i64) -> spec_fn(TaskView) -> bool {
    |t: TaskView| t.id == id
}

/// A label as `after` says, when it is the label `after` names.
pub open spec fn relabelled(l: LabelView, after: LabelView) -> LabelView {
    if l.id == after.id {
        after
    } else {
        l
    }
}

/// Labels with the one `after` names as `after` says.
pub open spec fn relabel_all(ls: Seq<LabelView>, after: LabelView) -> Seq<LabelView> {
    ls.map_values(|l: LabelView| relabelled(l, after))
}

/// Whether a label has the id `id`.
pub open spec fn has_label_id(id: i64) -> spec_fn(LabelView) -> bool {
    |l: LabelView| l.id == id
}

/// Whether a label has some id other than `id`.
pub open spec fn lacks_label_id(id: i64) -> spec_fn(LabelView) -> bool {
    |l: LabelView| l.id != id
}

/// The row a mutation takes out of the list, if any: a delete's, and an update's that
/// marks the task done while done tasks are hidden.
pub open spec fn removed_at(ts: Seq<TaskView>, x: MutationView, include_done: bool) -> Option<int> {
    match x {
        MutationView::UpdateTask { after, .. } => {
            let at = first_where(ts, has_task_id(after.id));
            if at < ts.len() && after.done && !include_done {
                Some(at)
            } else {
                None
            }
        },
        MutationView::DeleteTask { before } => {
            let at = first_where(ts, has_task_id(before.id));
            if at < ts.len() {
                Some(at)
            } else {
                None
            }
        },
        _ => None,
    }
}

/// The list once a mutation is applied to it: a created task at the top; an updated one
/// in its place, or gone when it is now done and done tasks are hidden; a deleted one
/// gone; a label put on (once) or taken off the first task with the id; a renamed label
/// renamed on every task carrying it.
pub open spec fn tasks_after(ts: Seq<TaskView>, x: MutationView, include_done: bool) -> Seq<TaskView> {
    match removed_at(ts, x, include_done) {
        Some(at) => ts.remove(at),
        None => match x {
            MutationView::CreateTask { task } => seq![task] + ts,
            MutationView::UpdateTask { after, .. } => {
                let at = first_where(ts, has_task_id(after.id));
                if at < ts.len() {
                    ts.update(at, after)
                } else {
                    ts
                }
            },
            MutationView::AttachLabel { task, label } => {
                let k = first_where(ts, has_task_id(task));
                if k < ts.len() && first_where(ts[k].labels, has_label_id(label.id))
                    >= ts[k].labels.len() {
                    ts.update(k, TaskView { labels: ts[k].labels.push(label), ..ts[k] })
                } else {
                    ts
                }
            },
            MutationView::DetachLabel { task, label } => {
                let k = first_where(ts, has_task_id(task));
                if k < ts.len() {
                    ts.update(
                        k,
                        TaskView { labels: ts[k].labels.filter(lacks_label_id(label.id)), ..ts[k] },
                    )
                } else {
                    ts
                }
            },
            MutationView::UpdateLabel { after, .. } => ts.map_values(
                |t: TaskView| TaskView { labels: relabel_all(t.labels, after), ..t },
            ),
            _ => ts,
        },
    }
}

/// The selection once a mutation is applied: a created task; after a row is taken out,
/// the row that slid into its place, or the one above when it was last; otherwise as it
/// was.
pub open spec fn selected_after(
    selected: Option<i64>,
    ts: Seq<TaskView>,
    x: MutationView,
    include_done: bool,
) -> Option<i64> {
    let rest = tasks_after(ts, x, include_done);
    match x {
        MutationView::CreateTask { task } => Some(task.id),
        _ => match removed_at(ts, x, include_done) {
            Some(at) => if at < rest.len() {
                Some(rest[at].id)
            } else if at > 0 && at - 1 < rest.len() {
                Some(rest[at - 1].id)
            } else {
                None
            },
            None => selected,
        },
    }
}

/// The label pool once a mutation is applied: renamed where a label was renamed.
pub open spec fn labels_after(ls: Seq<LabelView>, x: MutationView) -> Seq<LabelView> {
    match x {
        MutationView::UpdateLabel { after, .. } => relabel_all(ls, after),
        _ => ls,
    }
}

/// Whether `after` is the open form `before` once the label `l` names is renamed: the
/// label form's own copies, and a label picker's titles.
pub open spec fn modal_relabelled(before: Modal, after: Modal, l: LabelView) -> bool {
    match before {
        Modal::Labels(b) => match after {
            Modal::Labels(a) => a == LabelsState { labels: a.labels, ..b } && label_views(a.labels@)
                == relabel_all(label_views(b.labels@), l),
            _ => false,
        },
        Modal::Picker(b) => match after {
            Modal::Picker(a) => {
                &&& a == PickerState { candidates: a.candidates, ..b }
                &&& a.candidates@.len() == b.candidates@.len()
                &&& forall|k: int|
                    0 <= k < b.candidates@.len() ==> {
                        let c = #[trigger] a.candidates@[k];
                        let d = b.candidates@[k];
                        &&& c.pick == d.pick
                        &&& c.hint@ == d.hint@
                        &&& c.title@ == (if d.pick == Pick::Label(l.id) {
                            l.title
                        } else {
                            d.title@
                        })
                    }
            },
            _ => false,
        },
        _ => after == before,
    }
}

/// Whether the open forms `after` are `before` once a mutation is applied.
pub open spec fn modals_after(before: Seq<Modal>, after: Seq<Modal>, x: MutationView) -> bool {
    match x {
        MutationView::UpdateLabel { after: l, .. } => {
            &&& after.len() == before.len()
            &&& forall|k: int| 0 <= k < before.len() ==> modal_relabelled(before[k], #[trigger] after[k], l)
        },
        _ => after == before,
    }
}

/// Where a task with id `id` first stands, or the length.
pub(crate) fn task_index(tasks: &Vec<Task>, id: i64) -> (k: usize)
    ensures
        k == first_where(task_views(tasks@), has_task_id(id)),
{
    let ghost tv = task_views(tasks@);
    let mut k: usize = 0;
    while k < tasks.len()
        invariant
            k <= tasks@.len(),
            tv == task_views(tasks@),
            forall|j: int| 0 <= j < k ==> !has_task_id(id)(#[trigger] tv[j]),
        ensures
            k <= tasks@.len(),
            forall|j: int| 0 <= j < k ==> !has_task_id(id)(#[trigger] tv[j]),
            k < tasks@.len() ==> has_task_id(id)(tv[k as int]),
        decreases tasks.len() - k,
    {
        if tasks[k].id == id {
            break;
        }
        k += 1;
    }
    proof {
        lemma_first_where_is(tv, has_task_id(id), k as int);
    }
    k
}

/// Where a label with id `id` first stands, or the length.
pub(crate) fn label_index(labels: &Vec<Label>, id: i64) -> (k: usize)
    ensures
        k == first_where(label_views(labels@), has_label_id(id)),
{
    let ghost lv = label_views(labels@);
    let mut k: usize = 0;
    while k < labels.len()
        invariant
            k <= labels@.len(),
            lv == label_views(labels@),
            forall|j: int| 0 <= j < k ==> !has_label_id(id)(#[trigger] lv[j]),
        ensures
            k <= labels@.len(),
            forall|j: int| 0 <= j < k ==> !has_label_id(id)(#[trigger] lv[j]),
            k < labels@.len() ==> has_label_id(id)(lv[k as int]),
        decreases labels.len() - k,
    {
        if labels[k].id == id {
            break;
        }
        k += 1;
    }
    proof {
        lemma_first_where_is(lv, has_label_id(id), k as int);
    }
    k
}

/// Labels with the one `after` names replaced by a copy of `after`.
fn relabel_labels(labels: Vec<Label>, after: &Label) -> (out: Vec<Label>)
    ensures
        label_views(out@) == relabel_all(label_views(labels@), after@),
{
    let ghost lv = label_views(labels@);
    let mut rest = labels;
    let mut out: Vec<Label> = Vec::new();
    let ghost n = lv.len();
    while rest.len() > 0
        invariant
            n == lv.len(),
            out@.len() + rest@.len() == n,
            label_views(rest@) == lv.skip(out@.len() as int),
            label_views(out@) == relabel_all(lv.take(out@.len() as int), after@),
        decreases rest.len(),
    {
        let ghost done = out@.len() as int;
        let ghost rv = label_views(rest@);
        let l = rest.remove(0);
        proof {
            assert(rv[0] == l@);
            assert(label_views(rest@) =~= rv.drop_first());
            assert(lv.skip(done + 1) =~= lv.skip(done).drop_first());
            assert(lv[done] == lv.skip(done)[0]);
        }
        let ghost before = label_views(out@);
        if l.id == after.id {
            out.push(after.duplicate());
        } else {
            out.push(l);
        }
        proof {
            assert(label_views(out@) =~= before.push(relabelled(lv[done], after@)));
            assert(lv.take(done + 1) =~= lv.take(done).push(lv[done]));
            assert(relabel_all(lv.take(done + 1), after@) =~= relabel_all(lv.take(done), after@).push(
                relabelled(lv[done], after@),
            ));
        }
    }
    proof {
        assert(lv.take(n as int) =~= lv);
    }
    out
}

/// Every task with the label `after` names renamed as `after` says.
fn relabel_tasks(tasks: Vec<Task>, after: &Label) -> (out: Vec<Task>)
    ensures
        task_views(out@) == task_views(tasks@).map_values(
            |t: TaskView| TaskView { labels: relabel_all(t.labels, after@), ..t },
        ),
{
    let ghost tv = task_views(tasks@);
    let ghost f = |t: TaskView| TaskView { labels: relabel_all(t.labels, after@), ..t };
    let mut rest = tasks;
    let mut out: Vec<Task> = Vec::new();
    let ghost n = tv.len();
    while rest.len() > 0
        invariant
            n == tv.len(),
            f == (|t: TaskView| TaskView { labels: relabel_all(t.labels, after@), ..t }),
            out@.len() + rest@.len() == n,
            task_views(rest@) == tv.skip(out@.len() as int),
            task_views(out@) == tv.take(out@.len() as int).map_values(f),
        decreases rest.len(),
    {
        let ghost done = out@.len() as int;
        let ghost rv = task_views(rest@);
        let mut t = rest.remove(0);
        proof {
            assert(rv[0] == t@);
            assert(task_views(rest@) =~= rv.drop_first());
            assert(tv.skip(done + 1) =~= tv.skip(done).drop_first());
            assert(tv[done] == tv.skip(done)[0]);
        }
        let mut ls: Vec<Label> = Vec::new();
        std::mem::swap(&mut ls, &mut t.labels);
        t.labels = relabel_labels(ls, after);
        let ghost before = task_views(out@);
        out.push(t);
        proof {
            assert(out@.last()@ =~= f(tv[done]));
            assert(task_views(out@) =~= before.push(f(tv[done])));
            assert(tv.take(done + 1) =~= tv.take(done).push(tv[done]));
            assert(tv.take(done + 1).map_values(f) =~= tv.take(done).map_values(f).push(f(tv[done])));
        }
    }
    proof {
        assert(tv.take(n as int) =~= tv);
    }
    out
}

/// A picker's candidates with the label `after` names retitled.
fn retitle(candidates: Vec<Candidate>, after: &Label) -> (out: Vec<Candidate>)
    ensures
        out@.len() == candidates@.len(),
        forall|k: int|
            0 <= k < candidates@.len() ==> {
                let c = #[trigger] out@[k];
                let d = candidates@[k];
                &&& c.pick == d.pick
                &&& c.hint@ == d.hint@
                &&& c.title@ == (if d.pick == Pick::Label(after.id) {
                    after.title@
                } else {
                    d.title@
                })
            },
{
    let ghost cs = candidates@;
    let mut rest = candidates;
    let mut out: Vec<Candidate> = Vec::new();
    while rest.len() > 0
        invariant
            out@.len() + rest@.len() == cs.len(),
            rest@ == cs.skip(out@.len() as int),
            forall|k: int|
                0 <= k < out@.len() ==> {
                    let c = #[trigger] out@[k];
                    let d = cs[k];
                    &&& c.pick == d.pick
                    &&& c.hint@ == d.hint@
                    &&& c.title@ == (if d.pick == Pick::Label(after.id) {
                        after.title@
                    } else {
                        d.title@
                    })
                },
        decreases rest.len(),
    {
        let ghost done = out@.len() as int;
        let c = rest.remove(0);
        proof {
            assert(c == cs[done]);
            assert(rest@ =~= cs.skip(done + 1));
        }
        if c.pick == Pick::Label(after.id) {
            out.push(Candidate { pick: c.pick, title: after.title.clone(), hint: c.hint });
        } else {
            out.push(c);
        }
    }
    out
}

/// One open form, with the label `after` names renamed in what it holds.
fn relabel_modal(modal: Modal, after: &Label) -> (out: Modal)
    ensures
        modal_relabelled(modal, out, after@),
{
    match modal {
        Modal::Labels(mut state) => {
            let mut ls: Vec<Label> = Vec::new();
            std::mem::swap(&mut ls, &mut state.labels);
            state.labels = relabel_labels(ls, after);
            Modal::Labels(state)
        },
        Modal::Picker(mut state) => {
            let mut cs: Vec<Candidate> = Vec::new();
            std::mem::swap(&mut cs, &mut state.candidates);
            state.candidates = retitle(cs, after);
            Modal::Picker(state)
        },
        other => other,
    }
}

/// Every open form, with the label `after` names renamed in what each holds.
fn relabel_modals(modals: Vec<Modal>, after: &Label) -> (out: Vec<Modal>)
    ensures
        out@.len() == modals@.len(),
        forall|k: int| 0 <= k < modals@.len() ==> modal_relabelled(modals@[k], #[trigger] out@[k], after@),
{
    let ghost ms = modals@;
    let mut rest = modals;
    let mut out: Vec<Modal> = Vec::new();
    while rest.len() > 0
        invariant
            out@.len() + rest@.len() == ms.len(),
            rest@ == ms.skip(out@.len() as int),
            forall|k: int| 0 <= k < out@.len() ==> modal_relabelled(ms[k], #[trigger] out@[k], after@),
        decreases rest.len(),
    {
        let ghost done = out@.len() as int;
        let m = rest.remove(0);
        proof {
            assert(m == ms[done]);
            assert(rest@ =~= ms.skip(done + 1));
        }
        out.push(relabel_modal(m, after));
    }
    out
}

/// Put a copy of `label` on the first task with id `task`, unless it already carries it.
fn attach(tasks: &mut Vec<Task>, task: i64, label: &Label)
    ensures
        task_views(final(tasks)@) == tasks_after(
            task_views(old(tasks)@),
            MutationView::AttachLabel { task, label: label@ },
            true,
        ),
{
    let ghost ts = task_views(tasks@);
    let k = task_index(tasks, task);
    if k < tasks.len() {
        if label_index(&tasks[k].labels, label.id) >= tasks[k].labels.len() {
            let mut t = tasks.remove(k);
            let ghost was = t@;
            t.labels.push(label.duplicate());
            proof {
                assert(label_views(t.labels@) =~= was.labels.push(label@));
            }
            tasks.insert(k, t);
            proof {
                assert(task_views(tasks@) =~= ts.update(
                    k as int,
                    TaskView { labels: ts[k as int].labels.push(label@), ..ts[k as int] },
                ));
            }
        }
    }
}

/// Take the label with `label`'s id off the first task with id `task`.
fn detach(tasks: &mut Vec<Task>, task: i64, label: &Label)
    ensures
        task_views(final(tasks)@) == tasks_after(
            task_views(old(tasks)@),
            MutationView::DetachLabel { task, label: label@ },
            true,
        ),
{
    let ghost ts = task_views(tasks@);
    let k = task_index(tasks, task);
    if k < tasks.len() {
        let mut t = tasks.remove(k);
        let ghost was = t@;
        let mut ls: Vec<Label> = Vec::new();
        std::mem::swap(&mut ls, &mut t.labels);
        let ghost lv = label_views(ls@);
        let ghost pred = lacks_label_id(label.id);
        let mut kept: Vec<Label> = Vec::new();
        let mut i: usize = 0;
        while i < ls.len()
            invariant
                i <= ls@.len(),
                lv == label_views(ls@),
                pred == lacks_label_id(label.id),
                label_views(kept@) == lv.take(i as int).filter(pred),
            decreases ls.len() - i,
        {
            proof {
                assert(lv.take(i + 1).drop_last() =~= lv.take(i as int));
                reveal(Seq::filter);
            }
            let ghost before = label_views(kept@);
            if ls[i].id != label.id {
                kept.push(ls[i].duplicate());
                proof {
                    assert(label_views(kept@) =~= before.push(lv[i as int]));
                }
            }
            proof {
                assert(label_views(kept@) =~= lv.take(i + 1).filter(pred));
            }
            i += 1;
        }
        proof {
            assert(lv.take(i as int) =~= lv);
        }
        t.labels = kept;
        tasks.insert(k, t);
        proof {
            assert(task_views(tasks@) =~= ts.update(
                k as int,
                TaskView { labels: ts[k as int].labels.filter(lacks_label_id(label.id)), ..ts[k as int] },
            ));
        }
    }
}

/// The row that slid into place `at` once a row was taken out there, or the one above
/// when it was last.
fn next_selected(tasks: &Vec<Task>, at: usize) -> (r: Option<i64>)
    ensures
        r == (if at < tasks@.len() {
            Some(tasks@[at as int].id)
        } else if at > 0 && at - 1 < tasks@.len() {
            Some(tasks@[at - 1].id)
        } else {
            None
        }),
{
    if at < tasks.len() {
        Some(tasks[at].id)
    } else if at > 0 && at - 1 < tasks.len() {
        Some(tasks[at - 1].id)
    } else {
        None
    }
}

/// Whether the tasks a mutation writes have dates the calendar reads.
pub open spec fn mutation_dated(x: MutationView) -> bool {
    match x {
        MutationView::CreateTask { task } => dated_sanely(task),
        MutationView::UpdateTask { before, after } => dated_sanely(before) && dated_sanely(after),
        MutationView::DeleteTask { before } => dated_sanely(before),
        _ => true,
    }
}

/// Whether every change on both stacks writes dates the calendar reads.
pub open spec fn stacks_dated(m: Model) -> bool {
    &&& forall|k: int| 0 <= k < m.undo@.len() ==> mutation_dated(#[trigger] m.undo@[k]@)
    &&& forall|k: int| 0 <= k < m.redo@.len() ==> mutation_dated(#[trigger] m.redo@[k]@)
}

/// Whether two tasks carry the same dates.
pub open spec fn same_dates(a: TaskView, b: TaskView) -> bool {
    a.due_date == b.due_date && a.start_date == b.start_date && a.created == b.created
        && a.updated == b.updated
}

/// A list whose dates all read, changed by a mutation whose do too, still reads.
#[verifier::rlimit(40)]
pub(crate) proof fn lemma_still_dated(ts: Seq<Task>, out: Seq<Task>, x: MutationView, include_done: bool)
    requires
        all_dated_sanely(ts),
        mutation_dated(x),
        task_views(out) == tasks_after(task_views(ts), x, include_done),
    ensures
        all_dated_sanely(out),
{
    let tv = task_views(ts);
    let ov = task_views(out);
    assert(forall|k: int| 0 <= k < ts.len() ==> #[trigger] tv[k] == ts[k]@);
    assert(forall|k: int| 0 <= k < out.len() ==> #[trigger] ov[k] == out[k]@);
    assert(forall|k: int| 0 <= k < ts.len() ==> dated_sanely(#[trigger] tv[k]));
    match x {
        MutationView::UpdateTask { after, .. } => lemma_first_where(tv, has_task_id(after.id)),
        MutationView::DeleteTask { before } => lemma_first_where(tv, has_task_id(before.id)),
        MutationView::AttachLabel { task, .. } => lemma_first_where(tv, has_task_id(task)),
        MutationView::DetachLabel { task, .. } => lemma_first_where(tv, has_task_id(task)),
        _ => {},
    }
    match removed_at(tv, x, include_done) {
        Some(at) => {
            tv.remove_ensures(at);
            assert forall|k: int| 0 <= k < ov.len() implies dated_sanely(#[trigger] ov[k]) by {
                if k < at {
                    assert(ov[k] == tv[k]);
                } else {
                    assert(ov[k] == tv[k + 1]);
                }
            }
        },
        None => match x {
            MutationView::CreateTask { task } => {
                assert(ov =~= seq![task] + tv);
                assert forall|k: int| 0 <= k < ov.len() implies dated_sanely(#[trigger] ov[k]) by {
                    if k > 0 {
                        assert(ov[k] == tv[k - 1]);
                    }
                }
            },
            MutationView::UpdateLabel { after, .. } => {
                assert forall|k: int| 0 <= k < ov.len() implies dated_sanely(#[trigger] ov[k]) by {
                    assert(same_dates(ov[k], tv[k]));
                }
            },
            MutationView::UpdateTask { after, .. } => {
                assert forall|k: int| 0 <= k < ov.len() implies dated_sanely(#[trigger] ov[k]) by {
                    assert(ov[k] == tv[k] || ov[k] == after);
                }
            },
            MutationView::AttachLabel { task, .. } => {
                let at = first_where(tv, has_task_id(task));
                assert forall|k: int| 0 <= k < ov.len() implies dated_sanely(#[trigger] ov[k]) by {
                    if k == at {
                        assert(same_dates(ov[k], tv[k]));
                    } else {
                        assert(ov[k] == tv[k]);
                    }
                }
            },
            MutationView::DetachLabel { task, .. } => {
                let at = first_where(tv, has_task_id(task));
                assert forall|k: int| 0 <= k < ov.len() implies dated_sanely(#[trigger] ov[k]) by {
                    if k == at {
                        assert(same_dates(ov[k], tv[k]));
                    } else {
                        assert(ov[k] == tv[k]);
                    }
                }
            },
            _ => {
                assert(ov == tv);
            },
        },
    }
    assert forall|k: int| 0 <= k < out.len() implies dated_sanely(#[trigger] out[k]@) by {
        assert(ov[k] == out[k]@);
    }
}

/// Whether `after` is `before` with `x` applied to the list on screen, before any
/// scrolling: the tasks, the label pool, the open forms and the selection as the mutation
/// leaves them, and a created task's list back at its top; nothing else touched.
pub open spec fn changed(before: Model, after: Model, x: MutationView) -> bool {
    let ts = task_views(before.data.tasks@);
    let include_done = before.query.include_done;
    &&& task_views(after.data.tasks@) == tasks_after(ts, x, include_done)
    &&& label_views(after.data.labels@) == labels_after(label_views(before.data.labels@), x)
    &&& modals_after(before.modals@, after.modals@, x)
    &&& after.list.selected == selected_after(before.list.selected, ts, x, include_done)
    &&& after == (Model {
        data: Snapshot { tasks: after.data.tasks, labels: after.data.labels, ..before.data },
        list: TaskList {
            selected: after.list.selected,
            offset: if x is CreateTask {
                0
            } else {
                before.list.offset
            },
            ..before.list
        },
        modals: after.modals,
        ..before
    })
}

/// Whether `after` is `before` once `x` has been applied to the list on screen, and the
/// list scrolled to keep the selection in view.
pub open spec fn applied(before: Model, after: Model, x: MutationView, g: Geometry, offset: i32) -> bool {
    let mid = Model {
        list: TaskList {
            offset: if x is CreateTask {
                0
            } else {
                before.list.offset
            },
            ..after.list
        },
        ..after
    };
    &&& changed(before, mid, x)
    &&& list_kept(mid, after, frames_of(mid, g), offset)
}

/// Take the row at the first task with id `id` out of the list, selecting the row that
/// slid into its place.
fn take_out(model: &mut Model, id: i64, x: Ghost<MutationView>)
    requires
        removed_at(task_views(old(model).data.tasks@), x@, old(model).query.include_done) == Some(
            first_where(task_views(old(model).data.tasks@), has_task_id(id)),
        ),
        !(x@ is CreateTask),
        labels_after(label_views(old(model).data.labels@), x@) == label_views(old(model).data.labels@),
        modals_after(old(model).modals@, old(model).modals@, x@),
    ensures
        changed(*old(model), *final(model), x@),
{
    let ghost ts = task_views(model.data.tasks@);
    let at = task_index(&model.data.tasks, id);
    proof {
        lemma_first_where(ts, has_task_id(id));
    }
    model.data.tasks.remove(at);
    model.list.selected = next_selected(&model.data.tasks, at);
    proof {
        assert(task_views(model.data.tasks@) =~= ts.remove(at as int));
    }
}

/// Apply a mutation to the model's list, before any scrolling.
#[verifier::rlimit(40)]
fn change_list(model: &mut Model, mutation: &Mutation)
    ensures
        changed(*old(model), *final(model), mutation@),
{
    let ghost ts = task_views(model.data.tasks@);
    let include_done = model.query.include_done;
    match mutation {
        Mutation::CreateTask { task } => {
            model.data.tasks.insert(0, task.duplicate());
            model.list.selected = Some(task.id);
            model.list.offset = 0;
            proof {
                assert(task_views(model.data.tasks@) =~= seq![task@] + ts);
            }
        },
        Mutation::UpdateTask { after, .. } => {
            let at = task_index(&model.data.tasks, after.id);
            if at < model.data.tasks.len() {
                if after.done && !include_done {
                    take_out(model, after.id, Ghost(mutation@));
                } else {
                    model.data.tasks.remove(at);
                    model.data.tasks.insert(at, after.duplicate());
                    proof {
                        lemma_first_where(ts, has_task_id(after.id));
                        assert(task_views(model.data.tasks@) =~= ts.update(at as int, after@));
                    }
                }
            }
        },
        Mutation::DeleteTask { before } => {
            let at = task_index(&model.data.tasks, before.id);
            if at < model.data.tasks.len() {
                take_out(model, before.id, Ghost(mutation@));
            }
        },
        Mutation::AttachLabel { task, label } => {
            attach(&mut model.data.tasks, *task, label);
        },
        Mutation::DetachLabel { task, label } => {
            detach(&mut model.data.tasks, *task, label);
        },
        Mutation::UpdateLabel { after, .. } => {
            let mut tasks: Vec<Task> = Vec::new();
            std::mem::swap(&mut tasks, &mut model.data.tasks);
            model.data.tasks = relabel_tasks(tasks, after);
            let mut labels: Vec<Label> = Vec::new();
            std::mem::swap(&mut labels, &mut model.data.labels);
            model.data.labels = relabel_labels(labels, after);
            let mut modals: Vec<Modal> = Vec::new();
            std::mem::swap(&mut modals, &mut model.modals);
            model.modals = relabel_modals(modals, after);
        },
        Mutation::CreateLabel { .. } => {},
    }
}

/// Apply a mutation to the model's own copy of the list, ahead of the store, and keep
/// the selection in view.
pub fn apply_locally(model: &mut Model, mutation: &Mutation, geometry: &Geometry, offset: i32)
    requires
        steady_in(*old(model), *geometry, offset),
        mutation_dated(mutation@),
    ensures
        applied(*old(model), *final(model), mutation@, *geometry, offset),
{
    let ghost m0 = *model;
    change_list(model, mutation);
    proof {
        lemma_still_dated(m0.data.tasks@, model.data.tasks@, mutation@, m0.query.include_done);
    }
    let f = frames(model, geometry);
    keep_selection_visible(model, f, offset);
}

/// The inverse, as a sequence of nothing or one.
pub open spec fn inverse_seq(x: MutationView) -> Seq<MutationView> {
    match inverse_of(x) {
        Some(y) => seq![y],
        None => Seq::empty(),
    }
}

/// What an undo just did, in words the user can check against the screen.
pub open spec fn undo_words(x: MutationView) -> Seq<char> {
    match x {
        MutationView::CreateTask { task } => "Undone \u{2014} restored \""@ + task.title + "\""@,
        MutationView::DeleteTask { before } => "Undone \u{2014} removed \""@ + before.title + "\""@,
        MutationView::UpdateTask { after, .. } => "Undone \u{2014} \""@ + after.title + "\""@,
        MutationView::AttachLabel { label, .. } => "Undone \u{2014} added "@ + label.title,
        MutationView::DetachLabel { label, .. } => "Undone \u{2014} removed "@ + label.title,
        MutationView::UpdateLabel { after, .. } => "Undone \u{2014} reverted label "@ + after.title,
        MutationView::CreateLabel { label } => "Undone \u{2014} restored label "@ + label.title,
    }
}

/// Words around a title.
fn framed(front: &str, title: &str, back: &str) -> (s: String)
    ensures
        s@ == front@ + title@ + back@,
{
    let mut out = chars_of(front);
    push_all(&mut out, chars_of(title).as_slice());
    push_all(&mut out, chars_of(back).as_slice());
    let r = string_of(out.as_slice());
    proof {
        assert(r@ =~= front@ + title@ + back@);
    }
    r
}

/// What an undo just did.
pub fn undo_text(mutation: &Mutation) -> (s: String)
    ensures
        s@ == undo_words(mutation@),
{
    proof {
        reveal_strlit("Undone \u{2014} restored \"");
        reveal_strlit("Undone \u{2014} removed \"");
        reveal_strlit("Undone \u{2014} \"");
        reveal_strlit("\"");
        reveal_strlit("");
        reveal_strlit("Undone \u{2014} added ");
        reveal_strlit("Undone \u{2014} removed ");
        reveal_strlit("Undone \u{2014} reverted label ");
        reveal_strlit("Undone \u{2014} restored label ");
    }
    let r = match mutation {
        Mutation::CreateTask { task } => framed("Undone \u{2014} restored \"", task.title.as_str(), "\""),
        Mutation::DeleteTask { before } => framed("Undone \u{2014} removed \"", before.title.as_str(), "\""),
        Mutation::UpdateTask { after, .. } => framed("Undone \u{2014} \"", after.title.as_str(), "\""),
        Mutation::AttachLabel { label, .. } => framed("Undone \u{2014} added ", label.title.as_str(), ""),
        Mutation::DetachLabel { label, .. } => framed("Undone \u{2014} removed ", label.title.as_str(), ""),
        Mutation::UpdateLabel { after, .. } => framed("Undone \u{2014} reverted label ", after.title.as_str(), ""),
        Mutation::CreateLabel { label } => framed("Undone \u{2014} restored label ", label.title.as_str(), ""),
    };
    proof {
        assert(r@ =~= undo_words(mutation@));
    }
    r
}

/// Apply a mutation to the model's copy, and ask for it to be stored and queued, and for
/// the queue to be counted again.
pub fn apply(model: &mut Model, mutation: Mutation, geometry: &Geometry, offset: i32) -> (effects: Vec<Effect>)
    requires
        steady_in(*old(model), *geometry, offset),
        mutation_dated(mutation@),
    ensures
        applied(*old(model), *final(model), mutation@, *geometry, offset),
        effect_views(effects@) == seq![EffectView::Apply(mutation@), EffectView::LoadPending],
{
    apply_locally(model, &mutation, geometry, offset);
    let ghost x = mutation@;
    let mut effects: Vec<Effect> = Vec::new();
    push_effect(&mut effects, Effect::Apply(mutation));
    push_effect(&mut effects, Effect::LoadPending);
    proof {
        assert(effect_views(effects@) =~= seq![EffectView::Apply(x), EffectView::LoadPending]);
    }
    effects
}

/// A mutation at the end of a stack.
fn push_mutation(stack: &mut Vec<Mutation>, m: Mutation)
    ensures
        mutation_views(final(stack)@) == mutation_views(old(stack)@).push(m@),
{
    let ghost v = m@;
    stack.push(m);
    proof {
        assert(mutation_views(stack@) =~= mutation_views(old(stack)@).push(v));
    }
}

/// What making the change `x` makes of `before`: its inverse remembered, what was
/// undone forgotten, the change applied and asked for.
pub open spec fn edited(
    before: Model,
    after: Model,
    es: Seq<EffectView>,
    x: MutationView,
    g: Geometry,
    offset: i32,
) -> bool {
    &&& mutation_views(after.undo@) == mutation_views(before.undo@) + inverse_seq(x)
    &&& after.redo@.len() == 0
    &&& applied(Model { undo: after.undo, redo: after.redo, ..before }, after, x, g, offset)
    &&& es == seq![EffectView::Apply(x), EffectView::LoadPending]
}

/// Make a change: apply it, remember how to take it back, and forget what was undone.
pub fn edit(model: &mut Model, mutation: Mutation, geometry: &Geometry, offset: i32) -> (effects: Vec<Effect>)
    requires
        steady_in(*old(model), *geometry, offset),
        mutation_dated(mutation@),
    ensures
        edited(*old(model), *final(model), effect_views(effects@), mutation@, *geometry, offset),
{
    let ghost undo0 = mutation_views(model.undo@);
    match mutation.inverse() {
        Some(back) => {
            push_mutation(&mut model.undo, back);
        },
        None => {},
    }
    proof {
        assert(mutation_views(model.undo@) =~= undo0 + inverse_seq(mutation@));
    }
    model.redo.clear();
    apply(model, mutation, geometry, offset)
}

/// What undoing the last change makes of `before`.
pub open spec fn undone(before: Model, after: Model, es: Seq<EffectView>, g: Geometry, offset: i32) -> bool {
    &&& (before.undo@.len() == 0 ==> told(before, after, "Nothing to undo"@, Level::Info)
            && es.len() == 0)
    &&& (before.undo@.len() > 0 ==> {
            let x = before.undo@.last()@;
            &&& mutation_views(after.undo@) == mutation_views(before.undo@).drop_last()
            &&& mutation_views(after.redo@) == mutation_views(before.redo@) + inverse_seq(x)
            &&& toast_view(after.status.toast) == Some((undo_words(x), Level::Info, TOAST_LIFETIME))
            &&& after.status == (Status { toast: after.status.toast, ..before.status })
            &&& applied(
                Model {
                    undo: after.undo,
                    redo: after.redo,
                    status: after.status,
                    ..before
                },
                after,
                x,
                g,
                offset,
            )
            &&& es == seq![EffectView::Apply(x), EffectView::LoadPending]
        })
}

/// Take back the last change: apply its inverse, keep a way to redo it, and say what was
/// done. With nothing to undo, say so.
pub fn undo(model: &mut Model, geometry: &Geometry, offset: i32) -> (effects: Vec<Effect>)
    requires
        steady_in(*old(model), *geometry, offset),
        stacks_dated(*old(model)),
    ensures
        undone(*old(model), *final(model), effect_views(effects@), *geometry, offset),
{
    let ghost undo0 = mutation_views(model.undo@);
    let ghost redo0 = mutation_views(model.redo@);
    if model.undo.len() == 0 {
        model.toast(Toast::info(String::from_str("Nothing to undo")));
        proof {
            reveal_strlit("Nothing to undo");
        }
        return Vec::new();
    }
    match model.undo.pop() {
        Some(m) => {
            proof {
                assert(mutation_views(model.undo@) =~= undo0.drop_last());
                assert(mutation_dated(old(model).undo@[old(model).undo@.len() - 1]@));
            }
            match m.inverse() {
                Some(back) => {
                    push_mutation(&mut model.redo, back);
                },
                None => {},
            }
            proof {
                assert(mutation_views(model.redo@) =~= redo0 + inverse_seq(m@));
            }
            model.toast(Toast::info(undo_text(&m)));
            apply(model, m, geometry, offset)
        },
        None => Vec::new(),
    }
}

/// What redoing the last undone change makes of `before`.
pub open spec fn redone(before: Model, after: Model, es: Seq<EffectView>, g: Geometry, offset: i32) -> bool {
    &&& (before.redo@.len() == 0 ==> told(before, after, "Nothing to redo"@, Level::Info)
            && es.len() == 0)
    &&& (before.redo@.len() > 0 ==> {
            let x = before.redo@.last()@;
            &&& mutation_views(after.redo@) == mutation_views(before.redo@).drop_last()
            &&& mutation_views(after.undo@) == mutation_views(before.undo@) + inverse_seq(x)
            &&& applied(
                Model { undo: after.undo, redo: after.redo, ..before },
                after,
                x,
                g,
                offset,
            )
            &&& es == seq![EffectView::Apply(x), EffectView::LoadPending]
        })
}

/// Make again the last change undone, keeping the way to undo it once more. With nothing
/// to redo, say so.
pub fn redo(model: &mut Model, geometry: &Geometry, offset: i32) -> (effects: Vec<Effect>)
    requires
        steady_in(*old(model), *geometry, offset),
        stacks_dated(*old(model)),
    ensures
        redone(*old(model), *final(model), effect_views(effects@), *geometry, offset),
{
    let ghost undo0 = mutation_views(model.undo@);
    let ghost redo0 = mutation_views(model.redo@);
    if model.redo.len() == 0 {
        model.toast(Toast::info(String::from_str("Nothing to redo")));
        proof {
            reveal_strlit("Nothing to redo");
        }
        return Vec::new();
    }
    match model.redo.pop() {
        Some(m) => {
            proof {
                assert(mutation_views(model.redo@) =~= redo0.drop_last());
                assert(mutation_dated(old(model).redo@[old(model).redo@.len() - 1]@));
            }
            match m.inverse() {
                Some(back) => {
                    push_mutation(&mut model.undo, back);
                },
                None => {},
            }
            proof {
                assert(mutation_views(model.undo@) =~= undo0 + inverse_seq(m@));
            }
            apply(model, m, geometry, offset)
        },
        None => Vec::new(),
    }
}

/// Whether `after` is `before` once the terminal is `width` by `height`: focus moved off a
/// pane that no longer shows, then the list and the sidebar scrolled to keep their
/// selections in view.
pub open spec fn resized(before: Model, after: Model, width: u16, height: u16, g: Geometry, offset: i32) -> bool {
    let m = Model { size: (width, height), ..before };
    let f = frames_of(m, g);
    let settled_m = Model { focus: settled(m.focus, sidebar_on(f), preview_on(f)), ..m };
    exists|kept: Model|
        #[trigger] list_kept(settled_m, kept, frames_of(settled_m, g), offset) && after == sidebar_kept(
            kept,
            frames_of(kept, g),
        )
}

/// The terminal changed size; `geometry` is the layout at the new size.
pub fn resize(model: &mut Model, width: u16, height: u16, geometry: &Geometry, offset: i32)
    requires
        steady_in(*old(model), *geometry, offset),
    ensures
        resized(*old(model), *final(model), width, height, *geometry, offset),
{
    model.size = (width, height);
    let f = frames(model, geometry);
    settle_focus(model, f);
    let ghost settled_m = *model;
    let f = frames(model, geometry);
    keep_selection_visible(model, f, offset);
    let ghost kept = *model;
    let f = frames(model, geometry);
    keep_sidebar_visible(model, f);
    proof {
        assert(list_kept(settled_m, kept, frames_of(settled_m, *geometry), offset));
    }
}

/// Whether `after` is `before` once the clock reads `now`: the toast one tick nearer
/// going, and gone at zero.
pub open spec fn ticked(before: Model, after: Model, now: i64) -> bool {
    &&& after == (Model {
        now,
        status: Status { toast: after.status.toast, ..before.status },
        ..before
    })
    &&& toast_view(after.status.toast) == crate::model::ticked_spec(toast_view(before.status.toast))
}

/// A tick of the clock.
pub fn tick(model: &mut Model, now: i64)
    ensures
        ticked(*old(model), *final(model), now),
{
    model.now = now;
    crate::model::tick_toast(&mut model.status.toast);
}

/// Whether `after` is `before` once the store answered query `id` with `tasks`: an answer
/// to a query already moved on from is dropped; otherwise the list is that answer, no
/// longer loading and with no error, `truncated` when the store stopped at its limit, the
/// selection kept when its task is still there and otherwise moved to the first, and the
/// list scrolled to keep it in view.
pub open spec fn tasks_taken(
    before: Model,
    after: Model,
    id: u64,
    tasks: Seq<TaskView>,
    truncated: bool,
    g: Geometry,
    offset: i32,
) -> bool {
    if id != before.query_id {
        after == before
    } else {
        exists|m: Model|
            #[trigger] list_kept(m, after, frames_of(m, g), offset) && task_views(m.data.tasks@) == tasks
                && m.data.tasks == after.data.tasks && m == (Model {
                data: Snapshot {
                    tasks: m.data.tasks,
                    loading: false,
                    error: None,
                    truncated,
                    ..before.data
                },
                list: m.list,
                ..before
            }) && {
                let kept = Model { data: m.data, ..before };
                if selection_of(kept) is Some {
                    m.list == before.list
                } else {
                    m.list == (TaskList {
                        selected: if tasks.len() > 0 {
                            Some(tasks[0].id)
                        } else {
                            None
                        },
                        preview_scroll: 0,
                        ..before.list
                    })
                }
            }
    }
}

/// The store's answer to a task query.
pub fn tasks_loaded(
    model: &mut Model,
    id: u64,
    tasks: Vec<Task>,
    truncated: bool,
    geometry: &Geometry,
    offset: i32,
)
    requires
        steady_in(*old(model), *geometry, offset),
        all_dated_sanely(tasks@),
    ensures
        tasks_taken(*old(model), *final(model), id, task_views(tasks@), truncated, *geometry, offset),
{
    if id != model.query_id {
        return;
    }
    let ghost tv = task_views(tasks@);
    model.data.truncated = truncated;
    model.data.tasks = tasks;
    model.data.loading = false;
    model.data.error = None;
    let _ = model.data.tasks.len();
    proof {
        if let Some(sid) = model.list.selected {
            lemma_first_where(model.data.tasks@, task_with_id(sid));
        }
    }
    if model.selected_index().is_none() {
        model.list.selected = if model.data.tasks.len() > 0 {
            Some(model.data.tasks[0].id)
        } else {
            None
        };
        model.list.preview_scroll = 0;
    }
    let ghost m = *model;
    let f = frames(model, geometry);
    keep_selection_visible(model, f, offset);
    proof {
        assert(list_kept(m, *model, frames_of(m, *geometry), offset));
    }
}

/// The store's project list; the sidebar is scrolled to keep its selection in view.
pub fn projects_loaded(model: &mut Model, projects: Vec<Project>, geometry: &Geometry)
    requires
        drawable(projects@, old(model).data.counts),
    ensures
        *final(model) == sidebar_kept(
            Model { data: Snapshot { projects: final(model).data.projects, ..old(model).data }, ..*old(model) },
            frames_of(
                Model { data: Snapshot { projects: final(model).data.projects, ..old(model).data }, ..*old(model) },
                *geometry,
            ),
        ),
        final(model).data.projects@ == projects@,
{
    model.data.projects = projects;
    let f = frames(model, geometry);
    keep_sidebar_visible(model, f);
}

/// The store failed: nothing is loading any more, and the failure is shown both as the
/// list's banner and as a toast.
pub fn store_failed(model: &mut Model, message: String)
    ensures
        final(model).data.error matches Some(e) && e@ == message@,
        toast_view(final(model).status.toast) == Some((message@, Level::Error, TOAST_LIFETIME)),
        *final(model) == (Model {
            data: Snapshot { loading: false, error: final(model).data.error, ..old(model).data },
            status: Status { toast: final(model).status.toast, ..old(model).status },
            ..*old(model)
        }),
{
    model.data.loading = false;
    model.data.error = Some(message.clone());
    model.toast(Toast::error(message));
}

/// An answer to a query already moved on from changes nothing at all.
pub proof fn law_a_stale_answer_is_dropped(
    before: Model,
    after: Model,
    id: u64,
    tasks: Seq<TaskView>,
    truncated: bool,
    g: Geometry,
    offset: i32,
)
    requires
        tasks_taken(before, after, id, tasks, truncated, g, offset),
        id != before.query_id,
    ensures
        after == before,
{
}

/// The store's per-project counts.
pub fn counts_loaded(model: &mut Model, counts: crate::sidebar::ProjectCounts)
    ensures
        *final(model) == (Model { data: Snapshot { counts, ..old(model).data }, ..*old(model) }),
{
    model.data.counts = counts;
}

/// How many changes the store still holds queued.
pub fn pending_loaded(model: &mut Model, queued: usize)
    ensures
        *final(model) == (Model { status: Status { queued, ..old(model).status }, ..*old(model) }),
{
    model.status.queued = queued;
}

} // verus!
