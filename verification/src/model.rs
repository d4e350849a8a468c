//! What the interface knows about itself: focus, panes, sync state and transient
//! messages.
//!
//! One enum per question, and no field that is only meaningful when another field holds
//! a particular value.
use crate::columns::ColumnLayout;
use crate::keymap::{Context, Key};
use crate::label_forms::{first_where, lemma_first_where_is};
use crate::modal::Modal;
use crate::models::{Label, Task};
use crate::mutation::Mutation;
use crate::sidebar::{ProjectCounts, SidebarState, SidebarTarget, TaskCount};
use crate::theme::{ColorDepth, Theme};
use crate::models::Project;
use crate::resolve::{named, named_in};
use crate::text::{chars_of, trim, trimmed};
use vstd::prelude::*;

verus! {

/// Below this width the sidebar is hidden unless the user pinned it.
pub const SIDEBAR_AUTO_MIN: u16 = 100;

/// Below this width the preview is hidden unless the user pinned it.
pub const PREVIEW_AUTO_MIN: u16 = 140;

/// Which pane the keyboard is driving.
#[derive(Debug, Clone, Copy, PartialEq, Eq, Structural)]
pub enum Focus {
    /// The project tree.
    Sidebar,
    /// The task list.
    List,
    /// The task preview.
    Preview,
}

/// The keymap context a focus implies. The preview has no bindings of its own; motion
/// keys reach it as globals.
pub open spec fn focus_context(focus: Focus) -> Context {
    match focus {
        Focus::Sidebar => Context::Sidebar,
        Focus::List => Context::List,
        Focus::Preview => Context::Global,
    }
}

impl Focus {
    /// The list, which is where a session starts.
    pub fn default_focus() -> (f: Self)
        ensures
            f == Focus::List,
    {
        Focus::List
    }

    /// The keymap context this focus implies.
    pub fn context(self) -> (c: Context)
        ensures
            c == focus_context(self),
    {
        match self {
            Focus::Sidebar => Context::Sidebar,
            Focus::List => Context::List,
            Focus::Preview => Context::Global,
        }
    }
}

/// Whether an optional pane is showing, and whether the user said so.
///
/// Three states rather than a boolean because "hidden because the terminal is narrow" and
/// "hidden because I hid it" must survive a resize differently.
#[derive(Debug, Clone, Copy, PartialEq, Eq, Structural)]
pub enum PaneState {
    /// Follow the terminal width.
    Auto,
    /// The user asked for it.
    Shown,
    /// The user dismissed it.
    Hidden,
}

/// Whether the user wants a pane in this state at this width: intent, not visibility.
pub open spec fn wanted_spec(state: PaneState, width: u16, auto_min: u16) -> bool {
    match state {
        PaneState::Auto => width >= auto_min,
        PaneState::Shown => true,
        PaneState::Hidden => false,
    }
}

/// The state that flips what is currently showing, pinning the result.
pub open spec fn toggled_spec(state: PaneState, currently_visible: bool) -> PaneState {
    if currently_visible {
        PaneState::Hidden
    } else {
        PaneState::Shown
    }
}

impl PaneState {
    /// `Auto`, which is where every pane starts.
    pub fn default_state() -> (s: Self)
        ensures
            s == PaneState::Auto,
    {
        PaneState::Auto
    }

    /// Whether the user wants this pane at this width.
    ///
    /// Intent, not visibility: whether there is *room* is the layout's decision alone.
    pub fn wanted(self, width: u16, auto_min: u16) -> (r: bool)
        ensures
            r == wanted_spec(self, width, auto_min),
    {
        match self {
            PaneState::Auto => width >= auto_min,
            PaneState::Shown => true,
            PaneState::Hidden => false,
        }
    }

    /// The state that flips what is currently showing, pinning the result.
    pub fn toggled(self, currently_visible: bool) -> (s: Self)
        ensures
            s == toggled_spec(self, currently_visible),
    {
        if currently_visible {
            PaneState::Hidden
        } else {
            PaneState::Shown
        }
    }
}

/// Toggling pins the opposite of what is showing: the pinned state is wanted at every
/// width exactly when the pane was not visible, and no later resize second-guesses it.
pub proof fn law_toggle_pins_the_opposite(
    state: PaneState,
    currently_visible: bool,
    width: u16,
    auto_min: u16,
)
    ensures
        wanted_spec(toggled_spec(state, currently_visible), width, auto_min) == !currently_visible,
        toggled_spec(state, currently_visible) != PaneState::Auto,
{
}

/// The optional panes.
#[derive(Debug, Clone, Copy, PartialEq, Eq, Structural)]
pub struct Panes {
    /// The project tree.
    pub sidebar: PaneState,
    /// The task preview.
    pub preview: PaneState,
}

impl Panes {
    /// Both panes following the width.
    pub fn default_panes() -> (p: Self)
        ensures
            p == (Panes { sidebar: PaneState::Auto, preview: PaneState::Auto }),
    {
        Panes { sidebar: PaneState::Auto, preview: PaneState::Auto }
    }

    /// Whether the sidebar is wanted at this width.
    pub fn sidebar_wanted(self, width: u16) -> (r: bool)
        ensures
            r == wanted_spec(self.sidebar, width, SIDEBAR_AUTO_MIN),
    {
        self.sidebar.wanted(width, SIDEBAR_AUTO_MIN)
    }

    /// Whether the preview is wanted at this width.
    pub fn preview_wanted(self, width: u16) -> (r: bool)
        ensures
            r == wanted_spec(self.preview, width, PREVIEW_AUTO_MIN),
    {
        self.preview.wanted(width, PREVIEW_AUTO_MIN)
    }
}

/// What the sync engine is doing, as far as the interface knows.
#[derive(Debug, Clone, PartialEq, Eq)]
pub enum SyncStatus {
    /// Nothing in flight.
    Idle,
    /// A pass is running; what it is working on, already worded for display.
    Working { detail: String },
    /// The last pass could not finish. Queued changes are still queued.
    Failed { message: String },
}

/// How loud a toast is.
#[derive(Debug, Clone, Copy, PartialEq, Eq, Structural)]
pub enum Level {
    /// Confirmation of something the user did.
    Info,
    /// Something they should notice.
    Warning,
    /// Something went wrong.
    Error,
}

/// A transient message along the status line.
#[derive(Debug, Clone, PartialEq, Eq)]
pub struct Toast {
    /// What it says.
    pub text: String,
    /// How loud.
    pub level: Level,
    /// Ticks left before it disappears.
    pub ticks: u8,
}

/// Roughly five seconds at the runtime's tick cadence.
pub const TOAST_LIFETIME: u8 = 5;

impl Toast {
    /// A toast at [`Level::Info`].
    pub fn info(text: String) -> (t: Self)
        ensures
            t.text@ == text@,
            t.level == Level::Info,
            t.ticks == TOAST_LIFETIME,
    {
        Toast { text, level: Level::Info, ticks: TOAST_LIFETIME }
    }

    /// A toast at [`Level::Warning`].
    pub fn warning(text: String) -> (t: Self)
        ensures
            t.text@ == text@,
            t.level == Level::Warning,
            t.ticks == TOAST_LIFETIME,
    {
        Toast { text, level: Level::Warning, ticks: TOAST_LIFETIME }
    }

    /// A toast at [`Level::Error`].
    pub fn error(text: String) -> (t: Self)
        ensures
            t.text@ == text@,
            t.level == Level::Error,
            t.ticks == TOAST_LIFETIME,
    {
        Toast { text, level: Level::Error, ticks: TOAST_LIFETIME }
    }
}

/// What one clock tick does to the current toast: one tick fewer, and gone at zero.
pub open spec fn ticked_spec(toast: Option<(Seq<char>, Level, u8)>) -> Option<(Seq<char>, Level, u8)> {
    match toast {
        None => None,
        Some((text, level, ticks)) => if ticks <= 1 {
            None
        } else {
            Some((text, level, (ticks - 1) as u8))
        },
    }
}

/// A toast as a value: its text, level and remaining ticks.
pub open spec fn toast_view(toast: Option<Toast>) -> Option<(Seq<char>, Level, u8)> {
    match toast {
        None => None,
        Some(t) => Some((t.text@, t.level, t.ticks)),
    }
}

/// Count the current toast down by one tick, removing it when it runs out.
///
/// `update` has no clock of its own, so this is driven by the runtime's tick message.
pub fn tick_toast(toast: &mut Option<Toast>)
    ensures
        toast_view(*final(toast)) == ticked_spec(toast_view(*old(toast))),
{
    let remove = match toast {
        Some(t) => {
            t.ticks = if t.ticks > 0 { t.ticks - 1 } else { 0 };
            t.ticks == 0
        },
        None => false,
    };
    if remove {
        *toast = None;
    }
}

/// A toast is shown for exactly `ticks` ticks: after that many, it is gone, and before
/// then it is still there with its text and level unchanged.
pub proof fn law_toast_lasts_its_ticks(text: Seq<char>, level: Level, ticks: u8, n: nat)
    requires
        ticks >= 1,
    ensures
        n < ticks ==> ticked_n(Some((text, level, ticks)), n) == Some((text, level, (ticks - n) as u8)),
        n >= ticks ==> ticked_n(Some((text, level, ticks)), n) == None::<(Seq<char>, Level, u8)>,
    decreases n,
{
    if n > 0 {
        law_toast_lasts_its_ticks(text, level, ticks, (n - 1) as nat);
    }
}

/// `n` ticks in a row.
pub open spec fn ticked_n(toast: Option<(Seq<char>, Level, u8)>, n: nat) -> Option<(Seq<char>, Level, u8)>
    decreases n,
{
    if n == 0 {
        toast
    } else {
        ticked_spec(ticked_n(toast, (n - 1) as nat))
    }
}

/// Which view of the tasks is showing.
#[derive(Debug, Clone, Copy, PartialEq, Eq, Structural)]
pub enum Screen {
    /// The task list.
    Tasks,
}

/// Which tasks the list asks for.
#[derive(Debug, Clone, Copy, PartialEq, Eq, Structural)]
pub enum Scope {
    /// Every task in the store.
    All,
    /// Favourited tasks.
    Favorites,
    /// One project's tasks.
    Project(i64),
    /// The tasks carrying one label.
    Label(i64),
}

/// Whether one of `projects` has the id `id`.
pub open spec fn listed(projects: Seq<Project>, id: i64) -> bool {
    exists|k: int| 0 <= k < projects.len() && (#[trigger] projects[k]).id == id
}

/// The scope to open with: the configured project, named by `#id` or by title among the
/// real projects, archived ones included; then the project the last session showed, when
/// it is still listed; then everything.
pub open spec fn landing(default_project: Option<Seq<char>>, remembered: Option<i64>, projects: Seq<
    Project,
>) -> Scope {
    let configured = match default_project {
        Some(spec) => named_in(projects, trimmed(spec), true),
        None => None,
    };
    match configured {
        Some(id) => Scope::Project(id),
        None => match remembered {
            Some(id) => if listed(projects, id) {
                Scope::Project(id)
            } else {
                Scope::All
            },
            None => Scope::All,
        },
    }
}

/// Which scope to open with.
///
/// Precedence: the configured project, then the one the last session was showing, then
/// everything. A configured name that matches nothing loses to the remembered project
/// rather than to an error: the configuration may simply be ahead of a sync.
pub fn landing_scope(default_project: Option<&str>, remembered: Option<i64>, projects: &Vec<
    Project,
>) -> (s: Scope)
    ensures
        s == landing(
            match default_project {
                Some(spec) => Some(spec@),
                None => None,
            },
            remembered,
            projects@,
        ),
{
    if let Some(spec) = default_project {
        let chars = chars_of(spec);
        let s = trim(chars.as_slice());
        if let Some(id) = named(projects, s.as_slice(), true) {
            return Scope::Project(id);
        }
    }
    match remembered {
        Some(id) => {
            let mut k: usize = 0;
            while k < projects.len()
                invariant
                    k <= projects@.len(),
                    forall|j: int| 0 <= j < k ==> (#[trigger] projects@[j]).id != id,
                    remembered == Some(id),
                    match default_project {
                        Some(spec) => named_in(projects@, trimmed(spec@), true) is None,
                        None => true,
                    },
                decreases projects.len() - k,
            {
                if projects[k].id == id {
                    assert(projects@[k as int].id == id);
                    return Scope::Project(id);
                }
                k += 1;
            }
            Scope::All
        },
        None => Scope::All,
    }
}

/// The always-visible state of the application itself.
#[derive(Debug, Clone, PartialEq, Eq)]
pub struct Status {
    /// What sync is doing.
    pub sync: SyncStatus,
    /// When the last pass finished, in seconds since the Unix epoch.
    pub last_sync: Option<i64>,
    /// Local changes not yet accepted by the server.
    pub queued: usize,
    /// How many of those the server has refused.
    pub failing: usize,
    /// The current transient message, if any.
    pub toast: Option<Toast>,
}

impl Default for Status {
    fn default() -> (s: Status)
        ensures
            s.sync == SyncStatus::Idle,
            s.last_sync is None,
            s.queued == 0,
            s.failing == 0,
            s.toast is None,
    {
        Status { sync: SyncStatus::Idle, last_sync: None, queued: 0, failing: 0, toast: None }
    }
}

/// What the store last answered with.
#[derive(Debug, Clone, PartialEq, Eq)]
pub struct Snapshot {
    /// The current task list, already ordered by the store.
    pub tasks: Vec<Task>,
    /// Every project, including pseudo-projects; the sidebar filters them.
    pub projects: Vec<Project>,
    /// Every label, for the picker and for colouring.
    pub labels: Vec<Label>,
    /// Per-project counts for the sidebar.
    pub counts: ProjectCounts,
    /// Whether a task query is in flight. Distinguishes "no tasks" from "not yet".
    pub loading: bool,
    /// The last store failure, shown as a banner so the rest of the interface stays usable.
    pub error: Option<String>,
    /// Whether the list hit the store's limit on how many tasks one query returns.
    pub truncated: bool,
}

impl Default for Snapshot {
    fn default() -> (s: Snapshot)
        ensures
            s.tasks@.len() == 0,
            s.projects@.len() == 0,
            s.labels@.len() == 0,
            s.counts.by_project@.len() == 0,
            s.counts.favorites == (TaskCount { open: 0, done: 0 }),
            !s.loading,
            s.error is None,
            !s.truncated,
    {
        Snapshot {
            tasks: Vec::new(),
            projects: Vec::new(),
            labels: Vec::new(),
            counts: ProjectCounts { by_project: Vec::new(), favorites: TaskCount { open: 0, done: 0 } },
            loading: false,
            error: None,
            truncated: false,
        }
    }
}

/// What the list asks the store for: a scope, an optional title search, and whether
/// completed tasks are included.
#[derive(Debug, Clone, PartialEq, Eq)]
pub struct Query {
    /// Which tasks.
    pub scope: Scope,
    /// A title substring, when the list is filtered.
    pub search: Option<String>,
    /// Whether completed tasks are shown.
    pub include_done: bool,
}

/// A query as a value.
pub struct QueryView {
    pub scope: Scope,
    pub search: Option<Seq<char>>,
    pub include_done: bool,
}

impl View for Query {
    type V = QueryView;

    open spec fn view(&self) -> QueryView {
        QueryView {
            scope: self.scope,
            search: match self.search {
                Some(s) => Some(s@),
                None => None,
            },
            include_done: self.include_done,
        }
    }
}

impl Query {
    /// A copy asking for the same tasks.
    pub fn duplicate(&self) -> (q: Query)
        ensures
            q@ == self@,
    {
        Query {
            scope: self.scope,
            search: match &self.search {
                Some(s) => Some(s.clone()),
                None => None,
            },
            include_done: self.include_done,
        }
    }
}

/// The task list's own cursor.
#[derive(Debug, Clone, Copy, PartialEq, Eq, Structural)]
pub struct TaskList {
    /// The selected task, by id rather than by index: a reload that reorders or drops
    /// rows must not silently move the cursor onto a different task.
    pub selected: Option<i64>,
    /// First visible row.
    pub offset: usize,
    /// How far the preview is scrolled.
    pub preview_scroll: u16,
}

impl Default for TaskList {
    fn default() -> (l: TaskList)
        ensures
            l == (TaskList { selected: None, offset: 0, preview_scroll: 0 }),
    {
        TaskList { selected: None, offset: 0, preview_scroll: 0 }
    }
}

/// What a quick action does to the selected task.
#[derive(Debug, Clone, PartialEq, Eq)]
pub enum QuickActionKind {
    /// Move it into the project this names.
    Project(String),
    /// Give it this priority.
    Priority(u8),
    /// Put on the label this names, or take it off when the task has it.
    Label(String),
}

/// A single-key edit the user configured, reached with Space and then its key.
#[derive(Debug, Clone, PartialEq, Eq)]
pub struct QuickAction {
    /// The key, pressed after Space.
    pub key: char,
    /// What it does.
    pub kind: QuickActionKind,
}

/// Everything the interface knows.
pub struct Model {
    /// Which view is showing.
    pub screen: Screen,
    /// The modal stack. The last entry owns the keyboard.
    pub modals: Vec<Modal>,
    /// Which pane the keyboard is driving.
    pub focus: Focus,
    /// Keys of a chord already pressed, waiting for the rest.
    pub pending: Vec<Key>,
    /// Which optional panes are showing.
    pub panes: Panes,
    /// The project tree's state.
    pub sidebar: SidebarState,
    /// The task list's cursor.
    pub list: TaskList,
    /// What the store last answered with.
    pub data: Snapshot,
    /// What the list is asking for.
    pub query: Query,
    /// The id of that request; answers to older ones are dropped.
    pub query_id: u64,
    /// The layouts the user configured, or the built-in ones.
    pub layouts: Vec<ColumnLayout>,
    /// Which of them is active.
    pub layout_ix: usize,
    /// Sync state and transient messages.
    pub status: Status,
    /// The colours. Set once by the runtime, which knows how much colour the terminal
    /// can show.
    pub theme: Theme,
    /// Terminal size, as columns by rows.
    pub size: (u16, u16),
    /// The last time the runtime reported, in seconds since the Unix epoch.
    pub now: i64,
    /// Inverses of what has been done, newest last.
    pub undo: Vec<Mutation>,
    /// Inverses of what has been undone. Cleared by any new edit.
    pub redo: Vec<Mutation>,
    /// Where a task with no project named goes, as written in the configuration.
    pub default_project: Option<String>,
    /// The single-key edits the user configured, in the order they were written.
    pub quick_actions: Vec<QuickAction>,
    /// Cleared when the user quits; the runtime stops when this goes false.
    pub running: bool,
}

/// Whether a task has the id `id`.
pub open spec fn task_with_id(id: i64) -> spec_fn(Task) -> bool {
    |t: Task| t.id == id
}

/// Whether a project has the id `id`.
pub open spec fn project_with_id(id: i64) -> spec_fn(Project) -> bool {
    |p: Project| p.id == id
}

/// Whether a layout is called `name`.
pub open spec fn layout_named(name: Seq<char>) -> spec_fn(ColumnLayout) -> bool {
    |l: ColumnLayout| l.name@ == name
}

/// Where the first task with id `id` stands, or the length.
fn task_position(tasks: &Vec<Task>, id: i64) -> (k: usize)
    ensures
        k == first_where(tasks@, task_with_id(id)),
{
    let mut k: usize = 0;
    while k < tasks.len()
        invariant
            k <= tasks@.len(),
            forall|j: int| 0 <= j < k ==> !task_with_id(id)(#[trigger] tasks@[j]),
        ensures
            k <= tasks@.len(),
            forall|j: int| 0 <= j < k ==> !task_with_id(id)(#[trigger] tasks@[j]),
            k < tasks@.len() ==> task_with_id(id)(tasks@[k as int]),
        decreases tasks.len() - k,
    {
        if tasks[k].id == id {
            break;
        }
        k += 1;
    }
    proof {
        lemma_first_where_is(tasks@, task_with_id(id), k as int);
    }
    k
}

impl Model {
    /// A model showing `scope`, drawn with the layout called `active_layout` when there is
    /// one and the first otherwise, loading, with nothing else open.
    pub fn new(
        layouts: Vec<ColumnLayout>,
        active_layout: Option<&str>,
        scope: Scope,
        now: i64,
        size: (u16, u16),
        default_project: Option<String>,
    ) -> (m: Model)
        ensures
            m.layouts@ == layouts@,
            m.layout_ix == match active_layout {
                Some(name) => if first_where(layouts@, layout_named(name@)) < layouts@.len() {
                    first_where(layouts@, layout_named(name@)) as usize
                } else {
                    0
                },
                None => 0,
            },
            m.sidebar.selected == match scope {
                Scope::Project(id) => SidebarTarget::Project(id),
                Scope::Favorites => SidebarTarget::Favorites,
                _ => SidebarTarget::AllTasks,
            },
            m.query == (Query { scope, search: None, include_done: false }),
            m.sidebar.collapsed@.len() == 0,
            m.sidebar.offset == 0,
            m.screen == Screen::Tasks,
            m.modals@.len() == 0,
            m.focus == Focus::List,
            m.pending@.len() == 0,
            m.panes == (Panes { sidebar: PaneState::Auto, preview: PaneState::Auto }),
            m.list == (TaskList { selected: None, offset: 0, preview_scroll: 0 }),
            m.data.loading,
            m.data.tasks@.len() == 0,
            m.data.projects@.len() == 0,
            m.data.labels@.len() == 0,
            m.data.error is None,
            m.status.sync == SyncStatus::Idle,
            m.status.toast is None,
            m.status.queued == 0,
            m.theme.depth() == ColorDepth::TrueColor,
            m.size == size,
            m.now == now,
            m.default_project == default_project,
            m.query_id == 0,
            m.undo@.len() == 0,
            m.redo@.len() == 0,
            m.quick_actions@.len() == 0,
            m.running,
    {
        let mut layout_ix: usize = 0;
        if let Some(name) = active_layout {
            let wanted = chars_of(name);
            let mut k: usize = 0;
            while k < layouts.len()
                invariant
                    k <= layouts@.len(),
                    wanted@ == name@,
                    forall|j: int| 0 <= j < k ==> !layout_named(name@)(#[trigger] layouts@[j]),
                ensures
                    k <= layouts@.len(),
                    forall|j: int| 0 <= j < k ==> !layout_named(name@)(#[trigger] layouts@[j]),
                    k < layouts@.len() ==> layout_named(name@)(layouts@[k as int]),
                decreases layouts.len() - k,
            {
                let title = chars_of(layouts[k].name.as_str());
                if crate::server::same_chars(title.as_slice(), wanted.as_slice()) {
                    break;
                }
                k += 1;
            }
            proof {
                lemma_first_where_is(layouts@, layout_named(name@), k as int);
            }
            if k < layouts.len() {
                layout_ix = k;
            }
        }
        let selected = match scope {
            Scope::Project(id) => SidebarTarget::Project(id),
            Scope::Favorites => SidebarTarget::Favorites,
            _ => SidebarTarget::AllTasks,
        };
        let mut data = Snapshot::default();
        data.loading = true;
        Model {
            screen: Screen::Tasks,
            modals: Vec::new(),
            focus: Focus::List,
            pending: Vec::new(),
            panes: Panes { sidebar: PaneState::Auto, preview: PaneState::Auto },
            sidebar: SidebarState { selected, collapsed: Vec::new(), offset: 0 },
            list: TaskList { selected: None, offset: 0, preview_scroll: 0 },
            data,
            query: Query { scope, search: None, include_done: false },
            query_id: 0,
            layouts,
            layout_ix,
            status: Status::default(),
            theme: Theme::new(ColorDepth::TrueColor),
            size,
            now,
            undo: Vec::new(),
            redo: Vec::new(),
            default_project,
            quick_actions: Vec::new(),
            running: true,
        }
    }

    /// The active column layout, when the layouts hold the index.
    pub fn layout(&self) -> (l: Option<&ColumnLayout>)
        ensures
            l == if self.layout_ix < self.layouts@.len() {
                Some(&self.layouts@[self.layout_ix as int])
            } else {
                None
            },
    {
        if self.layout_ix < self.layouts.len() {
            Some(&self.layouts[self.layout_ix])
        } else {
            None
        }
    }

    /// The selected task, if it is still in the list.
    pub fn selected_task(&self) -> (t: Option<&Task>)
        ensures
            t == match self.list.selected {
                None => None,
                Some(id) => if first_where(self.data.tasks@, task_with_id(id))
                    < self.data.tasks@.len() {
                    Some(&self.data.tasks@[first_where(self.data.tasks@, task_with_id(id))])
                } else {
                    None
                },
            },
    {
        let id = match self.list.selected {
            Some(id) => id,
            None => {
                return None;
            },
        };
        let k = task_position(&self.data.tasks, id);
        if k < self.data.tasks.len() {
            Some(&self.data.tasks[k])
        } else {
            None
        }
    }

    /// Where the selection sits in the current list.
    pub fn selected_index(&self) -> (i: Option<usize>)
        ensures
            i == match self.list.selected {
                None => None,
                Some(id) => if first_where(self.data.tasks@, task_with_id(id))
                    < self.data.tasks@.len() {
                    Some(first_where(self.data.tasks@, task_with_id(id)) as usize)
                } else {
                    None
                },
            },
    {
        let id = match self.list.selected {
            Some(id) => id,
            None => {
                return None;
            },
        };
        let k = task_position(&self.data.tasks, id);
        if k < self.data.tasks.len() {
            Some(k)
        } else {
            None
        }
    }

    /// Whether the preview pane is wanted at this width and has something to show: an
    /// empty list would otherwise draw an empty box where a third of the list used to be.
    pub fn preview_wanted(&self) -> (r: bool)
        ensures
            r == (wanted_spec(self.panes.preview, self.size.0, PREVIEW_AUTO_MIN) && match self.list.selected {
                Some(id) => first_where(self.data.tasks@, task_with_id(id)) < self.data.tasks@.len(),
                None => false,
            }),
    {
        self.panes.preview_wanted(self.size.0) && self.selected_task().is_some()
    }

    /// The project with the id `id`, for the list's project column.
    pub fn project(&self, id: i64) -> (p: Option<&Project>)
        ensures
            p == if first_where(self.data.projects@, project_with_id(id)) < self.data.projects@.len() {
                Some(&self.data.projects@[first_where(self.data.projects@, project_with_id(id))])
            } else {
                None
            },
    {
        let mut k: usize = 0;
        while k < self.data.projects.len()
            invariant
                k <= self.data.projects@.len(),
                forall|j: int| 0 <= j < k ==> !project_with_id(id)(#[trigger] self.data.projects@[j]),
            ensures
                k <= self.data.projects@.len(),
                forall|j: int| 0 <= j < k ==> !project_with_id(id)(#[trigger] self.data.projects@[j]),
                k < self.data.projects@.len() ==> project_with_id(id)(self.data.projects@[k as int]),
            decreases self.data.projects.len() - k,
        {
            if self.data.projects[k].id == id {
                break;
            }
            k += 1;
        }
        proof {
            lemma_first_where_is(self.data.projects@, project_with_id(id), k as int);
        }
        if k < self.data.projects.len() {
            Some(&self.data.projects[k])
        } else {
            None
        }
    }

    /// The keymap context the focused pane implies.
    pub fn context(&self) -> (c: Context)
        ensures
            c == focus_context(self.focus),
    {
        self.focus.context()
    }

    /// Show a transient message, in place of any already showing.
    pub fn toast(&mut self, toast: Toast)
        ensures
            *final(self) == (Model { status: Status { toast: Some(toast), ..old(self).status }, ..*old(self) }),
    {
        self.status.toast = Some(toast);
    }
}

} // verus!
