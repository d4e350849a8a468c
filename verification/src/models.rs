//! The domain values the interface reads: tasks, labels and projects.
//!
//! Held as plain values: ids are integers, texts are strings, and a due date is the
//! instant it names, in seconds since the Unix epoch.
use vstd::prelude::*;

verus! {

/// A label, which any task may carry.
#[derive(Debug, Clone, PartialEq, Eq)]
pub struct Label {
    /// Its id. Negative while it is only known locally.
    pub id: i64,
    /// What it says.
    pub title: String,
    /// Six hex digits, or empty for "the interface picks one".
    pub hex_color: String,
}

/// A label as a value.
pub struct LabelView {
    pub id: i64,
    pub title: Seq<char>,
    pub hex_color: Seq<char>,
}

impl View for Label {
    type V = LabelView;

    open spec fn view(&self) -> LabelView {
        LabelView { id: self.id, title: self.title@, hex_color: self.hex_color@ }
    }
}

impl Label {
    /// A copy with the same id, title and colour.
    pub fn duplicate(&self) -> (l: Label)
        ensures
            l@ == self@,
    {
        Label { id: self.id, title: self.title.clone(), hex_color: self.hex_color.clone() }
    }
}

impl Default for Label {
    fn default() -> (l: Label)
        ensures
            l.id == 0,
            l.title@ == Seq::<char>::empty(),
            l.hex_color@ == Seq::<char>::empty(),
    {
        Label { id: 0, title: String::new(), hex_color: String::new() }
    }
}

/// A task, as much of it as the interface reads.
#[derive(Debug, Clone, PartialEq, Eq)]
pub struct Task {
    /// Its id. Negative while it is only known locally.
    pub id: i64,
    /// Its title.
    pub title: String,
    /// Its description: Markdown, plain text, or the HTML the web editor stores.
    pub description: String,
    /// Whether it is done.
    pub done: bool,
    /// 0 for none, 1 to 5.
    pub priority: i64,
    /// The project it is filed in.
    pub project_id: i64,
    /// The labels it carries.
    pub labels: Vec<Label>,
    /// When it is due, in seconds since the Unix epoch.
    pub due_date: Option<i64>,
    /// When it starts, in seconds since the Unix epoch.
    pub start_date: Option<i64>,
    /// When it was created, in seconds since the Unix epoch.
    pub created: Option<i64>,
    /// When it last changed, in seconds since the Unix epoch.
    pub updated: Option<i64>,
    /// The names of the people it is assigned to, as each is shown.
    pub assignees: Vec<String>,
    /// How the task is identified to a person, such as `#12` or `PROJ-12`.
    pub identifier: String,
    /// How much of it is done, in whole percent, when any of it is.
    pub percent_done: Option<i64>,
    /// When it was marked done, in seconds since the Unix epoch.
    pub done_at: Option<i64>,
}

impl Default for Task {
    fn default() -> (t: Task)
        ensures
            t.id == 0,
            t.title@ == Seq::<char>::empty(),
            t.description@ == Seq::<char>::empty(),
            !t.done,
            t.priority == 0,
            t.project_id == 0,
            t.labels@.len() == 0,
            t.due_date.is_none(),
            t.start_date.is_none(),
            t.created.is_none(),
            t.updated.is_none(),
            t.assignees@.len() == 0,
            t.identifier@ == Seq::<char>::empty(),
            t.percent_done.is_none(),
            t.done_at.is_none(),
    {
        Task {
            id: 0,
            title: String::new(),
            description: String::new(),
            done: false,
            priority: 0,
            project_id: 0,
            labels: Vec::new(),
            due_date: None,
            start_date: None,
            created: None,
            updated: None,
            assignees: Vec::new(),
            identifier: String::new(),
            percent_done: None,
            done_at: None,
        }
    }
}

/// A task as a value.
pub struct TaskView {
    pub id: i64,
    pub title: Seq<char>,
    pub description: Seq<char>,
    pub done: bool,
    pub priority: i64,
    pub project_id: i64,
    pub labels: Seq<LabelView>,
    pub due_date: Option<i64>,
    pub start_date: Option<i64>,
    pub created: Option<i64>,
    pub updated: Option<i64>,
    pub assignees: Seq<Seq<char>>,
    pub identifier: Seq<char>,
    pub percent_done: Option<i64>,
    pub done_at: Option<i64>,
}

impl View for Task {
    type V = TaskView;

    open spec fn view(&self) -> TaskView {
        TaskView {
            id: self.id,
            title: self.title@,
            description: self.description@,
            done: self.done,
            priority: self.priority,
            project_id: self.project_id,
            labels: self.labels@.map_values(|l: Label| l@),
            due_date: self.due_date,
            start_date: self.start_date,
            created: self.created,
            updated: self.updated,
            assignees: self.assignees@.map_values(|a: String| a@),
            identifier: self.identifier@,
            percent_done: self.percent_done,
            done_at: self.done_at,
        }
    }
}

/// A copy of every label in `labels`.
pub fn duplicate_labels(labels: &Vec<Label>) -> (out: Vec<Label>)
    ensures
        out@.map_values(|l: Label| l@) == labels@.map_values(|l: Label| l@),
{
    let mut out: Vec<Label> = Vec::new();
    let mut i: usize = 0;
    while i < labels.len()
        invariant
            i <= labels.len(),
            out@.len() == i,
            forall|k: int| 0 <= k < i ==> (#[trigger] out@[k])@ == labels@[k]@,
        decreases labels.len() - i,
    {
        let l = labels[i].duplicate();
        out.push(l);
        i += 1;
    }
    assert(out@.map_values(|l: Label| l@) =~= labels@.map_values(|l: Label| l@));
    out
}

/// A copy of every string in `texts`.
pub fn duplicate_texts(texts: &Vec<String>) -> (out: Vec<String>)
    ensures
        out@.map_values(|t: String| t@) == texts@.map_values(|t: String| t@),
{
    let mut out: Vec<String> = Vec::new();
    let mut i: usize = 0;
    while i < texts.len()
        invariant
            i <= texts.len(),
            out@.len() == i,
            forall|k: int| 0 <= k < i ==> (#[trigger] out@[k])@ == texts@[k]@,
        decreases texts.len() - i,
    {
        out.push(texts[i].clone());
        i += 1;
    }
    assert(out@.map_values(|t: String| t@) =~= texts@.map_values(|t: String| t@));
    out
}

impl Task {
    /// Whether it has a priority at all: zero means none was set.
    pub open spec fn prioritised(self) -> bool {
        self.priority > 0
    }

    /// Whether it has a priority at all.
    pub fn has_priority(&self) -> (r: bool)
        ensures
            r == self.prioritised(),
    {
        self.priority > 0
    }

    /// A copy with the same fields.
    pub fn duplicate(&self) -> (t: Task)
        ensures
            t@ == self@,
    {
        Task {
            id: self.id,
            title: self.title.clone(),
            description: self.description.clone(),
            done: self.done,
            priority: self.priority,
            project_id: self.project_id,
            labels: duplicate_labels(&self.labels),
            due_date: self.due_date,
            start_date: self.start_date,
            created: self.created,
            updated: self.updated,
            assignees: duplicate_texts(&self.assignees),
            identifier: self.identifier.clone(),
            percent_done: self.percent_done,
            done_at: self.done_at,
        }
    }
}

/// A project, as much of it as the interface reads.
#[derive(Debug, Clone, PartialEq, Eq)]
pub struct Project {
    /// Its id. Zero and below are the server's pseudo-projects.
    pub id: i64,
    /// Its title.
    pub title: String,
    /// Its parent's id, or zero at the top of the tree.
    pub parent_project_id: i64,
    /// Whether it is archived.
    pub is_archived: bool,
    /// Where the server places it among its siblings, as a rank: lower comes first.
    pub position: i64,
}

/// A project as a value.
pub struct ProjectView {
    pub id: i64,
    pub title: Seq<char>,
    pub parent_project_id: i64,
    pub is_archived: bool,
    pub position: i64,
}

impl View for Project {
    type V = ProjectView;

    open spec fn view(&self) -> ProjectView {
        ProjectView {
            id: self.id,
            title: self.title@,
            parent_project_id: self.parent_project_id,
            is_archived: self.is_archived,
            position: self.position,
        }
    }
}

impl Project {
    /// A copy with the same fields.
    pub fn duplicate(&self) -> (p: Project)
        ensures
            p@ == self@,
    {
        Project {
            id: self.id,
            title: self.title.clone(),
            parent_project_id: self.parent_project_id,
            is_archived: self.is_archived,
            position: self.position,
        }
    }
}

/// The views of some projects.
pub open spec fn project_views(projects: Seq<Project>) -> Seq<ProjectView> {
    projects.map_values(|p: Project| p@)
}

impl Default for Project {
    fn default() -> (p: Project)
        ensures
            p.id == 0,
            p.title@ == Seq::<char>::empty(),
            p.parent_project_id == 0,
            !p.is_archived,
            p.position == 0,
    {
        Project { id: 0, title: String::new(), parent_project_id: 0, is_archived: false, position: 0 }
    }
}

} // verus!
