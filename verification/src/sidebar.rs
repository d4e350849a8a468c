//! The project tree, flattened for display.
//!
//! Pure: given the projects the store returned and which nodes are collapsed, produce the
//! rows to draw. Selection is a [`SidebarTarget`] rather than a row index, so a project
//! arriving or leaving does not move the cursor to something else.
use crate::label_forms::{first_where, lemma_first_where, lemma_first_where_is};
use crate::models::{project_views, Project, ProjectView};
use crate::text::{chars_of, lex_before, lowercase, text_before, to_lowercase};
use vstd::prelude::*;

verus! {

/// Something the sidebar can select.
#[derive(Debug, Clone, Copy, PartialEq, Eq, Structural, Hash)]
pub enum SidebarTarget {
    /// Every task in the store.
    AllTasks,
    /// Favourited tasks.
    Favorites,
    /// One project.
    Project(i64),
}

impl Default for SidebarTarget {
    fn default() -> (t: SidebarTarget)
        ensures
            t == SidebarTarget::AllTasks,
    {
        SidebarTarget::AllTasks
    }
}

/// How many tasks are open and done in one place.
#[derive(Debug, Clone, Copy, PartialEq, Eq, Structural)]
pub struct TaskCount {
    /// Tasks not yet done.
    pub open: i64,
    /// Tasks done.
    pub done: i64,
}

impl Default for TaskCount {
    fn default() -> (c: TaskCount)
        ensures
            c.open == 0,
            c.done == 0,
    {
        TaskCount { open: 0, done: 0 }
    }
}

impl TaskCount {
    /// Open and done together.
    pub fn total(&self) -> (n: i64)
        requires
            i64::MIN <= self.open + self.done <= i64::MAX,
        ensures
            n == self.open + self.done,
    {
        self.open + self.done
    }
}

/// Task counts per project, and for the favourites.
#[derive(Debug, Clone, PartialEq, Eq)]
pub struct ProjectCounts {
    /// The count of each project that has tasks, by project id; an id stands once.
    pub by_project: Vec<(i64, TaskCount)>,
    /// The favourited tasks.
    pub favorites: TaskCount,
}

/// Whether a count entry is for the project `id`.
pub open spec fn counts_for(id: i64) -> spec_fn((i64, TaskCount)) -> bool {
    |e: (i64, TaskCount)| e.0 == id
}

/// The count of project `id`: its entry, or nothing open and nothing done.
pub open spec fn count_of(entries: Seq<(i64, TaskCount)>, id: i64) -> TaskCount {
    let k = first_where(entries, counts_for(id));
    if k < entries.len() {
        entries[k].1
    } else {
        TaskCount { open: 0, done: 0 }
    }
}

/// The open tasks of every entry together.
pub open spec fn total_open(entries: Seq<(i64, TaskCount)>) -> int
    decreases entries.len(),
{
    if entries.len() == 0 {
        0
    } else {
        total_open(entries.drop_last()) + entries.last().1.open
    }
}

impl ProjectCounts {
    /// No project id has two entries.
    pub open spec fn well_formed(&self) -> bool {
        forall|i: int, j: int|
            0 <= i < j < self.by_project@.len() ==> #[trigger] self.by_project@[i].0
                != #[trigger] self.by_project@[j].0
    }

    /// The counts of project `id`, or zero for a project with no tasks.
    pub fn for_project(&self, id: i64) -> (c: TaskCount)
        ensures
            c == count_of(self.by_project@, id),
    {
        let mut k: usize = 0;
        while k < self.by_project.len()
            invariant
                k <= self.by_project@.len(),
                forall|j: int| 0 <= j < k ==> !counts_for(id)(#[trigger] self.by_project@[j]),
            ensures
                k <= self.by_project@.len(),
                forall|j: int| 0 <= j < k ==> !counts_for(id)(#[trigger] self.by_project@[j]),
                k < self.by_project@.len() ==> counts_for(id)(self.by_project@[k as int]),
            decreases self.by_project.len() - k,
        {
            if self.by_project[k].0 == id {
                break;
            }
            k += 1;
        }
        proof {
            lemma_first_where_is(self.by_project@, counts_for(id), k as int);
        }
        if k < self.by_project.len() {
            self.by_project[k].1
        } else {
            TaskCount { open: 0, done: 0 }
        }
    }
}

/// One drawn line of the sidebar.
#[derive(Debug, Clone, PartialEq, Eq)]
pub enum SidebarRow {
    /// A section heading. Not selectable.
    Heading(&'static str),
    /// A place tasks can come from.
    Target {
        /// What selecting this row shows.
        target: SidebarTarget,
        /// The text to draw.
        title: String,
        /// Open tasks, drawn on the right.
        open: i64,
        /// How deep in the tree, for indentation.
        depth: u16,
        /// Whether it has children at all.
        has_children: bool,
        /// Whether those children are hidden.
        collapsed: bool,
    },
}

/// A sidebar row as a value.
pub enum RowView {
    Heading(Seq<char>),
    Target {
        target: SidebarTarget,
        title: Seq<char>,
        open: int,
        depth: int,
        has_children: bool,
        collapsed: bool,
    },
}

impl View for SidebarRow {
    type V = RowView;

    open spec fn view(&self) -> RowView {
        match self {
            SidebarRow::Heading(text) => RowView::Heading(text@),
            SidebarRow::Target { target, title, open, depth, has_children, collapsed } => {
                RowView::Target {
                    target: *target,
                    title: title@,
                    open: *open as int,
                    depth: *depth as int,
                    has_children: *has_children,
                    collapsed: *collapsed,
                }
            },
        }
    }
}

/// The views of some rows.
pub open spec fn row_views(rows: Seq<SidebarRow>) -> Seq<RowView> {
    rows.map_values(|r: SidebarRow| r@)
}

/// What a row selects, if anything.
pub open spec fn target_of(row: RowView) -> Option<SidebarTarget> {
    match row {
        RowView::Heading(_) => None,
        RowView::Target { target, .. } => Some(target),
    }
}

impl SidebarRow {
    /// The target this row selects, if it is selectable.
    pub fn target(&self) -> (t: Option<SidebarTarget>)
        ensures
            t == target_of(self@),
    {
        match self {
            SidebarRow::Heading(_) => None,
            SidebarRow::Target { target, .. } => Some(*target),
        }
    }
}

/// The sidebar's own state, which survives reloads.
#[derive(Debug, Clone, PartialEq, Eq)]
pub struct SidebarState {
    /// What is selected.
    pub selected: SidebarTarget,
    /// Projects whose children are hidden. Collapsed rather than expanded, so a first
    /// launch shows the tree rather than a row of closed folders.
    pub collapsed: Vec<i64>,
    /// First visible row, for scrolling.
    pub offset: usize,
}

impl Default for SidebarState {
    fn default() -> (s: SidebarState)
        ensures
            s.selected == SidebarTarget::AllTasks,
            s.collapsed@.len() == 0,
            s.offset == 0,
    {
        SidebarState { selected: SidebarTarget::AllTasks, collapsed: Vec::new(), offset: 0 }
    }
}

/// Whether a project belongs in the tree: a real project, not archived. Pseudo-projects,
/// ids zero and below, are the server's saved filters and Favourites, which has its own row.
pub open spec fn in_tree(p: ProjectView) -> bool {
    p.id > 0 && !p.is_archived
}

/// The projects that belong in the tree, in the order given.
pub open spec fn tree_projects(ps: Seq<ProjectView>) -> Seq<ProjectView>
    decreases ps.len(),
{
    if ps.len() == 0 {
        ps
    } else if in_tree(ps.last()) {
        tree_projects(ps.drop_last()).push(ps.last())
    } else {
        tree_projects(ps.drop_last())
    }
}

/// Whether one of `ps` has the id `id`.
pub open spec fn has_id(ps: Seq<ProjectView>, id: i64) -> bool {
    exists|k: int| 0 <= k < ps.len() && (#[trigger] ps[k]).id == id
}

/// Where a project hangs in the tree: under its parent when the parent is in the tree,
/// and at the top, under zero, otherwise, so it is drawn rather than vanishing with it.
pub open spec fn hung_under(tree: Seq<ProjectView>, p: ProjectView) -> i64 {
    if has_id(tree, p.parent_project_id) {
        p.parent_project_id
    } else {
        0
    }
}

/// Those of `ps` that hang under `key`, in the order given.
pub open spec fn hanging(tree: Seq<ProjectView>, key: i64, ps: Seq<ProjectView>) -> Seq<
    ProjectView,
>
    decreases ps.len(),
{
    if ps.len() == 0 {
        ps
    } else if hung_under(tree, ps.last()) == key {
        hanging(tree, key, ps.drop_last()).push(ps.last())
    } else {
        hanging(tree, key, ps.drop_last())
    }
}

/// Whether `a` is drawn before a sibling `b`: by position, then by lowercased title.
pub open spec fn before(a: ProjectView, b: ProjectView) -> bool {
    a.position < b.position || (a.position == b.position && lex_before(
        lowercase(a.title),
        lowercase(b.title),
    ))
}

/// Whether `x` is drawn before `e`.
pub open spec fn drawn_before(x: ProjectView) -> spec_fn(ProjectView) -> bool {
    |e: ProjectView| before(x, e)
}

/// `x` placed into the ordered `t`: ahead of the first it is drawn before, so after every
/// sibling it ties with.
pub open spec fn place(t: Seq<ProjectView>, x: ProjectView) -> Seq<ProjectView> {
    t.insert(first_where(t, drawn_before(x)), x)
}

/// `s` in drawing order, ties keeping the order given: a stable sort.
pub open spec fn ordered(s: Seq<ProjectView>) -> Seq<ProjectView>
    decreases s.len(),
{
    if s.len() == 0 {
        s
    } else {
        place(ordered(s.drop_last()), s.last())
    }
}

/// The children of `key` in the tree, in drawing order; the roots are the children of zero.
pub open spec fn kids_of(tree: Seq<ProjectView>, key: i64) -> Seq<ProjectView> {
    ordered(hanging(tree, key, tree))
}

/// The rows one project draws, with everything under it unless it is collapsed, and the
/// ids drawn so far after it.
///
/// A project whose id was already drawn draws nothing: a parent cycle, or two projects
/// sharing an id, is rendered oddly rather than without end. `fuel` bounds the depth; the
/// tree's own size is always enough, since a drawn path never repeats an id, as
/// [`law_the_depth_bound_never_cuts_the_tree`] states.
pub open spec fn visit(
    tree: Seq<ProjectView>,
    counts: Seq<(i64, TaskCount)>,
    collapsed: Seq<i64>,
    p: ProjectView,
    depth: int,
    seen: Seq<i64>,
    fuel: nat,
) -> (Seq<RowView>, Seq<i64>)
    decreases fuel, 0nat,
{
    if seen.contains(p.id) {
        (Seq::empty(), seen)
    } else {
        let kids = kids_of(tree, p.id);
        let folded = collapsed.contains(p.id);
        let row = RowView::Target {
            target: SidebarTarget::Project(p.id),
            title: p.title,
            open: count_of(counts, p.id).open as int,
            depth,
            has_children: kids.len() > 0,
            collapsed: folded,
        };
        if folded || fuel == 0 {
            (seq![row], seen.push(p.id))
        } else {
            let below = visit_all(
                tree,
                counts,
                collapsed,
                kids,
                depth + 1,
                seen.push(p.id),
                (fuel - 1) as nat,
            );
            (seq![row] + below.0, below.1)
        }
    }
}

/// The rows a list of siblings draws, one after another.
pub open spec fn visit_all(
    tree: Seq<ProjectView>,
    counts: Seq<(i64, TaskCount)>,
    collapsed: Seq<i64>,
    ps: Seq<ProjectView>,
    depth: int,
    seen: Seq<i64>,
    fuel: nat,
) -> (Seq<RowView>, Seq<i64>)
    decreases fuel, ps.len(),
{
    if ps.len() == 0 {
        (Seq::empty(), seen)
    } else {
        let front = visit_all(tree, counts, collapsed, ps.drop_last(), depth, seen, fuel);
        let last = visit(tree, counts, collapsed, ps.last(), depth, front.1, fuel);
        (front.0 + last.0, last.1)
    }
}

/// The rows of the sidebar: All tasks with every open task, Favorites when any task is
/// favourited, then, when the tree has projects, a heading and the tree in order.
pub open spec fn sidebar_rows(
    projects: Seq<ProjectView>,
    counts: ProjectCounts,
    collapsed: Seq<i64>,
) -> Seq<RowView> {
    let all = RowView::Target {
        target: SidebarTarget::AllTasks,
        title: "All tasks"@,
        open: total_open(counts.by_project@),
        depth: 0,
        has_children: false,
        collapsed: false,
    };
    let favorites = RowView::Target {
        target: SidebarTarget::Favorites,
        title: "Favorites"@,
        open: counts.favorites.open as int,
        depth: 0,
        has_children: false,
        collapsed: false,
    };
    let fixed = if counts.favorites.open + counts.favorites.done > 0 {
        seq![all, favorites]
    } else {
        seq![all]
    };
    let tree = tree_projects(projects);
    if tree.len() == 0 {
        fixed
    } else {
        fixed.push(RowView::Heading("Projects"@)) + visit_all(
            tree,
            counts.by_project@,
            collapsed,
            kids_of(tree, 0),
            0,
            Seq::empty(),
            depth_room(tree.len()),
        ).0
    }
}

/// How deep the tree is drawn: as deep as it has projects, which a drawn path never
/// exceeds, and no deeper than a depth counts in a `u16`.
pub open spec fn depth_room(n: nat) -> nat {
    if n <= 65535 {
        n
    } else {
        65535
    }
}

/// Whether `id` is among `ids`.
fn holds_id(ids: &Vec<i64>, id: i64) -> (r: bool)
    ensures
        r == ids@.contains(id),
{
    let mut k: usize = 0;
    while k < ids.len()
        invariant
            k <= ids@.len(),
            forall|j: int| 0 <= j < k ==> ids@[j] != id,
        decreases ids.len() - k,
    {
        if ids[k] == id {
            assert(ids@[k as int] == id);
            return true;
        }
        k += 1;
    }
    false
}

/// The projects that belong in the tree.
fn tree_of(projects: &Vec<Project>) -> (tree: Vec<Project>)
    ensures
        project_views(tree@) == tree_projects(project_views(projects@)),
{
    let ghost pv = project_views(projects@);
    let mut tree: Vec<Project> = Vec::new();
    let mut i: usize = 0;
    while i < projects.len()
        invariant
            i <= projects@.len(),
            pv == project_views(projects@),
            project_views(tree@) == tree_projects(pv.take(i as int)),
        decreases projects.len() - i,
    {
        proof {
            assert(pv.take(i + 1).drop_last() =~= pv.take(i as int));
        }
        let p = &projects[i];
        if p.id > 0 && !p.is_archived {
            let ghost before_push = tree@;
            tree.push(p.duplicate());
            proof {
                assert(project_views(tree@) =~= project_views(before_push).push(pv[i as int]));
            }
        }
        i += 1;
    }
    proof {
        assert(pv.take(i as int) =~= pv);
    }
    tree
}

/// Whether one of `tree` has the id `id`.
fn tree_has(tree: &Vec<Project>, id: i64) -> (r: bool)
    ensures
        r == has_id(project_views(tree@), id),
{
    let ghost tv = project_views(tree@);
    let mut k: usize = 0;
    while k < tree.len()
        invariant
            k <= tree@.len(),
            tv == project_views(tree@),
            forall|j: int| 0 <= j < k ==> (#[trigger] tv[j]).id != id,
        decreases tree.len() - k,
    {
        if tree[k].id == id {
            assert(tv[k as int].id == id);
            return true;
        }
        k += 1;
    }
    false
}

/// Whether `a` is drawn before a sibling `b`.
fn drawn_first(a: &Project, b: &Project) -> (r: bool)
    ensures
        r == before(a@, b@),
{
    if a.position < b.position {
        return true;
    }
    if a.position != b.position {
        return false;
    }
    let la = to_lowercase(a.title.as_str());
    let lb = to_lowercase(b.title.as_str());
    let ca = chars_of(la.as_str());
    let cb = chars_of(lb.as_str());
    text_before(ca.as_slice(), cb.as_slice())
}

/// The children of `key` in drawing order.
fn children(tree: &Vec<Project>, key: i64) -> (kids: Vec<Project>)
    ensures
        project_views(kids@) == kids_of(project_views(tree@), key),
{
    let ghost tv = project_views(tree@);
    let mut hung: Vec<Project> = Vec::new();
    let mut i: usize = 0;
    while i < tree.len()
        invariant
            i <= tree@.len(),
            tv == project_views(tree@),
            project_views(hung@) == hanging(tv, key, tv.take(i as int)),
        decreases tree.len() - i,
    {
        proof {
            assert(tv.take(i + 1).drop_last() =~= tv.take(i as int));
        }
        let p = &tree[i];
        let parent = if tree_has(tree, p.parent_project_id) {
            p.parent_project_id
        } else {
            0
        };
        if parent == key {
            let ghost before_push = hung@;
            hung.push(p.duplicate());
            proof {
                assert(project_views(hung@) =~= project_views(before_push).push(tv[i as int]));
            }
        }
        i += 1;
    }
    proof {
        assert(tv.take(i as int) =~= tv);
    }
    let ghost hv = project_views(hung@);
    let mut kids: Vec<Project> = Vec::new();
    let mut n: usize = 0;
    while n < hung.len()
        invariant
            n <= hung@.len(),
            hv == project_views(hung@),
            project_views(kids@) == ordered(hv.take(n as int)),
        decreases hung.len() - n,
    {
        proof {
            assert(hv.take(n + 1).drop_last() =~= hv.take(n as int));
        }
        let x = &hung[n];
        let ghost kv = project_views(kids@);
        let mut j: usize = 0;
        while j < kids.len()
            invariant
                j <= kids@.len(),
                kv == project_views(kids@),
                x@ == hv[n as int],
                forall|m: int| 0 <= m < j ==> !drawn_before(x@)(#[trigger] kv[m]),
            ensures
                j <= kids@.len(),
                forall|m: int| 0 <= m < j ==> !drawn_before(x@)(#[trigger] kv[m]),
                j < kids@.len() ==> drawn_before(x@)(kv[j as int]),
            decreases kids.len() - j,
        {
            if drawn_first(x, &kids[j]) {
                break;
            }
            j += 1;
        }
        proof {
            lemma_first_where_is(kv, drawn_before(x@), j as int);
        }
        kids.insert(j, x.duplicate());
        proof {
            assert(project_views(kids@) =~= kv.insert(j as int, x@));
        }
        n += 1;
    }
    proof {
        assert(hv.take(n as int) =~= hv);
    }
    kids
}

/// Draw `p` and, unless it is collapsed, everything under it, after `out`.
fn visit_project(
    tree: &Vec<Project>,
    counts: &ProjectCounts,
    collapsed: &Vec<i64>,
    p: &Project,
    depth: u16,
    fuel: usize,
    seen: &mut Vec<i64>,
    out: &mut Vec<SidebarRow>,
)
    requires
        depth + fuel <= 65535,
    ensures
        row_views(final(out)@) == row_views(old(out)@) + visit(
            project_views(tree@),
            counts.by_project@,
            collapsed@,
            p@,
            depth as int,
            old(seen)@,
            fuel as nat,
        ).0,
        final(seen)@ == visit(
            project_views(tree@),
            counts.by_project@,
            collapsed@,
            p@,
            depth as int,
            old(seen)@,
            fuel as nat,
        ).1,
    decreases fuel,
{
    let ghost tv = project_views(tree@);
    let ghost cv = counts.by_project@;
    if holds_id(seen, p.id) {
        proof {
            assert(row_views(out@) =~= row_views(old(out)@) + Seq::<RowView>::empty());
        }
        return;
    }
    let ghost seen1 = seen@.push(p.id);
    seen.push(p.id);
    let kids = children(tree, p.id);
    let folded = holds_id(collapsed, p.id);
    let count = counts.for_project(p.id);
    let ghost out0 = out@;
    out.push(
        SidebarRow::Target {
            target: SidebarTarget::Project(p.id),
            title: p.title.clone(),
            open: count.open,
            depth,
            has_children: kids.len() > 0,
            collapsed: folded,
        },
    );
    let ghost row = out@.last()@;
    proof {
        assert(row_views(out@) =~= row_views(out0) + seq![row]);
    }
    if folded || fuel == 0 {
        return;
    }
    let ghost kv = project_views(kids@);
    let ghost rows0 = row_views(out@);
    let mut k: usize = 0;
    while k < kids.len()
        invariant
            k <= kids@.len(),
            depth + fuel <= 65535,
            fuel > 0,
            kv == project_views(kids@),
            tv == project_views(tree@),
            cv == counts.by_project@,
            row_views(out@) == rows0 + visit_all(
                tv,
                cv,
                collapsed@,
                kv.take(k as int),
                depth + 1,
                seen1,
                (fuel - 1) as nat,
            ).0,
            seen@ == visit_all(
                tv,
                cv,
                collapsed@,
                kv.take(k as int),
                depth + 1,
                seen1,
                (fuel - 1) as nat,
            ).1,
        decreases kids.len() - k,
    {
        proof {
            assert(kv.take(k + 1).drop_last() =~= kv.take(k as int));
        }
        let ghost before_out = row_views(out@);
        visit_project(tree, counts, collapsed, &kids[k], depth + 1, fuel - 1, seen, out);
        proof {
            assert(row_views(out@) =~= rows0 + visit_all(
                tv,
                cv,
                collapsed@,
                kv.take(k + 1),
                depth + 1,
                seen1,
                (fuel - 1) as nat,
            ).0);
        }
        k += 1;
    }
    proof {
        assert(kv.take(k as int) =~= kv);
        assert(row_views(out@) =~= row_views(old(out)@) + visit(
            tv,
            cv,
            collapsed@,
            p@,
            depth as int,
            old(seen)@,
            fuel as nat,
        ).0);
    }
}

/// Whether `rows` can draw these projects and counts: open counts and the favourites'
/// total that fit in an `i64` as they are added up.
pub open spec fn drawable(projects: Seq<Project>, counts: ProjectCounts) -> bool {
    &&& forall|k: int|
        0 <= k <= counts.by_project@.len() ==> i64::MIN <= #[trigger] total_open(
            counts.by_project@.take(k),
        ) <= i64::MAX
    &&& i64::MIN <= counts.favorites.open + counts.favorites.done <= i64::MAX
}

/// Whether `rows` can draw these projects and counts.
pub fn can_draw(projects: &Vec<Project>, counts: &ProjectCounts) -> (r: bool)
    ensures
        r == drawable(projects@, *counts),
{
    let ghost cv = counts.by_project@;
    let mut open: i128 = 0;
    let mut i: usize = 0;
    proof {
        assert(cv.take(0) =~= Seq::<(i64, TaskCount)>::empty());
    }
    while i < counts.by_project.len()
        invariant
            i <= cv.len(),
            cv == counts.by_project@,
            open == total_open(cv.take(i as int)),
            forall|k: int|
                0 <= k <= i ==> i64::MIN <= #[trigger] total_open(cv.take(k)) <= i64::MAX,
        decreases counts.by_project.len() - i,
    {
        proof {
            assert(cv.take(i + 1).drop_last() =~= cv.take(i as int));
        }
        open = open + counts.by_project[i].1.open as i128;
        i += 1;
        assert(open == total_open(cv.take(i as int)));
        if open < i64::MIN as i128 || open > i64::MAX as i128 {
            proof {
                assert(!(i64::MIN <= total_open(counts.by_project@.take(i as int)) <= i64::MAX));
            }
            return false;
        }
    }
    let total: i128 = counts.favorites.open as i128 + counts.favorites.done as i128;
    total >= i64::MIN as i128 && total <= i64::MAX as i128
}

/// Build the rows to draw.
///
/// Pseudo-projects are excluded: Favourites has its own row, and the others are saved
/// filters. Archived projects are hidden, matching the web UI, which is also why a project
/// count here can differ from the server's.
pub fn rows(projects: &Vec<Project>, counts: &ProjectCounts, state: &SidebarState) -> (r: Vec<
    SidebarRow,
>)
    requires
        drawable(projects@, *counts),
    ensures
        row_views(r@) == sidebar_rows(project_views(projects@), *counts, state.collapsed@),
{
    let ghost cv = counts.by_project@;
    let mut open: i64 = 0;
    let mut i: usize = 0;
    while i < counts.by_project.len()
        invariant
            i <= cv.len(),
            cv == counts.by_project@,
            open == total_open(cv.take(i as int)),
            forall|k: int|
                0 <= k <= cv.len() ==> i64::MIN <= #[trigger] total_open(cv.take(k))
                    <= i64::MAX,
        decreases counts.by_project.len() - i,
    {
        proof {
            assert(cv.take(i + 1).drop_last() =~= cv.take(i as int));
            assert(i64::MIN <= total_open(cv.take(i + 1)) <= i64::MAX);
        }
        open = open + counts.by_project[i].1.open;
        i += 1;
    }
    proof {
        assert(cv.take(i as int) =~= cv);
    }
    let mut out: Vec<SidebarRow> = Vec::new();
    out.push(
        SidebarRow::Target {
            target: SidebarTarget::AllTasks,
            title: String::from_str("All tasks"),
            open,
            depth: 0,
            has_children: false,
            collapsed: false,
        },
    );
    if counts.favorites.total() > 0 {
        out.push(
            SidebarRow::Target {
                target: SidebarTarget::Favorites,
                title: String::from_str("Favorites"),
                open: counts.favorites.open,
                depth: 0,
                has_children: false,
                collapsed: false,
            },
        );
    }
    let ghost fixed = row_views(out@);
    proof {
        let all = RowView::Target {
            target: SidebarTarget::AllTasks,
            title: "All tasks"@,
            open: total_open(cv),
            depth: 0,
            has_children: false,
            collapsed: false,
        };
        if counts.favorites.open + counts.favorites.done > 0 {
            assert(fixed =~= seq![all, RowView::Target {
                target: SidebarTarget::Favorites,
                title: "Favorites"@,
                open: counts.favorites.open as int,
                depth: 0,
                has_children: false,
                collapsed: false,
            }]);
        } else {
            assert(fixed =~= seq![all]);
        }
    }
    let tree = tree_of(projects);
    if tree.len() == 0 {
        return out;
    }
    out.push(SidebarRow::Heading("Projects"));
    let ghost tv = project_views(tree@);
    let ghost headed = row_views(out@);
    proof {
        assert(headed =~= fixed.push(RowView::Heading("Projects"@)));
        lemma_tree_len(project_views(projects@));
    }
    let roots = children(&tree, 0);
    let ghost rv = project_views(roots@);
    let fuel: usize = if tree.len() <= 65535 {
        tree.len()
    } else {
        65535
    };
    let mut seen: Vec<i64> = Vec::new();
    let mut k: usize = 0;
    while k < roots.len()
        invariant
            k <= roots@.len(),
            fuel == depth_room(tree@.len()),
            fuel <= 65535,
            rv == project_views(roots@),
            tv == project_views(tree@),
            row_views(out@) == headed + visit_all(
                tv,
                counts.by_project@,
                state.collapsed@,
                rv.take(k as int),
                0,
                Seq::empty(),
                fuel as nat,
            ).0,
            seen@ == visit_all(
                tv,
                counts.by_project@,
                state.collapsed@,
                rv.take(k as int),
                0,
                Seq::empty(),
                fuel as nat,
            ).1,
        decreases roots.len() - k,
    {
        proof {
            assert(rv.take(k + 1).drop_last() =~= rv.take(k as int));
        }
        visit_project(&tree, counts, &state.collapsed, &roots[k], 0, fuel, &mut seen, &mut out);
        proof {
            assert(row_views(out@) =~= headed + visit_all(
                tv,
                counts.by_project@,
                state.collapsed@,
                rv.take(k + 1),
                0,
                Seq::empty(),
                fuel as nat,
            ).0);
        }
        k += 1;
    }
    proof {
        assert(rv.take(k as int) =~= rv);
    }
    out
}

/// The tree is no longer than the projects it is drawn from.
proof fn lemma_tree_len(ps: Seq<ProjectView>)
    ensures
        tree_projects(ps).len() <= ps.len(),
    decreases ps.len(),
{
    if ps.len() > 0 {
        lemma_tree_len(ps.drop_last());
    }
}

/// The targets of some rows, in order, headings left out.
pub open spec fn targets_of(rows: Seq<RowView>) -> Seq<SidebarTarget>
    decreases rows.len(),
{
    if rows.len() == 0 {
        Seq::empty()
    } else {
        match target_of(rows.last()) {
            Some(t) => targets_of(rows.drop_last()).push(t),
            None => targets_of(rows.drop_last()),
        }
    }
}

/// The selectable targets, in display order.
pub fn targets(rows: &Vec<SidebarRow>) -> (ts: Vec<SidebarTarget>)
    ensures
        ts@ == targets_of(row_views(rows@)),
{
    let ghost rv = row_views(rows@);
    let mut ts: Vec<SidebarTarget> = Vec::new();
    let mut i: usize = 0;
    while i < rows.len()
        invariant
            i <= rows@.len(),
            rv == row_views(rows@),
            ts@ == targets_of(rv.take(i as int)),
        decreases rows.len() - i,
    {
        proof {
            assert(rv.take(i + 1).drop_last() =~= rv.take(i as int));
        }
        if let Some(t) = rows[i].target() {
            ts.push(t);
        }
        i += 1;
    }
    proof {
        assert(rv.take(i as int) =~= rv);
    }
    ts
}

/// Whether a project has the id `id`.
pub open spec fn with_project_id(id: i64) -> spec_fn(ProjectView) -> bool {
    |p: ProjectView| p.id == id
}

/// The parent of project `id`: the parent id of the first project with that id, when some
/// project, archived or not, has the parent's id.
pub open spec fn parent_in(ps: Seq<ProjectView>, id: i64) -> Option<i64> {
    let k = first_where(ps, with_project_id(id));
    if k < ps.len() && has_id(ps, ps[k].parent_project_id) {
        Some(ps[k].parent_project_id)
    } else {
        None
    }
}

/// The parent of a project, when the list holds one.
pub fn parent_of(projects: &Vec<Project>, id: i64) -> (r: Option<i64>)
    ensures
        r == parent_in(project_views(projects@), id),
{
    let ghost pv = project_views(projects@);
    let mut k: usize = 0;
    while k < projects.len()
        invariant
            k <= projects@.len(),
            pv == project_views(projects@),
            forall|j: int| 0 <= j < k ==> !with_project_id(id)(#[trigger] pv[j]),
        ensures
            k <= projects@.len(),
            forall|j: int| 0 <= j < k ==> !with_project_id(id)(#[trigger] pv[j]),
            k < projects@.len() ==> with_project_id(id)(pv[k as int]),
        decreases projects.len() - k,
    {
        if projects[k].id == id {
            break;
        }
        k += 1;
    }
    proof {
        lemma_first_where_is(pv, with_project_id(id), k as int);
    }
    if k == projects.len() {
        return None;
    }
    let parent = projects[k].parent_project_id;
    if tree_has(projects, parent) {
        Some(parent)
    } else {
        None
    }
}

/// The ids of the projects some rows select, in order.
pub open spec fn row_ids(rows: Seq<RowView>) -> Seq<i64>
    decreases rows.len(),
{
    if rows.len() == 0 {
        Seq::empty()
    } else {
        match target_of(rows.last()) {
            Some(SidebarTarget::Project(id)) => row_ids(rows.drop_last()).push(id),
            _ => row_ids(rows.drop_last()),
        }
    }
}

proof fn lemma_row_ids_concat(a: Seq<RowView>, b: Seq<RowView>)
    ensures
        row_ids(a + b) == row_ids(a) + row_ids(b),
    decreases b.len(),
{
    if b.len() == 0 {
        assert(a + b =~= a);
        assert(row_ids(a) + row_ids(b) =~= row_ids(a));
    } else {
        lemma_row_ids_concat(a, b.drop_last());
        assert((a + b).drop_last() =~= a + b.drop_last());
        assert((a + b).last() == b.last());
        match target_of(b.last()) {
            Some(SidebarTarget::Project(id)) => {
                assert(row_ids(a) + row_ids(b) =~= (row_ids(a) + row_ids(b.drop_last())).push(id));
            },
            _ => {},
        }
    }
}

/// Every project in the tree is one of `ps` and belongs in the tree.
proof fn lemma_tree_members(ps: Seq<ProjectView>)
    ensures
        forall|i: int|
            0 <= i < tree_projects(ps).len() ==> in_tree(#[trigger] tree_projects(ps)[i])
                && ps.contains(tree_projects(ps)[i]),
    decreases ps.len(),
{
    if ps.len() > 0 {
        lemma_tree_members(ps.drop_last());
        let t = tree_projects(ps.drop_last());
        assert forall|i: int| 0 <= i < tree_projects(ps).len() implies in_tree(
            #[trigger] tree_projects(ps)[i],
        ) && ps.contains(tree_projects(ps)[i]) by {
            if i < t.len() {
                assert(tree_projects(ps)[i] == t[i]);
                assert(ps.drop_last().contains(t[i]));
                let k = choose|k: int| 0 <= k < ps.drop_last().len() && ps.drop_last()[k] == t[i];
                assert(ps[k] == t[i]);
            } else {
                assert(ps[ps.len() - 1] == ps.last());
            }
        }
    }
}

/// Those hanging under a key are among those looked at.
proof fn lemma_hanging_members(tree: Seq<ProjectView>, key: i64, ps: Seq<ProjectView>)
    ensures
        forall|i: int|
            0 <= i < hanging(tree, key, ps).len() ==> ps.contains(#[trigger] hanging(tree, key, ps)[i]),
    decreases ps.len(),
{
    if ps.len() > 0 {
        lemma_hanging_members(tree, key, ps.drop_last());
        let h = hanging(tree, key, ps.drop_last());
        assert forall|i: int| 0 <= i < hanging(tree, key, ps).len() implies ps.contains(
            #[trigger] hanging(tree, key, ps)[i],
        ) by {
            if i < h.len() {
                assert(hanging(tree, key, ps)[i] == h[i]);
                assert(ps.drop_last().contains(h[i]));
                let k = choose|k: int| 0 <= k < ps.drop_last().len() && ps.drop_last()[k] == h[i];
                assert(ps[k] == h[i]);
            } else {
                assert(ps[ps.len() - 1] == ps.last());
            }
        }
    }
}

/// Ordering keeps the members.
proof fn lemma_ordered_members(s: Seq<ProjectView>)
    ensures
        ordered(s).len() == s.len(),
        forall|i: int| 0 <= i < ordered(s).len() ==> s.contains(#[trigger] ordered(s)[i]),
    decreases s.len(),
{
    if s.len() > 0 {
        lemma_ordered_members(s.drop_last());
        let t = ordered(s.drop_last());
        let x = s.last();
        lemma_first_where(t, drawn_before(x));
        let j = first_where(t, drawn_before(x));
        assert forall|i: int| 0 <= i < ordered(s).len() implies s.contains(#[trigger] ordered(s)[i]) by {
            let o = ordered(s);
            assert(o == t.insert(j, x));
            if i < j {
                assert(o[i] == t[i]);
            } else if i == j {
                assert(o[i] == x);
                assert(s[s.len() - 1] == x);
            } else {
                assert(o[i] == t[i - 1]);
            }
            if o[i] != x {
                let m = if i < j { i } else { i - 1 };
                assert(s.drop_last().contains(t[m]));
                let k = choose|k: int| 0 <= k < s.drop_last().len() && s.drop_last()[k] == t[m];
                assert(s[k] == t[m]);
            } else {
                assert(s[s.len() - 1] == x);
            }
        }
    }
}

/// The children of a key are projects of the tree.
proof fn lemma_kids_members(tree: Seq<ProjectView>, key: i64)
    ensures
        forall|i: int| 0 <= i < kids_of(tree, key).len() ==> tree.contains(#[trigger] kids_of(tree, key)[i]),
{
    let h = hanging(tree, key, tree);
    lemma_hanging_members(tree, key, tree);
    lemma_ordered_members(h);
    assert forall|i: int| 0 <= i < kids_of(tree, key).len() implies tree.contains(
        #[trigger] kids_of(tree, key)[i],
    ) by {
        assert(h.contains(ordered(h)[i]));
        let k = choose|k: int| 0 <= k < h.len() && h[k] == ordered(h)[i];
        assert(tree.contains(h[k]));
    }
}

/// What drawing from a project adds: rows that each select a project of the tree, never
/// one already drawn and never one twice, with the drawn ids appended to `seen`.
proof fn lemma_visit(
    tree: Seq<ProjectView>,
    counts: Seq<(i64, TaskCount)>,
    collapsed: Seq<i64>,
    p: ProjectView,
    depth: int,
    seen: Seq<i64>,
    fuel: nat,
)
    requires
        tree.contains(p),
    ensures
        ({
            let r = visit(tree, counts, collapsed, p, depth, seen, fuel);
            &&& r.1 == seen + row_ids(r.0)
            &&& row_ids(r.0).no_duplicates()
            &&& forall|i: int| 0 <= i < row_ids(r.0).len() ==> !seen.contains(#[trigger] row_ids(r.0)[i])
            &&& forall|i: int|
                0 <= i < row_ids(r.0).len() ==> exists|k: int|
                    0 <= k < tree.len() && (#[trigger] tree[k]).id == #[trigger] row_ids(r.0)[i]
        }),
    decreases fuel, 0nat,
{
    let r = visit(tree, counts, collapsed, p, depth, seen, fuel);
    if seen.contains(p.id) {
        assert(row_ids(r.0) =~= Seq::<i64>::empty());
        assert(seen + row_ids(r.0) =~= seen);
    } else {
        let kids = kids_of(tree, p.id);
        let folded = collapsed.contains(p.id);
        let row = RowView::Target {
            target: SidebarTarget::Project(p.id),
            title: p.title,
            open: count_of(counts, p.id).open as int,
            depth,
            has_children: kids.len() > 0,
            collapsed: folded,
        };
        let pk = choose|k: int| 0 <= k < tree.len() && tree[k] == p;
        assert(row_ids(seq![row]) =~= seq![p.id]) by {
            reveal_with_fuel(row_ids, 2);
            assert(seq![row].drop_last() =~= Seq::<RowView>::empty());
            assert(seq![row].last() == row);
            assert(target_of(row) == Some(SidebarTarget::Project(p.id)));
        }
        if folded || fuel == 0 {
            assert(r.0 == seq![row]);
            assert(seen + seq![p.id] =~= seen.push(p.id));
            assert(tree[pk].id == row_ids(r.0)[0]);
        } else {
            let seen1 = seen.push(p.id);
            lemma_kids_members(tree, p.id);
            lemma_visit_all(tree, counts, collapsed, kids, depth + 1, seen1, (fuel - 1) as nat);
            let below = visit_all(tree, counts, collapsed, kids, depth + 1, seen1, (fuel - 1) as nat);
            lemma_row_ids_concat(seq![row], below.0);
            let ids = row_ids(r.0);
            let bi = row_ids(below.0);
            assert(ids =~= seq![p.id] + bi);
            assert(r.1 == below.1);
            assert(below.1 =~= seen + ids);
            assert forall|i: int| 0 <= i < bi.len() implies !seen.contains(#[trigger] bi[i]) && bi[i]
                != p.id by {
                assert(!seen1.contains(bi[i]));
                if seen.contains(bi[i]) {
                    let k = choose|k: int| 0 <= k < seen.len() && seen[k] == bi[i];
                    assert(seen1[k] == bi[i]);
                }
                assert(seen1[seen.len() as int] == p.id);
            }
            assert forall|i: int, j: int| 0 <= i < j < ids.len() implies ids[i] != ids[j] by {
                if i == 0 {
                    assert(ids[j] == bi[j - 1]);
                } else {
                    assert(ids[i] == bi[i - 1]);
                    assert(ids[j] == bi[j - 1]);
                }
            }
            assert forall|i: int| 0 <= i < ids.len() implies !seen.contains(#[trigger] ids[i]) by {
                if i > 0 {
                    assert(ids[i] == bi[i - 1]);
                }
            }
            assert forall|i: int| 0 <= i < ids.len() implies exists|k: int|
                0 <= k < tree.len() && (#[trigger] tree[k]).id == #[trigger] ids[i] by {
                if i == 0 {
                    assert(tree[pk].id == ids[0]);
                } else {
                    assert(ids[i] == bi[i - 1]);
                }
            }
        }
    }
}

/// What drawing a list of siblings adds, as for one.
proof fn lemma_visit_all(
    tree: Seq<ProjectView>,
    counts: Seq<(i64, TaskCount)>,
    collapsed: Seq<i64>,
    ps: Seq<ProjectView>,
    depth: int,
    seen: Seq<i64>,
    fuel: nat,
)
    requires
        forall|i: int| 0 <= i < ps.len() ==> tree.contains(#[trigger] ps[i]),
    ensures
        ({
            let r = visit_all(tree, counts, collapsed, ps, depth, seen, fuel);
            &&& r.1 == seen + row_ids(r.0)
            &&& row_ids(r.0).no_duplicates()
            &&& forall|i: int| 0 <= i < row_ids(r.0).len() ==> !seen.contains(#[trigger] row_ids(r.0)[i])
            &&& forall|i: int|
                0 <= i < row_ids(r.0).len() ==> exists|k: int|
                    0 <= k < tree.len() && (#[trigger] tree[k]).id == #[trigger] row_ids(r.0)[i]
        }),
    decreases fuel, ps.len(),
{
    let r = visit_all(tree, counts, collapsed, ps, depth, seen, fuel);
    if ps.len() == 0 {
        assert(row_ids(r.0) =~= Seq::<i64>::empty());
        assert(seen + row_ids(r.0) =~= seen);
    } else {
        lemma_visit_all(tree, counts, collapsed, ps.drop_last(), depth, seen, fuel);
        let front = visit_all(tree, counts, collapsed, ps.drop_last(), depth, seen, fuel);
        assert(tree.contains(ps[ps.len() - 1]));
        lemma_visit(tree, counts, collapsed, ps.last(), depth, front.1, fuel);
        let last = visit(tree, counts, collapsed, ps.last(), depth, front.1, fuel);
        lemma_row_ids_concat(front.0, last.0);
        let fi = row_ids(front.0);
        let li = row_ids(last.0);
        let ids = row_ids(r.0);
        assert(ids =~= fi + li);
        assert(r.1 =~= seen + ids);
        assert forall|i: int| 0 <= i < li.len() implies !seen.contains(#[trigger] li[i]) && !fi.contains(
            li[i],
        ) by {
            assert(!front.1.contains(li[i]));
            if seen.contains(li[i]) {
                let k = choose|k: int| 0 <= k < seen.len() && seen[k] == li[i];
                assert(front.1[k] == li[i]);
            }
            if fi.contains(li[i]) {
                let k = choose|k: int| 0 <= k < fi.len() && fi[k] == li[i];
                assert(front.1[seen.len() + k] == li[i]);
            }
        }
        assert forall|i: int, j: int| 0 <= i < j < ids.len() implies ids[i] != ids[j] by {
            if j < fi.len() {
                assert(ids[i] == fi[i]);
                assert(ids[j] == fi[j]);
            } else if i >= fi.len() {
                assert(ids[i] == li[i - fi.len()]);
                assert(ids[j] == li[j - fi.len()]);
            } else {
                assert(ids[i] == fi[i]);
                assert(ids[j] == li[j - fi.len()]);
                assert(fi.contains(fi[i]));
            }
        }
        assert forall|i: int| 0 <= i < ids.len() implies !seen.contains(#[trigger] ids[i]) by {
            if i < fi.len() {
                assert(ids[i] == fi[i]);
            } else {
                assert(ids[i] == li[i - fi.len()]);
            }
        }
        assert forall|i: int| 0 <= i < ids.len() implies exists|k: int|
            0 <= k < tree.len() && (#[trigger] tree[k]).id == #[trigger] ids[i] by {
            if i < fi.len() {
                assert(ids[i] == fi[i]);
            } else {
                assert(ids[i] == li[i - fi.len()]);
            }
        }
    }
}

/// The sidebar draws each project at most once, and only real, unarchived projects: a
/// pseudo-project or an archived one never has a row, and a parent cycle or a repeated id
/// cannot draw a project twice.
pub proof fn law_each_project_is_drawn_once_and_only_if_it_belongs(
    projects: Seq<ProjectView>,
    counts: ProjectCounts,
    collapsed: Seq<i64>,
)
    ensures
        row_ids(sidebar_rows(projects, counts, collapsed)).no_duplicates(),
        forall|i: int|
            0 <= i < row_ids(sidebar_rows(projects, counts, collapsed)).len() ==> exists|k: int|
                0 <= k < projects.len() && (#[trigger] projects[k]).id == #[trigger] row_ids(
                    sidebar_rows(projects, counts, collapsed),
                )[i] && in_tree(projects[k]),
{
    let rows = sidebar_rows(projects, counts, collapsed);
    let tree = tree_projects(projects);
    lemma_tree_members(projects);
    let all = RowView::Target {
        target: SidebarTarget::AllTasks,
        title: "All tasks"@,
        open: total_open(counts.by_project@),
        depth: 0,
        has_children: false,
        collapsed: false,
    };
    let favorites = RowView::Target {
        target: SidebarTarget::Favorites,
        title: "Favorites"@,
        open: counts.favorites.open as int,
        depth: 0,
        has_children: false,
        collapsed: false,
    };
    let fixed = if counts.favorites.open + counts.favorites.done > 0 {
        seq![all, favorites]
    } else {
        seq![all]
    };
    assert(row_ids(fixed) =~= Seq::<i64>::empty()) by {
        reveal_with_fuel(row_ids, 3);
        if fixed.len() == 2 {
            assert(fixed.drop_last() =~= seq![all]);
        }
        assert(seq![all].drop_last() =~= Seq::<RowView>::empty());
    }
    if tree.len() > 0 {
        let head = fixed.push(RowView::Heading("Projects"@));
        assert(head.drop_last() =~= fixed);
        assert(row_ids(head) =~= Seq::<i64>::empty());
        lemma_kids_members(tree, 0);
        lemma_visit_all(
            tree,
            counts.by_project@,
            collapsed,
            kids_of(tree, 0),
            0,
            Seq::empty(),
            depth_room(tree.len()),
        );
        let below = visit_all(
            tree,
            counts.by_project@,
            collapsed,
            kids_of(tree, 0),
            0,
            Seq::empty(),
            depth_room(tree.len()),
        );
        lemma_row_ids_concat(head, below.0);
        assert(row_ids(rows) =~= row_ids(below.0));
        assert forall|i: int| 0 <= i < row_ids(rows).len() implies exists|k: int|
            0 <= k < projects.len() && (#[trigger] projects[k]).id == #[trigger] row_ids(rows)[i]
                && in_tree(projects[k]) by {
            let t = choose|t: int| 0 <= t < tree.len() && (#[trigger] tree[t]).id == row_ids(below.0)[i];
            assert(in_tree(tree[t]) && projects.contains(tree[t]));
            let k = choose|k: int| 0 <= k < projects.len() && projects[k] == tree[t];
            assert(projects[k].id == row_ids(rows)[i]);
        }
    }
}

/// The ids of the projects in the tree.
pub open spec fn tree_ids(tree: Seq<ProjectView>) -> Set<i64> {
    tree.map_values(|p: ProjectView| p.id).to_set()
}

/// The ids of the tree not yet drawn.
pub open spec fn undrawn(tree: Seq<ProjectView>, seen: Seq<i64>) -> Set<i64> {
    tree_ids(tree).difference(seen.to_set())
}

proof fn lemma_undrawn_finite(tree: Seq<ProjectView>, seen: Seq<i64>)
    ensures
        undrawn(tree, seen).finite(),
        undrawn(tree, seen).len() <= tree.len(),
{
    let m = tree.map_values(|p: ProjectView| p.id);
    vstd::seq_lib::seq_to_set_is_finite(m);
    m.lemma_cardinality_of_set();
    vstd::set_lib::lemma_len_subset(undrawn(tree, seen), tree_ids(tree));
}

/// Drawing a project of the tree not yet drawn leaves one fewer to draw.
proof fn lemma_undrawn_push(tree: Seq<ProjectView>, seen: Seq<i64>, p: ProjectView)
    requires
        tree.contains(p),
        !seen.contains(p.id),
    ensures
        undrawn(tree, seen).contains(p.id),
        undrawn(tree, seen.push(p.id)) == undrawn(tree, seen).remove(p.id),
        undrawn(tree, seen.push(p.id)).len() + 1 == undrawn(tree, seen).len(),
{
    let m = tree.map_values(|p: ProjectView| p.id);
    let k = choose|k: int| 0 <= k < tree.len() && tree[k] == p;
    assert(m[k] == p.id);
    assert(m.contains(p.id));
    assert(undrawn(tree, seen).contains(p.id));
    assert(seen.push(p.id).to_set() =~= seen.to_set().insert(p.id)) by {
        seen.lemma_push_to_set_commute(p.id);
    }
    assert(undrawn(tree, seen.push(p.id)) =~= undrawn(tree, seen).remove(p.id));
    lemma_undrawn_finite(tree, seen);
}

/// Drawing more never leaves more to draw.
proof fn lemma_undrawn_shrinks(tree: Seq<ProjectView>, seen: Seq<i64>, more: Seq<i64>)
    ensures
        undrawn(tree, seen + more).len() <= undrawn(tree, seen).len(),
{
    lemma_undrawn_finite(tree, seen);
    assert forall|x: i64| undrawn(tree, seen + more).contains(x) implies undrawn(tree, seen).contains(
        x,
    ) by {
        if seen.contains(x) {
            let k = choose|k: int| 0 <= k < seen.len() && seen[k] == x;
            assert((seen + more)[k] == x);
        }
    }
    vstd::set_lib::lemma_len_subset(undrawn(tree, seen + more), undrawn(tree, seen));
}

/// Any depth bound at least the number of projects left to draw draws the same rows.
proof fn lemma_visit_fuel(
    tree: Seq<ProjectView>,
    counts: Seq<(i64, TaskCount)>,
    collapsed: Seq<i64>,
    p: ProjectView,
    depth: int,
    seen: Seq<i64>,
    f1: nat,
    f2: nat,
)
    requires
        tree.contains(p),
        f1 >= undrawn(tree, seen).len(),
        f2 >= undrawn(tree, seen).len(),
    ensures
        visit(tree, counts, collapsed, p, depth, seen, f1) == visit(
            tree,
            counts,
            collapsed,
            p,
            depth,
            seen,
            f2,
        ),
    decreases f1, 0nat,
{
    if !seen.contains(p.id) {
        lemma_undrawn_push(tree, seen, p);
        let kids = kids_of(tree, p.id);
        lemma_kids_members(tree, p.id);
        if !collapsed.contains(p.id) {
            lemma_visit_all_fuel(
                tree,
                counts,
                collapsed,
                kids,
                depth + 1,
                seen.push(p.id),
                (f1 - 1) as nat,
                (f2 - 1) as nat,
            );
        }
    }
}

/// As for one project, for a list of siblings.
proof fn lemma_visit_all_fuel(
    tree: Seq<ProjectView>,
    counts: Seq<(i64, TaskCount)>,
    collapsed: Seq<i64>,
    ps: Seq<ProjectView>,
    depth: int,
    seen: Seq<i64>,
    f1: nat,
    f2: nat,
)
    requires
        forall|i: int| 0 <= i < ps.len() ==> tree.contains(#[trigger] ps[i]),
        f1 >= undrawn(tree, seen).len(),
        f2 >= undrawn(tree, seen).len(),
    ensures
        visit_all(tree, counts, collapsed, ps, depth, seen, f1) == visit_all(
            tree,
            counts,
            collapsed,
            ps,
            depth,
            seen,
            f2,
        ),
    decreases f1, ps.len(),
{
    if ps.len() > 0 {
        lemma_visit_all_fuel(tree, counts, collapsed, ps.drop_last(), depth, seen, f1, f2);
        lemma_visit_all(tree, counts, collapsed, ps.drop_last(), depth, seen, f1);
        let front = visit_all(tree, counts, collapsed, ps.drop_last(), depth, seen, f1);
        lemma_undrawn_shrinks(tree, seen, row_ids(front.0));
        assert(tree.contains(ps[ps.len() - 1]));
        lemma_visit_fuel(tree, counts, collapsed, ps.last(), depth, front.1, f1, f2);
    }
}

/// A depth bound of the tree's size never cuts a branch short: any larger bound draws the
/// very same rows. The sidebar draws to that bound whenever the tree holds no more than
/// 65,535 projects, so its rows are then those of the whole tree.
pub proof fn law_the_depth_bound_never_cuts_the_tree(
    projects: Seq<ProjectView>,
    counts: ProjectCounts,
    collapsed: Seq<i64>,
    fuel: nat,
)
    requires
        fuel >= tree_projects(projects).len(),
    ensures
        visit_all(
            tree_projects(projects),
            counts.by_project@,
            collapsed,
            kids_of(tree_projects(projects), 0),
            0,
            Seq::empty(),
            fuel,
        ) == visit_all(
            tree_projects(projects),
            counts.by_project@,
            collapsed,
            kids_of(tree_projects(projects), 0),
            0,
            Seq::empty(),
            tree_projects(projects).len(),
        ),
        tree_projects(projects).len() <= 65535 ==> depth_room(tree_projects(projects).len())
            == tree_projects(projects).len(),
{
    let tree = tree_projects(projects);
    lemma_undrawn_finite(tree, Seq::empty());
    lemma_kids_members(tree, 0);
    lemma_visit_all_fuel(
        tree,
        counts.by_project@,
        collapsed,
        kids_of(tree, 0),
        0,
        Seq::empty(),
        fuel,
        tree.len(),
    );
}

} // verus!
