//! Tasks laid out into the cells of the task list, and the row heights the scrolling reads.
//!
//! The same `cell` code serves the renderer and the scroll maths, so a page motion and the
//! rows drawn cannot disagree about how tall a row is.
use crate::columns::Column;
use crate::dates::{on_calendar, relative_date, relative_text, valid_offset};
use crate::label_forms::{first_where, label_views, lemma_first_where_is, texts};
use crate::models::{project_views, Label, LabelView, Project, ProjectView, Task, TaskView};
use crate::rows::{
    first_visible_heights, fit_heights, fits, height_of, row_height_of, row_heights, shows,
    truncate, truncated, wrap, wrapped, MeasuredColumn, MAX_ROW_LINES,
};
use crate::sidebar::with_project_id;
use crate::text::{chars_of, display_width, push_all, signed_decimal, signed_decimal_of, string_of, width_of};
use crate::theme::{
    done_style, due_style, label_style, muted_color, ok_color, plain_style, priority_style,
    ColorDepth, Style, Theme,
};
use vstd::prelude::*;

verus! {

/// A run of text drawn in one style.
#[derive(Debug, Clone, PartialEq, Eq)]
pub struct Span {
    /// What it says.
    pub text: String,
    /// How it is drawn.
    pub style: Style,
}

impl View for Span {
    type V = (Seq<char>, Style);

    open spec fn view(&self) -> (Seq<char>, Style) {
        (self.text@, self.style)
    }
}

/// The spans of a line, as values.
pub open spec fn line_views(line: Seq<Span>) -> Seq<(Seq<char>, Style)> {
    line.map_values(|s: Span| s@)
}

/// The lines of a cell, as values.
pub open spec fn cell_views(lines: Seq<Vec<Span>>) -> Seq<Seq<(Seq<char>, Style)>> {
    lines.map_values(|l: Vec<Span>| line_views(l@))
}

/// What a row reads besides its task: every project, for the project column; the colours;
/// and the time the runtime last reported, with the reader's offset from UTC in seconds.
#[derive(Clone, Copy)]
pub struct RowContext<'a> {
    /// Every project, for the project column.
    pub projects: &'a [Project],
    /// The colours.
    pub theme: Theme,
    /// Now, in seconds since the Unix epoch.
    pub now: i64,
    /// The reader's offset from UTC, in seconds east.
    pub offset: i32,
}

impl<'a> RowContext<'a> {
    /// Whether the clock is one the calendar reads.
    pub open spec fn readable(self) -> bool {
        on_calendar(self.now) && valid_offset(self.offset)
    }
}

/// Secondary text.
pub open spec fn muted_of(depth: ColorDepth) -> Style {
    Style { fg: Some(muted_color(depth)), ..plain_style() }
}

/// Something that worked.
pub open spec fn ok_of(depth: ColorDepth) -> Style {
    Style { fg: Some(ok_color(depth)), ..plain_style() }
}

/// Whether every date a task carries is one the calendar reads.
pub open spec fn dated_sanely(t: TaskView) -> bool {
    &&& (t.due_date matches Some(d) ==> on_calendar(d))
    &&& (t.start_date matches Some(d) ==> on_calendar(d))
    &&& (t.created matches Some(d) ==> on_calendar(d))
    &&& (t.updated matches Some(d) ==> on_calendar(d))
}

/// A label as a chip: its title with a space either side.
pub open spec fn chip(title: Seq<char>) -> Seq<char> {
    seq![' '] + title + seq![' ']
}

/// The label chips that fit in `width` cells after `used` are taken, each in its label's
/// colour. When the next chip does not fit whole, the line ends: with that chip cut short
/// when nothing has been drawn yet, so the reader sees which label there is; with a muted
/// ellipsis when some room is left; and with nothing more otherwise.
pub open spec fn chips(labels: Seq<LabelView>, width: int, used: int, any: bool, depth: ColorDepth) -> Seq<
    (Seq<char>, Style),
>
    decreases labels.len(),
{
    if labels.len() == 0 {
        Seq::empty()
    } else {
        let l = labels[0];
        let c = chip(l.title);
        let w = width_of(c) as int;
        if used + w > width {
            if !any {
                seq![(truncated(c, width as u16), label_style(depth, l.hex_color))]
            } else if used < width {
                seq![("…"@, muted_of(depth))]
            } else {
                Seq::empty()
            }
        } else {
            seq![(c, label_style(depth, l.hex_color))] + chips(
                labels.drop_first(),
                width,
                used + w,
                true,
                depth,
            )
        }
    }
}

/// Names joined by a comma and a space.
pub open spec fn joined(names: Seq<Seq<char>>) -> Seq<char>
    decreases names.len(),
{
    if names.len() == 0 {
        Seq::empty()
    } else if names.len() == 1 {
        names[0]
    } else {
        joined(names.drop_last()) + ", "@ + names.last()
    }
}

/// The title of the first project with id `id`, or nothing.
pub open spec fn project_title(projects: Seq<ProjectView>, id: i64) -> Seq<char> {
    let k = first_where(projects, with_project_id(id));
    if k < projects.len() {
        projects[k].title
    } else {
        Seq::empty()
    }
}

/// What a cell of `column` says about a task, and how it is drawn.
pub open spec fn cell_content(
    t: TaskView,
    column: Column,
    projects: Seq<ProjectView>,
    depth: ColorDepth,
    now: i64,
    offset: i32,
) -> (Seq<char>, Style) {
    match column {
        Column::Title => (
            t.title,
            if t.done {
                done_style(depth)
            } else {
                plain_style()
            },
        ),
        Column::Project => (project_title(projects, t.project_id), muted_of(depth)),
        Column::DueDate => (
            relative_text(t.due_date, now, offset),
            due_style(depth, t.due_date, t.done, now),
        ),
        Column::StartDate => (relative_text(t.start_date, now, offset), muted_of(depth)),
        Column::Priority => (
            if t.priority > 0 {
                seq!['P'] + signed_decimal(t.priority as int)
            } else {
                Seq::empty()
            },
            priority_style(depth, t.priority),
        ),
        Column::Status => (
            if t.done {
                "✓"@
            } else {
                Seq::empty()
            },
            ok_of(depth),
        ),
        Column::Assignees => (joined(t.assignees), muted_of(depth)),
        Column::Created => (relative_text(t.created, now, offset), muted_of(depth)),
        Column::Updated => (relative_text(t.updated, now, offset), muted_of(depth)),
        Column::Identifier => (t.identifier, muted_of(depth)),
        Column::PercentDone => (
            match t.percent_done {
                Some(p) => signed_decimal(p as int) + "%"@,
                None => Seq::empty(),
            },
            muted_of(depth),
        ),
        Column::Labels => (Seq::empty(), plain_style()),
    }
}

/// The lines of one cell: the label chips on one line for the labels column, and for any
/// other its text, wrapped to the width when the column wraps and cut to it otherwise,
/// each line drawn in the cell's style.
pub open spec fn cell_lines(
    t: TaskView,
    column: Column,
    width: u16,
    wraps: bool,
    projects: Seq<ProjectView>,
    depth: ColorDepth,
    now: i64,
    offset: i32,
) -> Seq<Seq<(Seq<char>, Style)>> {
    if column == Column::Labels {
        seq![chips(t.labels, width as int, 0, false, depth)]
    } else {
        let content = cell_content(t, column, projects, depth, now, offset);
        let lines = if wraps {
            wrapped(content.0, width, MAX_ROW_LINES)
        } else {
            seq![truncated(content.0, width)]
        };
        lines.map_values(|l: Seq<char>| seq![(l, content.1)])
    }
}

/// One label as a chip.
fn chip_of(title: &str) -> (s: String)
    ensures
        s@ == chip(title@),
{
    let mut out: Vec<char> = Vec::new();
    out.push(' ');
    let t = chars_of(title);
    push_all(&mut out, t.as_slice());
    out.push(' ');
    proof {
        assert(out@ =~= chip(title@));
    }
    string_of(out.as_slice())
}

/// The labels cell: as many chips as fit.
fn label_line(labels: &Vec<Label>, width: u16, theme: Theme) -> (line: Vec<Span>)
    ensures
        line_views(line@) == chips(label_views(labels@), width as int, 0, false, theme.depth()),
{
    let ghost lv = label_views(labels@);
    let ghost d = theme.depth();
    let ghost total = chips(lv, width as int, 0, false, d);
    let mut spans: Vec<Span> = Vec::new();
    let mut used: u32 = 0;
    let mut i: usize = 0;
    proof {
        assert(lv.skip(0) =~= lv);
        assert(line_views(spans@) =~= Seq::<(Seq<char>, Style)>::empty());
    }
    while i < labels.len()
        invariant
            i <= labels@.len(),
            lv == label_views(labels@),
            d == theme.depth(),
            total == chips(lv, width as int, 0, false, d),
            used <= width,
            line_views(spans@) + chips(lv.skip(i as int), width as int, used as int, i > 0, d)
                == total,
        decreases labels.len() - i,
    {
        let ghost rest = lv.skip(i as int);
        proof {
            assert(rest[0] == lv[i as int]);
            assert(rest.drop_first() =~= lv.skip(i + 1));
        }
        let l = &labels[i];
        let c = chip_of(l.title.as_str());
        let w = display_width(c.as_str());
        if used + (w as u32) > width as u32 {
            let ghost before = line_views(spans@);
            if i == 0 {
                let text = truncate(c.as_str(), width);
                spans.push(Span { text, style: theme.label(l.hex_color.as_str()) });
            } else if used < width as u32 {
                spans.push(Span { text: String::from_str("…"), style: theme.muted() });
            }
            proof {
                let tail = chips(rest, width as int, used as int, i > 0, d);
                assert(line_views(spans@) =~= before + tail);
                assert(before + tail == total);
            }
            return spans;
        }
        let ghost before = line_views(spans@);
        spans.push(Span { text: c, style: theme.label(l.hex_color.as_str()) });
        proof {
            let head = (chip(lv[i as int].title), label_style(d, lv[i as int].hex_color));
            assert(line_views(spans@) =~= before.push(head));
            assert(chips(rest, width as int, used as int, i > 0, d) == seq![head] + chips(
                lv.skip(i + 1),
                width as int,
                used + w,
                true,
                d,
            ));
            assert(line_views(spans@) + chips(lv.skip(i + 1), width as int, used + w, true, d)
                =~= before + chips(rest, width as int, used as int, i > 0, d));
        }
        used = used + w as u32;
        i += 1;
    }
    proof {
        assert(lv.skip(i as int) =~= Seq::<LabelView>::empty());
        assert(line_views(spans@) + Seq::<(Seq<char>, Style)>::empty() =~= line_views(spans@));
    }
    spans
}

/// Names joined by a comma and a space.
pub(crate) fn join_names(names: &Vec<String>) -> (s: String)
    ensures
        s@ == joined(texts(names@)),
{
    let ghost nv = texts(names@);
    let mut out: Vec<char> = Vec::new();
    let mut i: usize = 0;
    while i < names.len()
        invariant
            i <= names@.len(),
            nv == texts(names@),
            out@ == joined(nv.take(i as int)),
        decreases names.len() - i,
    {
        proof {
            assert(nv.take(i + 1).drop_last() =~= nv.take(i as int));
        }
        if i > 0 {
            let sep = chars_of(", ");
            push_all(&mut out, sep.as_slice());
        }
        let name = chars_of(names[i].as_str());
        push_all(&mut out, name.as_slice());
        proof {
            if i == 0 {
                assert(out@ =~= nv.take(1)[0]);
            }
        }
        i += 1;
    }
    proof {
        assert(nv.take(i as int) =~= nv);
    }
    string_of(out.as_slice())
}

/// The title of the first project with id `id`, or nothing.
fn title_of_project(projects: &[Project], id: i64) -> (s: String)
    ensures
        s@ == project_title(project_views(projects@), id),
{
    let ghost pv = project_views(projects@);
    let mut k: usize = 0;
    while k < projects.len()
        invariant
            k <= projects@.len(),
            pv == project_views(projects@),
            forall|j: int| 0 <= j < k ==> !with_project_id(id)(#[trigger] pv[j]),
        ensures
            k <= projects@.len(),
            forall|j: int| 0 <= j < k ==> !with_project_id(id)(#[trigger] pv[j]),
            k < projects@.len() ==> with_project_id(id)(pv[k as int]),
        decreases projects.len() - k,
    {
        if projects[k].id == id {
            break;
        }
        k += 1;
    }
    proof {
        lemma_first_where_is(pv, with_project_id(id), k as int);
    }
    if k < projects.len() {
        projects[k].title.clone()
    } else {
        String::new()
    }
}

/// What a cell of `column` says about a task, and its style.
fn content(task: &Task, column: Column, context: RowContext) -> (r: (String, Style))
    requires
        column != Column::Labels,
        dated_sanely(task@),
        context.readable(),
    ensures
        (r.0@, r.1) == cell_content(
            task@,
            column,
            project_views(context.projects@),
            context.theme.depth(),
            context.now,
            context.offset,
        ),
{
    let theme = context.theme;
    match column {
        Column::Title => (
            task.title.clone(),
            if task.done {
                theme.done()
            } else {
                theme.text()
            },
        ),
        Column::Project => (title_of_project(context.projects, task.project_id), theme.muted()),
        Column::DueDate => (
            relative_date(task.due_date, context.now, context.offset),
            theme.due(task.due_date, task.done, context.now),
        ),
        Column::StartDate => (
            relative_date(task.start_date, context.now, context.offset),
            theme.muted(),
        ),
        Column::Priority => {
            let text = if task.has_priority() {
                let mut out: Vec<char> = Vec::new();
                out.push('P');
                let digits = signed_decimal_of(task.priority);
                push_all(&mut out, digits.as_slice());
                string_of(out.as_slice())
            } else {
                String::new()
            };
            (text, theme.priority(task.priority))
        },
        Column::Status => (
            if task.done {
                String::from_str("✓")
            } else {
                String::new()
            },
            theme.ok(),
        ),
        Column::Assignees => (join_names(&task.assignees), theme.muted()),
        Column::Created => (relative_date(task.created, context.now, context.offset), theme.muted()),
        Column::Updated => (relative_date(task.updated, context.now, context.offset), theme.muted()),
        Column::Identifier => (task.identifier.clone(), theme.muted()),
        Column::PercentDone => {
            let text = match task.percent_done {
                Some(p) => {
                    let mut out = signed_decimal_of(p);
                    out.push('%');
                    proof {
                        assert(out@ =~= signed_decimal(p as int) + "%"@) by {
                            reveal_strlit("%");
                        }
                    }
                    string_of(out.as_slice())
                },
                None => String::new(),
            };
            (text, theme.muted())
        },
        Column::Labels => (String::new(), theme.text()),
    }
}

/// One cell, wrapped or truncated to its column's width.
pub fn cell(task: &Task, column: &MeasuredColumn, context: RowContext) -> (lines: Vec<Vec<Span>>)
    requires
        dated_sanely(task@),
        context.readable(),
    ensures
        cell_views(lines@) == cell_lines(
            task@,
            column.column,
            column.width,
            column.wrap,
            project_views(context.projects@),
            context.theme.depth(),
            context.now,
            context.offset,
        ),
{
    let width = column.width;
    if column.column == Column::Labels {
        let line = label_line(&task.labels, width, context.theme);
        let mut lines: Vec<Vec<Span>> = Vec::new();
        lines.push(line);
        proof {
            assert(cell_views(lines@) =~= seq![line_views(lines@[0]@)]);
        }
        return lines;
    }
    let (text, style) = content(task, column.column, context);
    let texts_out: Vec<String> = if column.wrap {
        wrap(text.as_str(), width, MAX_ROW_LINES)
    } else {
        let mut one: Vec<String> = Vec::new();
        one.push(truncate(text.as_str(), width));
        proof {
            assert(texts(one@) =~= seq![truncated(text@, width)]);
        }
        one
    };
    let ghost tv = texts(texts_out@);
    let mut lines: Vec<Vec<Span>> = Vec::new();
    let mut i: usize = 0;
    while i < texts_out.len()
        invariant
            i <= texts_out@.len(),
            tv == texts(texts_out@),
            lines@.len() == i,
            cell_views(lines@) == tv.take(i as int).map_values(|l: Seq<char>| seq![(l, style)]),
        decreases texts_out.len() - i,
    {
        let mut line: Vec<Span> = Vec::new();
        line.push(Span { text: texts_out[i].clone(), style });
        let ghost before = cell_views(lines@);
        lines.push(line);
        proof {
            assert(line_views(lines@[i as int]@) =~= seq![(tv[i as int], style)]);
            assert(cell_views(lines@) =~= before.push(seq![(tv[i as int], style)]));
            assert(tv.take(i + 1).map_values(|l: Seq<char>| seq![(l, style)]) =~= tv.take(
                i as int,
            ).map_values(|l: Seq<char>| seq![(l, style)]).push(seq![(tv[i as int], style)]));
        }
        i += 1;
    }
    proof {
        assert(tv.take(i as int) =~= tv);
    }
    lines
}

/// The lines of every cell of a task's row, column by column.
pub open spec fn row_cells<'a>(t: TaskView, columns: Seq<MeasuredColumn>, context: RowContext<'a>) -> Seq<
    Seq<Seq<(Seq<char>, Style)>>,
> {
    columns.map_values(
        |c: MeasuredColumn|
            cell_lines(
                t,
                c.column,
                c.width,
                c.wrap,
                project_views(context.projects@),
                context.theme.depth(),
                context.now,
                context.offset,
            ),
    )
}

/// How many lines each cell of a task's row takes.
pub open spec fn line_counts<'a>(t: TaskView, columns: Seq<MeasuredColumn>, context: RowContext<'a>) -> Seq<
    usize,
> {
    row_cells(t, columns, context).map_values(|c: Seq<Seq<(Seq<char>, Style)>>| c.len() as usize)
}

/// How tall a task's row is: its tallest cell, at least one line and at most
/// `MAX_ROW_LINES`.
pub open spec fn height_in<'a>(t: TaskView, columns: Seq<MeasuredColumn>, context: RowContext<'a>) -> u16 {
    row_height_of(line_counts(t, columns, context)) as u16
}

/// The height of every task's row, in order.
pub open spec fn heights_in<'a>(tasks: Seq<Task>, columns: Seq<MeasuredColumn>, context: RowContext<'a>) -> Seq<
    u16,
> {
    tasks.map_values(|t: Task| height_in(t@, columns, context))
}

/// The cells of a row, as values.
pub open spec fn row_views(cells: Seq<Vec<Vec<Span>>>) -> Seq<Seq<Seq<(Seq<char>, Style)>>> {
    cells.map_values(|c: Vec<Vec<Span>>| cell_views(c@))
}

/// Whether every task's dates are ones the calendar reads.
pub open spec fn all_dated_sanely(tasks: Seq<Task>) -> bool {
    forall|k: int| 0 <= k < tasks.len() ==> dated_sanely(#[trigger] tasks[k]@)
}

/// A row, ready to draw.
#[derive(Debug, Clone, PartialEq, Eq)]
pub struct RenderedRow {
    /// Which task it is, so the selection can be found without an index.
    pub task: i64,
    /// One entry per measured column, each already wrapped to its width.
    pub cells: Vec<Vec<Vec<Span>>>,
    /// How many terminal lines it occupies.
    pub height: u16,
}

/// The cells of one task's row, and its height.
fn lay_out(task: &Task, columns: &[MeasuredColumn], context: RowContext) -> (r: (
    Vec<Vec<Vec<Span>>>,
    u16,
))
    requires
        dated_sanely(task@),
        context.readable(),
    ensures
        row_views(r.0@) == row_cells(task@, columns@, context),
        r.1 == height_in(task@, columns@, context),
        1 <= r.1 <= MAX_ROW_LINES,
{
    let ghost want = row_cells(task@, columns@, context);
    let mut cells: Vec<Vec<Vec<Span>>> = Vec::new();
    let mut counts: Vec<usize> = Vec::new();
    let mut i: usize = 0;
    while i < columns.len()
        invariant
            i <= columns@.len(),
            dated_sanely(task@),
            context.readable(),
            want == row_cells(task@, columns@, context),
            cells@.len() == i,
            counts@.len() == i,
            row_views(cells@) == want.take(i as int),
            counts@ == want.take(i as int).map_values(
                |c: Seq<Seq<(Seq<char>, Style)>>| c.len() as usize,
            ),
        decreases columns.len() - i,
    {
        let lines = cell(task, &columns[i], context);
        let n = lines.len();
        let ghost before = row_views(cells@);
        let ghost counted = counts@;
        cells.push(lines);
        counts.push(n);
        proof {
            assert(row_views(cells@) =~= before.push(want[i as int]));
            assert(want.take(i + 1) =~= want.take(i as int).push(want[i as int]));
            assert(counts@ =~= counted.push(want[i as int].len() as usize));
            assert(want.take(i + 1).map_values(|c: Seq<Seq<(Seq<char>, Style)>>| c.len() as usize)
                =~= want.take(i as int).map_values(
                |c: Seq<Seq<(Seq<char>, Style)>>| c.len() as usize,
            ).push(want[i as int].len() as usize));
        }
        i += 1;
    }
    proof {
        assert(want.take(i as int) =~= want);
    }
    let h = height_of(counts.as_slice());
    (cells, h)
}

/// Lay out `tasks` into rows.
pub fn render(tasks: &[Task], columns: &[MeasuredColumn], context: RowContext) -> (rows: Vec<
    RenderedRow,
>)
    requires
        all_dated_sanely(tasks@),
        context.readable(),
    ensures
        rows@.len() == tasks@.len(),
        forall|k: int|
            0 <= k < tasks@.len() ==> {
                &&& (#[trigger] rows@[k]).task == tasks@[k].id
                &&& row_views(rows@[k].cells@) == row_cells(tasks@[k]@, columns@, context)
                &&& rows@[k].height == height_in(tasks@[k]@, columns@, context)
            },
{
    let mut rows: Vec<RenderedRow> = Vec::new();
    let mut i: usize = 0;
    while i < tasks.len()
        invariant
            i <= tasks@.len(),
            all_dated_sanely(tasks@),
            context.readable(),
            rows@.len() == i,
            forall|k: int|
                0 <= k < i ==> {
                    &&& (#[trigger] rows@[k]).task == tasks@[k].id
                    &&& row_views(rows@[k].cells@) == row_cells(tasks@[k]@, columns@, context)
                    &&& rows@[k].height == height_in(tasks@[k]@, columns@, context)
                },
        decreases tasks.len() - i,
    {
        assert(dated_sanely(tasks@[i as int]@));
        let (cells, height) = lay_out(&tasks[i], columns, context);
        rows.push(RenderedRow { task: tasks[i].id, cells, height });
        i += 1;
    }
    rows
}

/// How tall one task's row would be, without keeping the row.
///
/// The scroll maths needs heights and nothing else. Going through the same `cell` code
/// the renderer uses is the point: a second, cheaper estimate would let the list and the
/// selection disagree.
pub fn row_height(task: &Task, columns: &[MeasuredColumn], context: RowContext) -> (h: u16)
    requires
        dated_sanely(task@),
        context.readable(),
    ensures
        h == height_in(task@, columns@, context),
        1 <= h <= MAX_ROW_LINES,
{
    lay_out(task, columns, context).1
}

/// The height of every task's row.
fn heights_of(tasks: &[Task], columns: &[MeasuredColumn], context: RowContext) -> (hs: Vec<u16>)
    requires
        all_dated_sanely(tasks@),
        context.readable(),
    ensures
        hs@ == heights_in(tasks@, columns@, context),
        row_heights(hs@),
{
    let mut hs: Vec<u16> = Vec::new();
    let mut i: usize = 0;
    while i < tasks.len()
        invariant
            i <= tasks@.len(),
            all_dated_sanely(tasks@),
            context.readable(),
            hs@.len() == i,
            forall|k: int| 0 <= k < i ==> #[trigger] hs@[k] == height_in(tasks@[k]@, columns@, context),
            row_heights(hs@),
        decreases tasks.len() - i,
    {
        assert(dated_sanely(tasks@[i as int]@));
        let h = row_height(&tasks[i], columns, context);
        hs.push(h);
        i += 1;
    }
    assert(hs@ =~= heights_in(tasks@, columns@, context));
    hs
}

/// How many whole rows fit in `height` lines, starting at `first`.
///
/// What a page motion should move by. Never zero: a row taller than the screen still
/// counts as one, or paging would stop moving.
pub fn fit(tasks: &[Task], columns: &[MeasuredColumn], context: RowContext, first: usize, height: u16) -> (n:
    usize)
    requires
        all_dated_sanely(tasks@),
        context.readable(),
        height <= u16::MAX - MAX_ROW_LINES,
    ensures
        fits(heights_in(tasks@, columns@, context), first as int, height as int, n as int),
{
    let hs = heights_of(tasks, columns, context);
    fit_heights(hs.as_slice(), first, height)
}

/// The largest offset that still shows the row at `index` in full.
///
/// Walks back from the selected row, adding heights until one more would not fit.
pub fn first_visible(
    tasks: &[Task],
    columns: &[MeasuredColumn],
    context: RowContext,
    index: usize,
    height: u16,
) -> (f: usize)
    requires
        all_dated_sanely(tasks@),
        context.readable(),
        height <= u16::MAX - MAX_ROW_LINES,
    ensures
        shows(heights_in(tasks@, columns@, context), index as int, height as int, f as int),
{
    let hs = heights_of(tasks, columns, context);
    first_visible_heights(hs.as_slice(), index, height)
}

/// Whether an instant is one the calendar reads.
pub fn on_the_calendar(ts: i64) -> (r: bool)
    ensures
        r == on_calendar(ts),
{
    -8_334_601_228_800 <= ts && ts <= 8_210_266_790_399
}

/// Whether an optional instant is absent or one the calendar reads.
fn maybe_on_calendar(ts: Option<i64>) -> (r: bool)
    ensures
        r == (ts matches Some(d) ==> on_calendar(d)),
{
    match ts {
        Some(d) => on_the_calendar(d),
        None => true,
    }
}

/// Whether every date a task carries is one the calendar reads, as `cell` asks.
pub fn sanely_dated(task: &Task) -> (r: bool)
    ensures
        r == dated_sanely(task@),
{
    maybe_on_calendar(task.due_date) && maybe_on_calendar(task.start_date) && maybe_on_calendar(
        task.created,
    ) && maybe_on_calendar(task.updated)
}

/// Whether the clock a row context carries is one the calendar reads, as `cell` asks.
pub fn readable_context(context: RowContext) -> (r: bool)
    ensures
        r == context.readable(),
{
    on_the_calendar(context.now) && -86_400 < context.offset && context.offset < 86_400
}

} // verus!
