//! The task list's body: the rows on screen from where the list is scrolled, one line
//! under another, the selected task's lines marked, cut to the lines there are.
use crate::drawing::{lines_of, measurable_cells, row_line, row_lines, row_measurable};
use crate::grid::{
    all_dated_sanely, height_in, line_views, muted_of, render, row_cells, row_views, RowContext, Span,
};
use crate::model::{Focus, Model};
use crate::models::Task;
use crate::rows::MeasuredColumn;
use crate::screen::{empty_message, empty_text, selected_at};
use crate::theme::Style;
use vstd::prelude::*;

verus! {

/// A line of the list's body: its spans, and the style laid over the whole line, if any.
pub struct ListLine {
    /// What the line says, column by column.
    pub spans: Vec<Span>,
    /// The style the whole line takes under its spans: the selection's, on its lines.
    pub style: Option<Style>,
}

impl View for ListLine {
    type V = (Seq<(Seq<char>, Style)>, Option<Style>);

    open spec fn view(&self) -> (Seq<(Seq<char>, Style)>, Option<Style>) {
        (line_views(self.spans@), self.style)
    }
}

/// The lines as values.
pub open spec fn list_line_views(lines: Seq<ListLine>) -> Seq<(Seq<(Seq<char>, Style)>, Option<Style>)> {
    lines.map_values(|l: ListLine| l@)
}

/// The style over a task's lines: `style` on the selected task's, none on the others'.
pub open spec fn line_style(t: Task, selected: Option<i64>, style: Style) -> Option<Style> {
    if selected == Some(t.id) {
        Some(style)
    } else {
        None
    }
}

/// The lines of one task's row; none where a line of it is too wide to measure.
pub open spec fn task_lines<'a>(
    t: Task,
    columns: Seq<MeasuredColumn>,
    context: RowContext<'a>,
    selected: Option<i64>,
    style: Style,
) -> Seq<(Seq<(Seq<char>, Style)>, Option<Style>)> {
    let cells = row_cells(t@, columns, context);
    if measurable_cells(cells) {
        Seq::new(
            height_in(t@, columns, context) as nat,
            |index: int| (row_line(cells, columns, index), line_style(t, selected, style)),
        )
    } else {
        Seq::empty()
    }
}

/// Rows laid one under another, stopping once `height` lines are filled.
pub open spec fn stacked<'a>(
    tasks: Seq<Task>,
    columns: Seq<MeasuredColumn>,
    context: RowContext<'a>,
    selected: Option<i64>,
    style: Style,
    height: nat,
) -> Seq<(Seq<(Seq<char>, Style)>, Option<Style>)>
    decreases tasks.len(),
{
    if tasks.len() == 0 {
        Seq::empty()
    } else {
        let before = stacked(tasks.drop_last(), columns, context, selected, style, height);
        if before.len() >= height {
            before
        } else {
            before + task_lines(tasks.last(), columns, context, selected, style)
        }
    }
}

/// The first `n` of `s`, or all of it when it is shorter.
pub open spec fn at_most<A>(s: Seq<A>, n: nat) -> Seq<A> {
    if s.len() <= n {
        s
    } else {
        s.take(n as int)
    }
}

/// The tasks that can be on screen: from `offset`, at most `height` of them.
pub open spec fn window(tasks: Seq<Task>, offset: nat, height: nat) -> Seq<Task> {
    let start = if offset <= tasks.len() {
        offset as int
    } else {
        tasks.len() as int
    };
    let end = if tasks.len() - start > height {
        start + height
    } else {
        tasks.len() as int
    };
    tasks.subrange(start, end)
}

/// The list's body, `height` lines tall: the message that stands for an empty or failed
/// list, muted; else the rows from where it is scrolled, the selected task's lines in the
/// selection's style, bold where the keyboard is.
pub open spec fn listed<'a>(
    m: Model,
    columns: Seq<MeasuredColumn>,
    context: RowContext<'a>,
    height: u16,
) -> Seq<(Seq<(Seq<char>, Style)>, Option<Style>)> {
    if height == 0 {
        Seq::empty()
    } else {
        match empty_text(m) {
            Some(t) => seq![(seq![(t, muted_of(m.theme.depth()))], None)],
            None => at_most(
                stacked(
                    window(m.data.tasks@, m.list.offset as nat, height as nat),
                    columns,
                    context,
                    m.list.selected,
                    selected_at(m.theme.depth(), m.focus == Focus::List),
                    height as nat,
                ),
                height as nat,
            ),
        }
    }
}

/// The list's body never runs past the lines it is given.
pub proof fn law_the_list_body_fits_its_height<'a>(
    m: Model,
    columns: Seq<MeasuredColumn>,
    context: RowContext<'a>,
    height: u16,
)
    ensures
        listed(m, columns, context, height).len() <= height,
{
}

/// Once the rows so far fill `height` lines, the ones after them add none.
proof fn lemma_stacked_stops<'a>(
    tasks: Seq<Task>,
    columns: Seq<MeasuredColumn>,
    context: RowContext<'a>,
    selected: Option<i64>,
    style: Style,
    height: nat,
    r: int,
    j: int,
)
    requires
        0 <= r <= j <= tasks.len(),
        stacked(tasks.take(r), columns, context, selected, style, height).len() >= height,
    ensures
        stacked(tasks.take(j), columns, context, selected, style, height) == stacked(
            tasks.take(r),
            columns,
            context,
            selected,
            style,
            height,
        ),
    decreases j - r,
{
    if j > r {
        lemma_stacked_stops(tasks, columns, context, selected, style, height, r, j - 1);
        assert(tasks.take(j).drop_last() =~= tasks.take(j - 1));
    }
}

/// Move a row's lines onto the end of `lines`, each with `style` over it.
fn append_lines(lines: &mut Vec<ListLine>, produced: Vec<Vec<Span>>, style: Option<Style>)
    ensures
        list_line_views(final(lines)@) == list_line_views(old(lines)@) + lines_of(produced@).map_values(
            |l: Seq<(Seq<char>, Style)>| (l, style),
        ),
{
    let ghost start = list_line_views(lines@);
    let ghost all = lines_of(produced@).map_values(|l: Seq<(Seq<char>, Style)>| (l, style));
    let mut rest = produced;
    let ghost n = rest@.len();
    while rest.len() > 0
        invariant
            rest@.len() <= n,
            n == all.len(),
            lines_of(rest@).map_values(|l: Seq<(Seq<char>, Style)>| (l, style)) == all.skip(n - rest@.len()),
            list_line_views(lines@) == start + all.take(n - rest@.len()),
        decreases rest.len(),
    {
        let ghost k = n - rest@.len();
        let ghost old_rest = rest@;
        let line = rest.remove(0);
        assert(all[k] == (line_views(line@), style)) by {
            assert(all.skip(k)[0] == all[k]);
        }
        let ghost before = lines@;
        let ghost text = line_views(line@);
        lines.push(ListLine { spans: line, style });
        proof {
            assert(all.take(k + 1) =~= all.take(k).push(all[k]));
            assert(lines@.drop_last() =~= before);
            assert(list_line_views(lines@) =~= list_line_views(before).push((text, style)));
            let ghost was = lines_of(old_rest).map_values(|l: Seq<(Seq<char>, Style)>| (l, style));
            assert(rest@ =~= old_rest.skip(1));
            assert(lines_of(rest@).map_values(|l: Seq<(Seq<char>, Style)>| (l, style)) =~= was.skip(1));
            assert(was.skip(1) =~= all.skip(k + 1));
        }
    }
    proof {
        assert(all.take(n as int) =~= all);
    }
}

/// The list's body, `height` lines tall, with `columns` as measured and rows drawn with
/// `context`: the message for an empty or failed list, or the rows on screen from where
/// the list is scrolled, stopping once the lines are filled, the selected task's lines
/// marked with the selection's style.
pub fn list_lines(model: &Model, columns: &Vec<MeasuredColumn>, context: RowContext, height: u16) -> (lines: Vec<
    ListLine,
>)
    requires
        context.readable(),
        all_dated_sanely(model.data.tasks@),
    ensures
        list_line_views(lines@) == listed(*model, columns@, context, height),
{
    if height == 0 {
        proof {
            assert(list_line_views(Seq::<ListLine>::empty()) =~= Seq::empty());
        }
        return Vec::new();
    }
    if let Some(message) = empty_message(model) {
        let ghost text = message@;
        let mut spans: Vec<Span> = Vec::new();
        spans.push(Span { text: message, style: model.theme.muted() });
        let mut lines: Vec<ListLine> = Vec::new();
        lines.push(ListLine { spans, style: None });
        proof {
            assert(line_views(spans@) =~= seq![(text, muted_of(model.theme.depth()))]);
            assert(list_line_views(lines@) =~= seq![(seq![(text, muted_of(model.theme.depth()))], None)]);
        }
        return lines;
    }
    let tasks = model.data.tasks.as_slice();
    let len = tasks.len();
    let start = if model.list.offset <= len {
        model.list.offset
    } else {
        len
    };
    let end = if len - start > height as usize {
        start + height as usize
    } else {
        len
    };
    let shown = vstd::slice::slice_subrange(tasks, start, end);
    let ghost sh = shown@;
    assert(sh == window(model.data.tasks@, model.list.offset as nat, height as nat));
    assert(all_dated_sanely(sh)) by {
        assert forall|k: int| 0 <= k < sh.len() implies crate::grid::dated_sanely(#[trigger] sh[k]@) by {
            assert(sh[k] == model.data.tasks@[start + k]);
        }
    }
    let cols = columns.as_slice();
    let rows = render(shown, cols, context);
    let style = model.theme.selected(model.focus == Focus::List);
    let ghost selected = model.list.selected;
    assert(style == selected_at(model.theme.depth(), model.focus == Focus::List));
    let mut lines: Vec<ListLine> = Vec::new();
    let mut r: usize = 0;
    proof {
        assert(sh.take(0) =~= Seq::<Task>::empty());
        assert(list_line_views(lines@) =~= Seq::empty());
    }
    while r < rows.len() && lines.len() < height as usize
        invariant
            r <= rows@.len(),
            rows@.len() == sh.len(),
            cols@ == columns@,
            selected == model.list.selected,
            forall|k: int|
                0 <= k < sh.len() ==> {
                    &&& (#[trigger] rows@[k]).task == sh[k].id
                    &&& row_views(rows@[k].cells@) == row_cells(sh[k]@, columns@, context)
                    &&& rows@[k].height == height_in(sh[k]@, columns@, context)
                },
            list_line_views(lines@) == stacked(sh.take(r as int), columns@, context, selected, style, height as nat),
        decreases rows.len() - r,
    {
        let row = &rows[r];
        let ghost t = sh[r as int];
        let ghost before = list_line_views(lines@);
        proof {
            assert(sh.take(r + 1).drop_last() =~= sh.take(r as int));
            assert(sh.take(r + 1).last() == t);
        }
        if row_measurable(row) {
            let produced = row_lines(row, cols);
            let st = match model.list.selected {
                Some(id) => if id == row.task {
                    Some(style)
                } else {
                    None
                },
                None => None,
            };
            append_lines(&mut lines, produced, st);
            proof {
                assert(st == line_style(t, selected, style));
                assert(lines_of(produced@).map_values(|l: Seq<(Seq<char>, Style)>| (l, st)) =~= task_lines(
                    t,
                    columns@,
                    context,
                    selected,
                    style,
                ));
            }
        } else {
            proof {
                assert(before + task_lines(t, columns@, context, selected, style) =~= before);
            }
        }
        r += 1;
    }
    proof {
        if r < rows.len() {
            lemma_stacked_stops(sh, columns@, context, selected, style, height as nat, r as int, sh.len() as int);
        }
        assert(sh.take(sh.len() as int) =~= sh);
    }
    let ghost full = list_line_views(lines@);
    lines.truncate(height as usize);
    proof {
        if full.len() > height {
            assert(list_line_views(lines@) =~= full.take(height as int));
        } else {
            assert(list_line_views(lines@) =~= full);
        }
    }
    lines
}

} // verus!
