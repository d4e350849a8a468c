//! The arithmetic and text of drawing the screen: how long ago something was, where a
//! box sits, how a run of spans is cut to a width, and how the key reference is folded.
//!
//! The terminal does none of this; it only paints what these functions lay out.
use crate::grid::{line_views, row_views, Span};
use crate::keymap::{keys_text, HelpRow, HelpRowView};
use crate::rows::{truncated, RenderedRow, MeasuredColumn, GAP};
use crate::text::{chars_of, decimal, decimal_of, display_width, push_all, string_of, width_of};
use crate::theme::{plain_style, Style};
use vstd::prelude::*;

verus! {

/// How long ago something happened, said briefly: "just now" within 45 seconds, then in
/// minutes to an hour and a half, then in hours; rounded to the nearest. A moment in the
/// future reads as now.
pub open spec fn ago_text(elapsed: i64) -> Seq<char> {
    let seconds = if elapsed < 0 {
        0
    } else {
        elapsed as int
    };
    if seconds <= 45 {
        "just now"@
    } else if seconds <= 5400 {
        decimal(((seconds + 30) / 60) as nat) + "m ago"@
    } else {
        decimal(((seconds + 1800) / 3600) as nat) + "h ago"@
    }
}

/// How long ago something happened, `elapsed` seconds back.
pub fn ago(elapsed: i64) -> (s: String)
    requires
        elapsed <= i64::MAX - 1800,
    ensures
        s@ == ago_text(elapsed),
{
    let seconds: i64 = if elapsed < 0 {
        0
    } else {
        elapsed
    };
    if seconds <= 45 {
        return String::from_str("just now");
    }
    let (n, unit): (u64, &str) = if seconds <= 5400 {
        (((seconds + 30) / 60) as u64, "m ago")
    } else {
        (((seconds + 1800) / 3600) as u64, "h ago")
    };
    let mut out = decimal_of(n);
    let tail = chars_of(unit);
    push_all(&mut out, tail.as_slice());
    string_of(out.as_slice())
}

/// Where a scrolling list has to start so row `selected` is on screen: from the top when
/// everything fits or there is no room at all, and otherwise keeping the highlight one row
/// inside the bottom edge, so there is always a hint that the list goes on, but never past
/// the start of the last full window.
pub open spec fn scroll_start(selected: int, count: int, height: int) -> int {
    if height == 0 || count <= height {
        0
    } else {
        let keep = if selected > height - 1 {
            selected - (height - 1)
        } else {
            0
        };
        if keep < count - height {
            keep
        } else {
            count - height
        }
    }
}

/// Where a scrolling list has to start so `selected` is on screen.
pub fn scrolled_to(selected: usize, count: usize, height: usize) -> (start: usize)
    ensures
        start == scroll_start(selected as int, count as int, height as int),
{
    if height == 0 || count <= height {
        return 0;
    }
    let last_start = count - height;
    let keep = if selected > height - 1 {
        selected - (height - 1)
    } else {
        0
    };
    if keep < last_start {
        keep
    } else {
        last_start
    }
}

/// A rectangle of terminal cells.
#[derive(Debug, Clone, Copy, PartialEq, Eq, Structural)]
pub struct Rect {
    pub x: u16,
    pub y: u16,
    pub width: u16,
    pub height: u16,
}

impl Rect {
    /// Whether the rectangle lies within the terminal's coordinates.
    pub open spec fn on_screen(self) -> bool {
        self.x + self.width <= u16::MAX && self.y + self.height <= u16::MAX
    }
}

/// A box of at most `width` by `height`, centred in `area` and never larger than it.
pub fn centered(area: Rect, width: u16, height: u16) -> (r: Rect)
    requires
        area.on_screen(),
    ensures
        r.width == if width < area.width {
            width
        } else {
            area.width
        },
        r.height == if height < area.height {
            height
        } else {
            area.height
        },
        r.x == area.x + (area.width - r.width) / 2,
        r.y == area.y + (area.height - r.height) / 2,
        r.on_screen(),
{
    let width = if width < area.width {
        width
    } else {
        area.width
    };
    let height = if height < area.height {
        height
    } else {
        area.height
    };
    Rect {
        x: area.x + (area.width - width) / 2,
        y: area.y + (area.height - height) / 2,
        width,
        height,
    }
}

/// `n` spaces.
pub open spec fn spaces(n: nat) -> Seq<char> {
    Seq::new(n, |i: int| ' ')
}

/// `n` spaces, as characters.
fn space_chars(n: u16) -> (out: Vec<char>)
    ensures
        out@ == spaces(n as nat),
{
    let mut out: Vec<char> = Vec::new();
    let mut i: u16 = 0;
    while i < n
        invariant
            i <= n,
            out@ == spaces(i as nat),
        decreases n - i,
    {
        out.push(' ');
        i += 1;
        assert(out@ =~= spaces(i as nat));
    }
    out
}

/// `text` followed by the spaces that bring it to `width` cells, or alone when it already
/// takes that many.
pub open spec fn padded(text: Seq<char>, width: u16) -> Seq<char> {
    text + spaces(
        if width_of(text) < width {
            (width - width_of(text)) as nat
        } else {
            0
        },
    )
}

/// Pad `text` with spaces to `width` cells.
pub fn pad(text: &str, width: u16) -> (s: String)
    ensures
        s@ == padded(text@, width),
{
    let used = display_width(text);
    let n: u16 = if used < width {
        width - used
    } else {
        0
    };
    let mut out = chars_of(text);
    let gap = space_chars(n);
    push_all(&mut out, gap.as_slice());
    string_of(out.as_slice())
}

/// How many cells a line of spans takes.
pub open spec fn spans_width(spans: Seq<(Seq<char>, Style)>) -> int
    decreases spans.len(),
{
    if spans.len() == 0 {
        0
    } else {
        spans_width(spans.drop_last()) + width_of(spans.last().0) as int
    }
}

/// How many cells a line of spans takes.
pub fn line_width(spans: &[Span]) -> (w: u16)
    requires
        spans_width(line_views(spans@)) <= u16::MAX,
    ensures
        w == spans_width(line_views(spans@)),
{
    let ghost sv = line_views(spans@);
    let mut total: u32 = 0;
    let mut i: usize = 0;
    while i < spans.len()
        invariant
            i <= spans@.len(),
            sv == line_views(spans@),
            total == spans_width(sv.take(i as int)),
            total <= 65535,
            spans_width(sv) <= u16::MAX,
        decreases spans.len() - i,
    {
        proof {
            assert(sv.take(i + 1).drop_last() =~= sv.take(i as int));
        }
        let w = display_width(spans[i].text.as_str());
        if total + w as u32 > 65535 {
            proof {
                lemma_width_prefix(sv, i + 1);
            }
            assert(false);
        }
        total = total + w as u32;
        i += 1;
    }
    proof {
        assert(sv.take(i as int) =~= sv);
    }
    total as u16
}

/// How many cells a line of spans takes, counted wide enough never to overflow.
pub(crate) fn wide_width(spans: &[Span]) -> (w: u128)
    ensures
        w == spans_width(line_views(spans@)),
        w <= 65535 * spans@.len(),
{
    let ghost sv = line_views(spans@);
    let mut total: u128 = 0;
    let mut i: usize = 0;
    while i < spans.len()
        invariant
            i <= spans@.len(),
            sv == line_views(spans@),
            total == spans_width(sv.take(i as int)),
            total <= 65535 * i,
        decreases spans.len() - i,
    {
        proof {
            assert(sv.take(i + 1).drop_last() =~= sv.take(i as int));
        }
        let w = display_width(spans[i].text.as_str());
        assert(total + w <= 65535 * (i + 1)) by (nonlinear_arith)
            requires
                total <= 65535 * i,
                w <= 65535,
        ;
        total = total + w as u128;
        i += 1;
    }
    proof {
        assert(sv.take(i as int) =~= sv);
    }
    total
}

/// A line is at least as wide as any of its beginnings.
pub proof fn lemma_width_prefix(spans: Seq<(Seq<char>, Style)>, k: int)
    requires
        0 <= k <= spans.len(),
    ensures
        spans_width(spans.take(k)) <= spans_width(spans),
    decreases spans.len() - k,
{
    if k < spans.len() {
        lemma_width_prefix(spans, k + 1);
        assert(spans.take(k + 1).drop_last() =~= spans.take(k));
    } else {
        assert(spans.take(k) =~= spans);
    }
}

impl Span {
    /// A copy with the same text and style.
    pub fn duplicate(&self) -> (s: Span)
        ensures
            s@ == self@,
    {
        Span { text: self.text.clone(), style: self.style }
    }
}

/// The spans that fit in `width` cells once `used` are taken: whole spans while they
/// fit, then the first that does not, cut to the room left with an ellipsis, when any
/// room is left.
pub open spec fn fitted(spans: Seq<(Seq<char>, Style)>, width: int, used: int) -> Seq<(Seq<char>, Style)>
    decreases spans.len(),
{
    if spans.len() == 0 {
        Seq::empty()
    } else {
        let w = width_of(spans[0].0) as int;
        if used + w <= width {
            seq![spans[0]] + fitted(spans.drop_first(), width, used + w)
        } else if width - used > 0 {
            seq![(truncated(spans[0].0, (width - used) as u16), spans[0].1)]
        } else {
            Seq::empty()
        }
    }
}

/// A line cut down to `width` cells: whole when it fits, and otherwise as [`fitted`]
/// cuts it, so a long message never walks over what is drawn beside it.
pub open spec fn fitted_line(spans: Seq<(Seq<char>, Style)>, width: u16) -> Seq<(Seq<char>, Style)> {
    if spans_width(spans) <= width {
        spans
    } else {
        fitted(spans, width as int, 0)
    }
}

/// Cut a run of spans down to `width`, ellipsising whatever is left in the middle of a
/// span.
pub fn fit(spans: &Vec<Span>, width: u16) -> (out: Vec<Span>)
    requires
        spans_width(line_views(spans@)) <= u16::MAX,
    ensures
        line_views(out@) == fitted_line(line_views(spans@), width),
{
    let ghost sv = line_views(spans@);
    let mut out: Vec<Span> = Vec::new();
    if line_width(spans.as_slice()) <= width {
        let mut j: usize = 0;
        while j < spans.len()
            invariant
                j <= spans@.len(),
                sv == line_views(spans@),
                line_views(out@) == sv.take(j as int),
            decreases spans.len() - j,
        {
            let ghost before = line_views(out@);
            out.push(spans[j].duplicate());
            proof {
                assert(line_views(out@) =~= before.push(sv[j as int]));
                assert(sv.take(j + 1) =~= sv.take(j as int).push(sv[j as int]));
            }
            j += 1;
        }
        proof {
            assert(sv.take(j as int) =~= sv);
        }
        return out;
    }
    let ghost total = fitted(sv, width as int, 0);
    let mut used: u32 = 0;
    let mut i: usize = 0;
    proof {
        assert(sv.skip(0) =~= sv);
        assert(line_views(out@) =~= Seq::<(Seq<char>, Style)>::empty());
    }
    while i < spans.len()
        invariant
            i <= spans@.len(),
            sv == line_views(spans@),
            total == fitted(sv, width as int, 0),
            total == fitted_line(sv, width),
            used <= width,
            line_views(out@) + fitted(sv.skip(i as int), width as int, used as int) == total,
        decreases spans.len() - i,
    {
        let ghost rest = sv.skip(i as int);
        proof {
            assert(rest[0] == sv[i as int]);
            assert(rest.drop_first() =~= sv.skip(i + 1));
        }
        let w = display_width(spans[i].text.as_str());
        if used + w as u32 <= width as u32 {
            let ghost before = line_views(out@);
            out.push(spans[i].duplicate());
            proof {
                assert(line_views(out@) =~= before.push(sv[i as int]));
                assert(line_views(out@) + fitted(sv.skip(i + 1), width as int, used + w) =~= before
                    + fitted(rest, width as int, used as int));
            }
            used = used + w as u32;
            i += 1;
        } else {
            let ghost before = line_views(out@);
            let room: u16 = width - used as u16;
            if room > 0 {
                let text = crate::rows::truncate(spans[i].text.as_str(), room);
                out.push(Span { text, style: spans[i].style });
            }
            proof {
                assert(line_views(out@) =~= before + fitted(rest, width as int, used as int));
            }
            return out;
        }
    }
    proof {
        assert(sv.skip(i as int) =~= Seq::<(Seq<char>, Style)>::empty());
        assert(line_views(out@) + Seq::<(Seq<char>, Style)>::empty() =~= line_views(out@));
    }
    out
}

/// The gap drawn between two cells.
pub open spec fn gap_span() -> (Seq<char>, Style) {
    (spaces(GAP as nat), plain_style())
}

/// Cells joined into one line with a gap between each two.
pub open spec fn interleaved(cells: Seq<Seq<(Seq<char>, Style)>>) -> Seq<(Seq<char>, Style)>
    decreases cells.len(),
{
    if cells.len() == 0 {
        Seq::empty()
    } else if cells.len() == 1 {
        cells[0]
    } else {
        interleaved(cells.drop_last()).push(gap_span()) + cells.last()
    }
}

/// The lines of some cells, as values.
pub open spec fn lines_of(cells: Seq<Vec<Span>>) -> Seq<Seq<(Seq<char>, Style)>> {
    cells.map_values(|c: Vec<Span>| line_views(c@))
}

/// Join cells with a gap between them.
pub fn interleave_all(cells: &Vec<Vec<Span>>) -> (out: Vec<Span>)
    ensures
        line_views(out@) == interleaved(lines_of(cells@)),
{
    let ghost cv = lines_of(cells@);
    let mut out: Vec<Span> = Vec::new();
    let mut i: usize = 0;
    while i < cells.len()
        invariant
            i <= cells@.len(),
            cv == lines_of(cells@),
            line_views(out@) == interleaved(cv.take(i as int)),
        decreases cells.len() - i,
    {
        proof {
            assert(cv.take(i + 1).drop_last() =~= cv.take(i as int));
        }
        let ghost before = line_views(out@);
        if i > 0 {
            let gap = space_chars(GAP);
            out.push(Span { text: string_of(gap.as_slice()), style: Style::new() });
        }
        let ghost with_gap = line_views(out@);
        let cell = &cells[i];
        let mut j: usize = 0;
        while j < cell.len()
            invariant
                j <= cell@.len(),
                line_views(out@) == with_gap + line_views(cell@).take(j as int),
            decreases cell.len() - j,
        {
            let ghost so_far = line_views(out@);
            out.push(cell[j].duplicate());
            proof {
                assert(line_views(out@) =~= so_far.push(cell@[j as int]@));
                assert(line_views(cell@).take(j + 1) =~= line_views(cell@).take(j as int).push(
                    cell@[j as int]@,
                ));
            }
            j += 1;
        }
        proof {
            assert(line_views(cell@).take(j as int) =~= line_views(cell@));
            assert(cv[i as int] == line_views(cell@));
            if i == 0 {
                assert(with_gap =~= Seq::<(Seq<char>, Style)>::empty());
                assert(line_views(out@) =~= cv.take(1)[0]);
            } else {
                assert(with_gap =~= before.push(gap_span()));
            }
        }
        i += 1;
    }
    proof {
        assert(cv.take(i as int) =~= cv);
    }
    out
}

/// Spans joined with a gap between each two.
pub fn interleave(spans: &Vec<Span>) -> (out: Vec<Span>)
    ensures
        line_views(out@) == interleaved(line_views(spans@).map_values(
            |s: (Seq<char>, Style)| seq![s],
        )),
{
    let mut cells: Vec<Vec<Span>> = Vec::new();
    let mut i: usize = 0;
    while i < spans.len()
        invariant
            i <= spans@.len(),
            cells@.len() == i,
            lines_of(cells@) == line_views(spans@).take(i as int).map_values(
                |s: (Seq<char>, Style)| seq![s],
            ),
        decreases spans.len() - i,
    {
        let mut one: Vec<Span> = Vec::new();
        one.push(spans[i].duplicate());
        let ghost before = lines_of(cells@);
        cells.push(one);
        proof {
            assert(line_views(cells@[i as int]@) =~= seq![spans@[i as int]@]);
            assert(lines_of(cells@) =~= before.push(seq![spans@[i as int]@]));
            assert(line_views(spans@).take(i + 1).map_values(|s: (Seq<char>, Style)| seq![s])
                =~= line_views(spans@).take(i as int).map_values(
                |s: (Seq<char>, Style)| seq![s],
            ).push(seq![spans@[i as int]@]));
        }
        i += 1;
    }
    proof {
        assert(line_views(spans@).take(i as int) =~= line_views(spans@));
    }
    interleave_all(&cells)
}

/// Line `index` of cell `ci`, or nothing where the cell has no such line.
pub open spec fn cell_line(cells: Seq<Seq<Seq<(Seq<char>, Style)>>>, ci: int, index: int) -> Seq<
    (Seq<char>, Style),
> {
    if 0 <= ci < cells.len() && 0 <= index < cells[ci].len() {
        cells[ci][index]
    } else {
        Seq::empty()
    }
}

/// A cell's line brought out to its column's width with spaces.
pub open spec fn padded_cell(line: Seq<(Seq<char>, Style)>, width: u16) -> Seq<(Seq<char>, Style)> {
    if spans_width(line) < width {
        line.push((spaces((width - spans_width(line)) as nat), plain_style()))
    } else {
        line
    }
}

/// Line `index` of a row: each column's line of it, padded to the column's width, with a
/// gap between columns.
pub open spec fn row_line(
    cells: Seq<Seq<Seq<(Seq<char>, Style)>>>,
    columns: Seq<MeasuredColumn>,
    index: int,
) -> Seq<(Seq<char>, Style)> {
    interleaved(
        Seq::new(
            columns.len(),
            |ci: int| padded_cell(cell_line(cells, ci, index), columns[ci].width),
        ),
    )
}

/// Whether every line of every cell is narrow enough to measure.
pub open spec fn measurable_cells(cells: Seq<Seq<Seq<(Seq<char>, Style)>>>) -> bool {
    forall|ci: int, index: int| spans_width(#[trigger] cell_line(cells, ci, index)) <= u16::MAX
}

/// Whether a line of spans is narrow enough to measure.
fn line_measurable(spans: &[Span]) -> (r: bool)
    ensures
        r == (spans_width(line_views(spans@)) <= u16::MAX),
{
    let ghost sv = line_views(spans@);
    let mut total: u32 = 0;
    let mut i: usize = 0;
    while i < spans.len()
        invariant
            i <= spans@.len(),
            sv == line_views(spans@),
            total == spans_width(sv.take(i as int)),
            total <= 65535,
        decreases spans.len() - i,
    {
        proof {
            assert(sv.take(i + 1).drop_last() =~= sv.take(i as int));
        }
        let w = display_width(spans[i].text.as_str());
        total = total + w as u32;
        i += 1;
        if total > 65535 {
            proof {
                lemma_width_prefix(sv, i as int);
            }
            return false;
        }
    }
    proof {
        assert(sv.take(i as int) =~= sv);
    }
    true
}

/// Whether every line of every cell of a row is narrow enough to measure, as
/// [`row_lines`] asks.
pub fn row_measurable(row: &RenderedRow) -> (r: bool)
    ensures
        r == measurable_cells(row_views(row.cells@)),
{
    let ghost cv = row_views(row.cells@);
    let mut ci: usize = 0;
    while ci < row.cells.len()
        invariant
            ci <= row.cells@.len(),
            cv == row_views(row.cells@),
            forall|c: int, index: int|
                0 <= c < ci ==> spans_width(#[trigger] cell_line(cv, c, index)) <= u16::MAX,
        decreases row.cells.len() - ci,
    {
        let cell = &row.cells[ci];
        let mut index: usize = 0;
        while index < cell.len()
            invariant
                index <= cell@.len(),
                cv == row_views(row.cells@),
                cell@ == row.cells@[ci as int]@,
                ci < row.cells@.len(),
                forall|c: int, k: int|
                    0 <= c < ci ==> spans_width(#[trigger] cell_line(cv, c, k)) <= u16::MAX,
                forall|k: int| 0 <= k < index ==> spans_width(#[trigger] cell_line(cv, ci as int, k)) <= u16::MAX,
            decreases cell.len() - index,
        {
            proof {
                assert(cell_line(cv, ci as int, index as int) == line_views(cell@[index as int]@));
            }
            if !line_measurable(cell[index].as_slice()) {
                return false;
            }
            index += 1;
        }
        proof {
            assert forall|k: int| spans_width(#[trigger] cell_line(cv, ci as int, k)) <= u16::MAX by {
                if !(0 <= k < cell@.len()) {
                    assert(cell_line(cv, ci as int, k) =~= Seq::<(Seq<char>, Style)>::empty());
                }
            }
        }
        ci += 1;
    }
    proof {
        assert forall|c: int, index: int| spans_width(#[trigger] cell_line(cv, c, index)) <= u16::MAX by {
            if !(0 <= c < cv.len()) {
                assert(cell_line(cv, c, index) =~= Seq::<(Seq<char>, Style)>::empty());
            }
        }
    }
    true
}

/// A rendered row as the lines the terminal draws, one per line of its height.
pub fn row_lines(row: &RenderedRow, columns: &[MeasuredColumn]) -> (lines: Vec<Vec<Span>>)
    requires
        measurable_cells(row_views(row.cells@)),
    ensures
        lines_of(lines@) == Seq::new(
            row.height as nat,
            |index: int| row_line(row_views(row.cells@), columns@, index),
        ),
{
    let ghost cv = row_views(row.cells@);
    let mut lines: Vec<Vec<Span>> = Vec::new();
    let mut index: u16 = 0;
    while index < row.height
        invariant
            index <= row.height,
            cv == row_views(row.cells@),
            measurable_cells(cv),
            lines@.len() == index,
            forall|k: int| 0 <= k < index ==> line_views(#[trigger] lines@[k]@) == row_line(cv, columns@, k),
        decreases row.height - index,
    {
        let ghost want = Seq::new(
            columns@.len(),
            |ci: int| padded_cell(cell_line(cv, ci, index as int), columns@[ci].width),
        );
        let mut per: Vec<Vec<Span>> = Vec::new();
        let mut ci: usize = 0;
        while ci < columns.len()
            invariant
                ci <= columns@.len(),
                cv == row_views(row.cells@),
                measurable_cells(cv),
                want == Seq::new(
                    columns@.len(),
                    |c: int| padded_cell(cell_line(cv, c, index as int), columns@[c].width),
                ),
                per@.len() == ci,
                lines_of(per@) == want.take(ci as int),
            decreases columns.len() - ci,
        {
            let mut cell: Vec<Span> = Vec::new();
            if ci < row.cells.len() && (index as usize) < row.cells[ci].len() {
                let source = &row.cells[ci][index as usize];
                let mut j: usize = 0;
                while j < source.len()
                    invariant
                        j <= source@.len(),
                        line_views(cell@) == line_views(source@).take(j as int),
                    decreases source.len() - j,
                {
                    let ghost so_far = line_views(cell@);
                    cell.push(source[j].duplicate());
                    proof {
                        assert(line_views(cell@) =~= so_far.push(source@[j as int]@));
                        assert(line_views(source@).take(j + 1) =~= line_views(source@).take(
                            j as int,
                        ).push(source@[j as int]@));
                    }
                    j += 1;
                }
                proof {
                    assert(line_views(source@).take(j as int) =~= line_views(source@));
                    assert(cv[ci as int] == crate::grid::cell_views(row.cells@[ci as int]@));
                    assert(cell_line(cv, ci as int, index as int) == line_views(source@));
                }
            } else {
                proof {
                    assert(cell_line(cv, ci as int, index as int) =~= line_views(cell@));
                }
            }
            let ghost line = cell_line(cv, ci as int, index as int);
            assert(line_views(cell@) == line);
            assert(spans_width(line) <= u16::MAX);
            let used = line_width(cell.as_slice());
            let width = columns[ci].width;
            if used < width {
                let fill = space_chars(width - used);
                let ghost before = line_views(cell@);
                cell.push(Span { text: string_of(fill.as_slice()), style: Style::new() });
                proof {
                    assert(line_views(cell@) =~= before.push(
                        (spaces((width - spans_width(line)) as nat), plain_style()),
                    ));
                }
            }
            let ghost before_per = lines_of(per@);
            per.push(cell);
            proof {
                assert(lines_of(per@) =~= before_per.push(want[ci as int]));
                assert(want.take(ci + 1) =~= want.take(ci as int).push(want[ci as int]));
            }
            ci += 1;
        }
        proof {
            assert(want.take(ci as int) =~= want);
        }
        let line = interleave_all(&per);
        lines.push(line);
        index += 1;
    }
    proof {
        assert(lines_of(lines@) =~= Seq::new(
            row.height as nat,
            |index: int| row_line(row_views(row.cells@), columns@, index),
        ));
    }
    lines
}

/// The gutter between the two columns of the folded key reference.
pub const HELP_GUTTER: u16 = 3;

/// The two spaces a binding's keys are indented by.
pub const HELP_INDENT: usize = 2;

/// What a binding's keys are padded out to before its description begins.
pub const HELP_KEYS_WIDTH: usize = 12;

/// The narrowest a help column is drawn, which is what it was before it could be two.
pub const HELP_MIN_COLUMN: u16 = 62;

/// The views of some help rows.
pub open spec fn help_views(rows: Seq<HelpRow>) -> Seq<HelpRowView> {
    rows.map_values(|r: HelpRow| r@)
}

/// How many characters one help row takes: a heading its text; a binding its indent, its
/// keys padded to their column, and its description; a blank nothing.
pub open spec fn help_row_width(row: HelpRowView) -> int {
    match row {
        HelpRowView::Heading(text) => text.len() as int,
        HelpRowView::Binding(b) => HELP_INDENT + (if keys_text(b.keys).len() > HELP_KEYS_WIDTH {
            keys_text(b.keys).len() as int
        } else {
            HELP_KEYS_WIDTH as int
        }) + b.doc.len(),
        HelpRowView::Blank => 0,
    }
}

/// The widest of some help rows, or nothing for none.
pub open spec fn widest(rows: Seq<HelpRowView>) -> int
    decreases rows.len(),
{
    if rows.len() == 0 {
        0
    } else if widest(rows.drop_last()) >= help_row_width(rows.last()) {
        widest(rows.drop_last())
    } else {
        help_row_width(rows.last())
    }
}

/// How wide one column of help has to be to hold every row whole, saturated at the
/// largest `u16`.
pub open spec fn column_width_of(rows: Seq<HelpRowView>) -> u16 {
    if widest(rows) > u16::MAX {
        u16::MAX
    } else {
        widest(rows) as u16
    }
}

/// How wide one column of help has to be to hold every row whole.
pub fn help_column_width(rows: &[HelpRow]) -> (w: u16)
    ensures
        w == column_width_of(help_views(rows@)),
{
    let ghost rv = help_views(rows@);
    let mut best: u128 = 0;
    let mut i: usize = 0;
    while i < rows.len()
        invariant
            i <= rows@.len(),
            rv == help_views(rows@),
            best == widest(rv.take(i as int)),
            best <= 3 * (usize::MAX as int),
        decreases rows.len() - i,
    {
        proof {
            assert(rv.take(i + 1).drop_last() =~= rv.take(i as int));
            assert(rv[i as int] == rows@[i as int]@);
        }
        let width: u128 = match &rows[i] {
            HelpRow::Heading(text) => {
                let t = chars_of(text);
                t.len() as u128
            },
            HelpRow::Binding(binding) => {
                let keys = chars_of(binding.keys_display().as_str());
                let doc = chars_of(binding.doc);
                let k: u128 = if keys.len() > HELP_KEYS_WIDTH {
                    keys.len() as u128
                } else {
                    HELP_KEYS_WIDTH as u128
                };
                HELP_INDENT as u128 + k + doc.len() as u128
            },
            HelpRow::Blank => 0,
        };
        if width > best {
            best = width;
        }
        i += 1;
    }
    proof {
        assert(rv.take(i as int) =~= rv);
    }
    if best > u16::MAX as u128 {
        u16::MAX
    } else {
        best as u16
    }
}

/// The heading nearest the middle, scanning positions `1` up to `n`: where it stands and
/// how far it is from even, the first of equals winning; the length when there is none.
pub open spec fn split_scan(rows: Seq<HelpRowView>, n: int) -> (int, int)
    decreases n,
{
    if n <= 1 {
        (rows.len() as int, usize::MAX as int)
    } else {
        let before = split_scan(rows, n - 1);
        let index = n - 1;
        let distance = if index >= rows.len() - index {
            index - (rows.len() - index)
        } else {
            (rows.len() - index) - index
        };
        if rows[index] is Heading && distance < before.1 {
            (index, distance)
        } else {
            before
        }
    }
}

/// Where to fold the rows into two columns: only ever at a heading, so a section is never
/// cut in half across the gutter, and at the one nearest the middle.
pub open spec fn split_at_heading(rows: Seq<HelpRowView>) -> int {
    split_scan(rows, rows.len() as int).0
}

/// Where to fold the rows into two columns.
pub fn help_split(rows: &[HelpRow]) -> (split: usize)
    ensures
        split == split_at_heading(help_views(rows@)),
{
    let ghost rv = help_views(rows@);
    let mut best: usize = rows.len();
    let mut closest: usize = usize::MAX;
    if rows.len() <= 1 {
        return best;
    }
    let mut index: usize = 1;
    while index < rows.len()
        invariant
            1 <= index <= rows@.len(),
            rv == help_views(rows@),
            (best as int, closest as int) == split_scan(rv, index as int),
        decreases rows.len() - index,
    {
        assert(rv[index as int] == rows@[index as int]@);
        let heading = match &rows[index] {
            HelpRow::Heading(_) => true,
            _ => false,
        };
        if heading {
            let other = rows.len() - index;
            let distance = if index >= other {
                index - other
            } else {
                other - index
            };
            if distance < closest {
                closest = distance;
                best = index;
            }
        }
        index += 1;
    }
    best
}

/// Where the fold falls in `rows`: at `split`, or at the end when that is past it.
pub open spec fn fold_at(len: int, split: int) -> int {
    if split < len {
        split
    } else {
        len
    }
}

/// The rows left of the fold: those before it, less a blank at their foot, which the
/// gutter now stands in for.
pub open spec fn left_rows(rows: Seq<HelpRowView>, split: int) -> Seq<HelpRowView> {
    let left = rows.take(fold_at(rows.len() as int, split));
    if left.len() > 0 && left.last() is Blank {
        left.drop_last()
    } else {
        left
    }
}

/// The rows either side of the fold.
pub fn help_columns<'a>(rows: &'a [HelpRow], split: usize) -> (r: (&'a [HelpRow], &'a [HelpRow]))
    ensures
        help_views(r.0@) == left_rows(help_views(rows@), split as int),
        help_views(r.1@) == help_views(rows@).skip(fold_at(rows@.len() as int, split as int)),
{
    let at = if split < rows.len() {
        split
    } else {
        rows.len()
    };
    let (left, right) = rows.split_at(at);
    proof {
        assert(help_views(right@) =~= help_views(rows@).skip(at as int));
        assert(help_views(left@) =~= help_views(rows@).take(at as int));
    }
    if left.len() > 0 {
        let blank = match &left[left.len() - 1] {
            HelpRow::Blank => true,
            _ => false,
        };
        if blank {
            let kept = vstd::slice::slice_subrange(left, 0, left.len() - 1);
            proof {
                assert(help_views(kept@) =~= help_views(left@).drop_last());
            }
            return (kept, right);
        }
    }
    (left, right)
}

/// How the key reference is laid out: where the second column starts, if there is one,
/// and the outer size, borders included.
#[derive(Debug, Clone, Copy, PartialEq, Eq, Structural)]
pub struct HelpLayout {
    /// Where the second column starts, or `None` for a single column.
    pub split: Option<usize>,
    /// Outer width, borders included.
    pub width: u16,
    /// Outer height, borders included.
    pub height: u16,
}

/// `n` rows and a border above and below, saturated at the largest `u16`.
pub open spec fn boxed_height(n: int) -> u16 {
    if n + 2 > u16::MAX {
        u16::MAX
    } else {
        (n + 2) as u16
    }
}

/// How the key reference is laid out on a screen: one column when it fits, or when the
/// screen is too narrow for two, or when there is no heading to fold at; and otherwise
/// two columns folded at the heading nearest the middle.
pub open spec fn help_layout_of(rows: Seq<HelpRowView>, screen: Rect) -> HelpLayout {
    let column = column_width_of(rows);
    let single = HelpLayout {
        split: None,
        width: ((if column >= HELP_MIN_COLUMN {
            column
        } else {
            HELP_MIN_COLUMN
        }) + 2) as u16,
        height: boxed_height(rows.len() as int),
    };
    let width = column * 2 + HELP_GUTTER + 2;
    let split = split_at_heading(rows);
    let left = left_rows(rows, split);
    let right = rows.skip(fold_at(rows.len() as int, split));
    if single.height <= screen.height || width > screen.width || right.len() == 0 {
        single
    } else {
        HelpLayout {
            split: Some(split as usize),
            width: width as u16,
            height: boxed_height(
                if left.len() >= right.len() {
                    left.len() as int
                } else {
                    right.len() as int
                },
            ),
        }
    }
}

/// Lay the key reference out on `screen`.
pub fn help_layout(rows: &[HelpRow], screen: Rect) -> (l: HelpLayout)
    requires
        column_width_of(help_views(rows@)) <= u16::MAX - 2,
        boxed_height(rows@.len() as int) > screen.height ==> column_width_of(help_views(rows@))
            <= (u16::MAX - HELP_GUTTER - 2) / 2,
    ensures
        l == help_layout_of(help_views(rows@), screen),
{
    let column = help_column_width(rows);
    let single = HelpLayout {
        split: None,
        width: (if column >= HELP_MIN_COLUMN {
            column
        } else {
            HELP_MIN_COLUMN
        }) + 2,
        height: if rows.len() > (u16::MAX - 2) as usize {
            u16::MAX
        } else {
            (rows.len() + 2) as u16
        },
    };
    if single.height <= screen.height {
        return single;
    }
    let width = column * 2 + HELP_GUTTER + 2;
    if width > screen.width {
        return single;
    }
    let split = help_split(rows);
    let (left, right) = help_columns(rows, split);
    if right.len() == 0 {
        return single;
    }
    let tallest = if left.len() >= right.len() {
        left.len()
    } else {
        right.len()
    };
    HelpLayout {
        split: Some(split),
        width,
        height: if tallest > (u16::MAX - 2) as usize {
            u16::MAX
        } else {
            (tallest + 2) as u16
        },
    }
}

} // verus!
