//! Turning text into drawable rows.
//!
//! Pure arithmetic and text: given a width, produce the lines a cell draws, how a list's
//! columns share the terminal, and how many rows of a given height fit. No terminal is
//! involved, and the scroll maths reads the same heights the renderer draws.
use crate::columns::{heading_text, Column, ColumnLayout, ColumnSpec};
use crate::label_forms::{first_where, lemma_first_where};
use crate::text::{
    char_width, chars_of, is_space, string_of, trimmed, width_of, width_of_chars,
};
use vstd::prelude::*;

pub use crate::dates::relative_date;
pub use crate::grid::{
    cell, first_visible, fit, render, row_height, RenderedRow, RowContext, Span,
};
pub use crate::plain::plain_text;
pub use crate::text::display_width;

verus! {

/// The space between two columns.
pub const GAP: u16 = 1;

/// The most lines one row may take, however much its title wraps.
pub const MAX_ROW_LINES: u16 = 3;

/// What Vikunja calls a priority, so the interface and the web UI say the same word.
pub open spec fn priority_word(priority: i64) -> Seq<char> {
    if priority == 1 {
        "Low"@
    } else if priority == 2 {
        "Medium"@
    } else if priority == 3 {
        "High"@
    } else if priority == 4 {
        "Urgent"@
    } else if priority == 5 {
        "DO NOW"@
    } else {
        "Unset"@
    }
}

/// What Vikunja calls a priority: `Low` to `DO NOW`, and `Unset` for anything else.
pub fn priority_name(priority: i64) -> (s: &'static str)
    ensures
        s@ == priority_word(priority),
{
    match priority {
        1 => "Low",
        2 => "Medium",
        3 => "High",
        4 => "Urgent",
        5 => "DO NOW",
        _ => "Unset",
    }
}

/// The width one character is given when measured on its own.
pub open spec fn char_cells(c: char) -> int {
    width_of(seq![c]) as int
}

/// The width of the first `i` characters of `s`, each measured on its own.
pub open spec fn prefix_width(s: Seq<char>, i: int) -> int
    decreases i,
{
    if i <= 0 {
        0
    } else {
        prefix_width(s, i - 1) + char_cells(s[i - 1])
    }
}

/// The positions `0..n`.
pub open spec fn indices(n: nat) -> Seq<int> {
    Seq::new(n, |i: int| i)
}

/// Whether the characters up to and including position `i` take more than `limit`.
pub open spec fn overflows(s: Seq<char>, limit: int) -> spec_fn(int) -> bool {
    |i: int| prefix_width(s, i + 1) > limit
}

/// How many leading characters of `s` fit in `limit` cells, each measured on its own:
/// every one up to the first that would take the running total past `limit`.
pub open spec fn fit_len(s: Seq<char>, limit: int) -> int {
    first_where(indices(s.len()), overflows(s, limit))
}

/// How many leading characters of `s` fit in `limit` cells.
fn fitting(s: &[char], limit: u16) -> (n: usize)
    ensures
        n == fit_len(s@, limit as int),
        n <= s@.len(),
{
    let ghost ix = indices(s@.len());
    let ghost p = overflows(s@, limit as int);
    let mut used: u32 = 0;
    let mut i: usize = 0;
    while i < s.len() && used + (char_width(s[i]) as u32) <= limit as u32
        invariant
            i <= s@.len(),
            used == prefix_width(s@, i as int),
            used <= limit,
            ix == indices(s@.len()),
            p == overflows(s@, limit as int),
            forall|k: int| 0 <= k < i ==> !p(#[trigger] ix[k]),
        decreases s.len() - i,
    {
        used = used + char_width(s[i]) as u32;
        i += 1;
    }
    proof {
        crate::label_forms::lemma_first_where_is(ix, p, i as int);
    }
    i
}

/// `text` cut to `width` cells, ending in an ellipsis when something was lost: whole
/// when it fits, nothing in no room, a lone ellipsis in one cell, and otherwise the
/// characters that fit in one cell less, then the ellipsis.
pub open spec fn truncated(text: Seq<char>, width: u16) -> Seq<char> {
    if width_of(text) <= width {
        text
    } else if width == 0 {
        Seq::empty()
    } else if width == 1 {
        seq!['…']
    } else {
        text.take(fit_len(text, width - 1)).push('…')
    }
}

/// Two texts that agree on their first `i` characters have the same width there.
proof fn lemma_prefix_width_same(a: Seq<char>, b: Seq<char>, i: int)
    requires
        0 <= i <= a.len(),
        i <= b.len(),
        forall|j: int| 0 <= j < i ==> a[j] == b[j],
    ensures
        prefix_width(a, i) == prefix_width(b, i),
    decreases i,
{
    if i > 0 {
        lemma_prefix_width_same(a, b, i - 1);
    }
}

/// Cutting a line keeps it within the width: a line that fits is kept whole; otherwise
/// what is kept is where the line starts, its characters measured one by one take no
/// more than one cell less than the width, and the ellipsis takes the last; in one cell
/// the ellipsis is all there is.
pub proof fn law_a_cut_line_keeps_within_the_width(text: Seq<char>, width: u16)
    ensures
        width_of(text) <= width ==> truncated(text, width) == text,
        width_of(text) > width && width == 1 ==> truncated(text, width) == seq!['…'],
        width_of(text) > width && width >= 2 ==> {
            let r = truncated(text, width);
            &&& r.len() >= 1
            &&& r.last() == '…'
            &&& r.drop_last() == text.take(r.len() - 1)
            &&& prefix_width(r, r.len() - 1) <= width - 1
        },
{
    if width_of(text) > width && width >= 2 {
        let limit = (width - 1) as int;
        let ix = indices(text.len());
        lemma_first_where(ix, overflows(text, limit));
        let n = fit_len(text, limit);
        let r = truncated(text, width);
        assert(r == text.take(n).push('…'));
        assert(r.drop_last() =~= text.take(n));
        if n > 0 {
            assert(!overflows(text, limit)(ix[n - 1]));
        }
        lemma_prefix_width_same(r, text, n);
    }
}

/// `truncated`, on characters.
fn truncate_chars(text: &[char], width: u16) -> (out: Vec<char>)
    ensures
        out@ == truncated(text@, width),
{
    if width_of_chars(text) <= width {
        return crate::text::slice_to_vec(text, 0, text.len());
    }
    if width == 0 {
        return Vec::new();
    }
    if width == 1 {
        let mut out = Vec::new();
        out.push('…');
        return out;
    }
    let n = fitting(text, width - 1);
    let mut out = crate::text::slice_to_vec(text, 0, n);
    out.push('…');
    out
}

/// Cut `text` to `width`, ending in an ellipsis when something was lost.
pub fn truncate(text: &str, width: u16) -> (s: String)
    ensures
        s@ == truncated(text@, width),
{
    let chars = chars_of(text);
    let out = truncate_chars(chars.as_slice(), width);
    string_of(out.as_slice())
}

/// Rows of characters, as values.
pub open spec fn char_rows(rows: Seq<Vec<char>>) -> Seq<Seq<char>> {
    rows.map_values(|r: Vec<char>| r@)
}

/// The words of `s` found so far, and the one being read, scanning left to right.
pub open spec fn word_scan(s: Seq<char>) -> (Seq<Seq<char>>, Seq<char>)
    decreases s.len(),
{
    if s.len() == 0 {
        (Seq::empty(), Seq::empty())
    } else {
        let (done, cur) = word_scan(s.drop_last());
        if is_space(s.last()) {
            if cur.len() > 0 {
                (done.push(cur), Seq::empty())
            } else {
                (done, cur)
            }
        } else {
            (done, cur.push(s.last()))
        }
    }
}

/// The maximal runs of non-whitespace characters of `s`, in order, as `split_whitespace`
/// gives them.
pub open spec fn words(s: Seq<char>) -> Seq<Seq<char>> {
    let (done, cur) = word_scan(s);
    if cur.len() > 0 {
        done.push(cur)
    } else {
        done
    }
}

/// The pieces of `s` between the `sep` characters found so far, and the one being read.
pub open spec fn split_scan(s: Seq<char>, sep: char) -> (Seq<Seq<char>>, Seq<char>)
    decreases s.len(),
{
    if s.len() == 0 {
        (Seq::empty(), Seq::empty())
    } else {
        let (done, cur) = split_scan(s.drop_last(), sep);
        if s.last() == sep {
            (done.push(cur), Seq::empty())
        } else {
            (done, cur.push(s.last()))
        }
    }
}

/// The pieces of `s` between `sep` characters, empty ones included, as `str::split` gives
/// them: one more piece than there are separators.
pub open spec fn split_on(s: Seq<char>, sep: char) -> Seq<Seq<char>> {
    let (done, cur) = split_scan(s, sep);
    done.push(cur)
}

/// The words of `s`.
pub(crate) fn words_of(s: &[char]) -> (out: Vec<Vec<char>>)
    ensures
        char_rows(out@) == words(s@),
{
    let mut out: Vec<Vec<char>> = Vec::new();
    let mut cur: Vec<char> = Vec::new();
    let mut i: usize = 0;
    while i < s.len()
        invariant
            i <= s@.len(),
            (char_rows(out@), cur@) == word_scan(s@.take(i as int)),
        decreases s.len() - i,
    {
        proof {
            assert(s@.take(i + 1).drop_last() =~= s@.take(i as int));
        }
        let c = s[i];
        if crate::text::is_space_char(c) {
            if cur.len() > 0 {
                let ghost before = out@;
                out.push(cur);
                cur = Vec::new();
                proof {
                    assert(char_rows(out@) =~= char_rows(before).push(
                        word_scan(s@.take(i as int)).1,
                    ));
                }
            }
        } else {
            cur.push(c);
        }
        i += 1;
    }
    proof {
        assert(s@.take(s@.len() as int) =~= s@);
    }
    if cur.len() > 0 {
        let ghost before = out@;
        let ghost last = cur@;
        out.push(cur);
        proof {
            assert(char_rows(out@) =~= char_rows(before).push(last));
        }
    }
    out
}

/// The pieces of `s` between `sep` characters.
pub(crate) fn split_chars(s: &[char], sep: char) -> (out: Vec<Vec<char>>)
    ensures
        char_rows(out@) == split_on(s@, sep),
{
    let mut out: Vec<Vec<char>> = Vec::new();
    let mut cur: Vec<char> = Vec::new();
    let mut i: usize = 0;
    while i < s.len()
        invariant
            i <= s@.len(),
            (char_rows(out@), cur@) == split_scan(s@.take(i as int), sep),
        decreases s.len() - i,
    {
        proof {
            assert(s@.take(i + 1).drop_last() =~= s@.take(i as int));
        }
        let c = s[i];
        if c == sep {
            let ghost before = out@;
            let ghost last = cur@;
            out.push(cur);
            cur = Vec::new();
            proof {
                assert(char_rows(out@) =~= char_rows(before).push(last));
            }
        } else {
            cur.push(c);
        }
        i += 1;
    }
    proof {
        assert(s@.take(s@.len() as int) =~= s@);
    }
    let ghost before = out@;
    let ghost last = cur@;
    out.push(cur);
    proof {
        assert(char_rows(out@) =~= char_rows(before).push(last));
    }
    out
}

/// A word too wide for the column, broken into heads of what fits while a row remains
/// for what is left, which is returned as the word still to place.
pub open spec fn break_word(lines: Seq<Seq<char>>, word: Seq<char>, width: u16, max_lines: u16) -> (
    Seq<Seq<char>>,
    Seq<char>,
)
    decreases max_lines - lines.len(),
{
    if width_of(word) > width && lines.len() + 1 < max_lines {
        let n = fit_len(word, width as int);
        break_word(lines.push(word.take(n)), word.skip(n), width, max_lines)
    } else {
        (lines, word)
    }
}

/// Word wrapping part-way through: the lines made, the line being filled, whether
/// something did not fit, and whether the words stopped being read.
#[verifier::ext_equal]
pub struct Wrapping {
    pub lines: Seq<Seq<char>>,
    pub current: Seq<char>,
    pub overflowed: bool,
    pub stopped: bool,
}

/// One word placed. With every row used, wrapping stops and says something was lost. A
/// word wider than the column goes on a line of its own, broken into column-wide pieces
/// while rows remain. Otherwise the word joins the line being filled when the line still
/// fits with a space and the word, or starts the next line; when that was the last row,
/// wrapping stops.
pub open spec fn word_step(st: Wrapping, w: Seq<char>, width: u16, max_lines: u16) -> Wrapping {
    if st.stopped {
        st
    } else if st.lines.len() >= max_lines {
        Wrapping { overflowed: true, stopped: true, ..st }
    } else if width_of(w) > width {
        let lines = if st.current.len() > 0 {
            st.lines.push(st.current)
        } else {
            st.lines
        };
        let (broken, rest) = break_word(lines, w, width, max_lines);
        Wrapping { lines: broken, current: rest, ..st }
    } else {
        let candidate = if st.current.len() == 0 {
            w
        } else {
            st.current + seq![' '] + w
        };
        if width_of(candidate) <= width {
            Wrapping { current: candidate, ..st }
        } else if st.lines.len() + 1 >= max_lines {
            Wrapping {
                lines: st.lines.push(st.current),
                current: Seq::empty(),
                overflowed: true,
                stopped: true,
            }
        } else {
            Wrapping { lines: st.lines.push(st.current), current: w, ..st }
        }
    }
}

/// Every word of `ws` placed in order, from nothing.
pub open spec fn wrap_fold(ws: Seq<Seq<char>>, width: u16, max_lines: u16) -> Wrapping
    decreases ws.len(),
{
    if ws.len() == 0 {
        Wrapping { lines: Seq::empty(), current: Seq::empty(), overflowed: false, stopped: false }
    } else {
        word_step(wrap_fold(ws.drop_last(), width, max_lines), ws.last(), width, max_lines)
    }
}

/// The lines when the words run out: the line being filled goes last, cut to the width,
/// when a row is left for it; when something did not fit, the last line ends in ` …`, cut
/// to the width; and there is always at least one line.
pub open spec fn finish(st: Wrapping, width: u16, max_lines: u16) -> Seq<Seq<char>> {
    let lines = if st.current.len() > 0 && st.lines.len() < max_lines {
        st.lines.push(truncated(st.current, width))
    } else {
        st.lines
    };
    let overflowed = st.overflowed || (st.current.len() > 0 && st.lines.len() >= max_lines);
    let lines = if overflowed && lines.len() > 0 {
        lines.update(lines.len() - 1, truncated(lines.last() + seq![' ', '…'], width))
    } else {
        lines
    };
    if lines.len() == 0 {
        seq![Seq::empty()]
    } else {
        lines
    }
}

/// One paragraph wrapped at word boundaries into at most `max_lines` lines.
pub open spec fn wrap_line(text: Seq<char>, width: u16, max_lines: u16) -> Seq<Seq<char>> {
    finish(wrap_fold(words(text), width, max_lines), width, max_lines)
}

/// Breaking a word never fills the last row: it stops with a row to spare.
proof fn lemma_break_word_leaves_a_row(
    lines: Seq<Seq<char>>,
    word: Seq<char>,
    width: u16,
    max_lines: u16,
)
    requires
        lines.len() <= max_lines,
    ensures
        break_word(lines, word, width, max_lines).0.len() <= max_lines,
        lines.len() < max_lines ==> break_word(lines, word, width, max_lines).0.len() < max_lines,
    decreases max_lines - lines.len(),
{
    if width_of(word) > width && lines.len() + 1 < max_lines {
        let n = fit_len(word, width as int);
        lemma_break_word_leaves_a_row(lines.push(word.take(n)), word.skip(n), width, max_lines);
    }
}

/// Wrapping never makes more rows than it was given.
proof fn lemma_wrap_fold_bounded(ws: Seq<Seq<char>>, width: u16, max_lines: u16)
    ensures
        wrap_fold(ws, width, max_lines).lines.len() <= max_lines,
    decreases ws.len(),
{
    if ws.len() > 0 {
        let st = wrap_fold(ws.drop_last(), width, max_lines);
        lemma_wrap_fold_bounded(ws.drop_last(), width, max_lines);
        if !st.stopped && st.lines.len() < max_lines && width_of(ws.last()) > width {
            let lines = if st.current.len() > 0 {
                st.lines.push(st.current)
            } else {
                st.lines
            };
            lemma_break_word_leaves_a_row(lines, ws.last(), width, max_lines);
        }
    }
}

/// Once wrapping has stopped, the words left change nothing.
proof fn lemma_wrap_fold_stopped(ws: Seq<Seq<char>>, i: int, width: u16, max_lines: u16)
    requires
        0 <= i <= ws.len(),
        wrap_fold(ws.take(i), width, max_lines).stopped,
    ensures
        wrap_fold(ws, width, max_lines) == wrap_fold(ws.take(i), width, max_lines),
    decreases ws.len() - i,
{
    if i < ws.len() {
        assert(ws.take(i + 1).drop_last() =~= ws.take(i));
        lemma_wrap_fold_stopped(ws, i + 1, width, max_lines);
    } else {
        assert(ws.take(i) =~= ws);
    }
}

/// A copy of `s`.
fn copy_chars(s: &Vec<char>) -> (out: Vec<char>)
    ensures
        out@ == s@,
{
    crate::text::slice_to_vec(s.as_slice(), 0, s.len())
}

/// One paragraph wrapped at word boundaries into at most `max_lines` lines.
fn wrap_line_chars(text: &[char], width: u16, max_lines: u16) -> (out: Vec<Vec<char>>)
    requires
        width > 0,
        max_lines > 0,
    ensures
        char_rows(out@) == wrap_line(text@, width, max_lines),
{
    let ws = words_of(text);
    let ghost wv = char_rows(ws@);
    let mut lines: Vec<Vec<char>> = Vec::new();
    let mut current: Vec<char> = Vec::new();
    let mut overflowed = false;
    let mut stopped = false;
    let mut i: usize = 0;
    proof {
        assert(wv.take(0) =~= Seq::<Seq<char>>::empty());
        assert(char_rows(lines@) =~= Seq::<Seq<char>>::empty());
    }
    while i < ws.len() && !stopped
        invariant
            i <= ws@.len(),
            wv == char_rows(ws@),
            wv == words(text@),
            (Wrapping { lines: char_rows(lines@), current: current@, overflowed, stopped })
                == wrap_fold(wv.take(i as int), width, max_lines),
            width > 0,
            max_lines > 0,
        decreases ws.len() - i,
    {
        proof {
            assert(wv.take(i + 1).drop_last() =~= wv.take(i as int));
            lemma_wrap_fold_bounded(wv.take(i as int), width, max_lines);
        }
        let ghost st = Wrapping { lines: char_rows(lines@), current: current@, overflowed, stopped };
        let word = &ws[i];
        assert(word@ == wv[i as int]);
        if lines.len() >= max_lines as usize {
            overflowed = true;
            stopped = true;
        } else if width_of_chars(word.as_slice()) > width {
            if current.len() > 0 {
                let ghost before = lines@;
                lines.push(current);
                current = Vec::new();
                proof {
                    assert(char_rows(lines@) =~= char_rows(before).push(st.current));
                }
            }
            let ghost start = char_rows(lines@);
            let mut w = copy_chars(word);
            while width_of_chars(w.as_slice()) > width && lines.len() + 1 < max_lines as usize
                invariant
                    break_word(char_rows(lines@), w@, width, max_lines) == break_word(
                        start,
                        wv[i as int],
                        width,
                        max_lines,
                    ),
                    lines@.len() <= max_lines,
                    width > 0,
                decreases max_lines - lines@.len(),
            {
                let n = fitting(w.as_slice(), width);
                let head = crate::text::slice_to_vec(w.as_slice(), 0, n);
                let rest = crate::text::slice_to_vec(w.as_slice(), n, w.len());
                let ghost before = lines@;
                proof {
                    assert(head@ =~= w@.take(n as int));
                    assert(rest@ =~= w@.skip(n as int));
                }
                lines.push(head);
                proof {
                    assert(char_rows(lines@) =~= char_rows(before).push(head@));
                }
                w = rest;
            }
            current = w;
        } else {
            let candidate = if current.len() == 0 {
                copy_chars(word)
            } else {
                let mut c = copy_chars(&current);
                c.push(' ');
                crate::text::push_all(&mut c, word.as_slice());
                proof {
                    assert(c@ =~= current@ + seq![' '] + word@);
                }
                c
            };
            if width_of_chars(candidate.as_slice()) <= width {
                current = candidate;
            } else {
                let ghost before = lines@;
                lines.push(current);
                current = Vec::new();
                proof {
                    assert(char_rows(lines@) =~= char_rows(before).push(st.current));
                }
                if lines.len() >= max_lines as usize {
                    overflowed = true;
                    stopped = true;
                } else {
                    current = copy_chars(word);
                }
            }
        }
        proof {
            assert((Wrapping { lines: char_rows(lines@), current: current@, overflowed, stopped })
                =~= word_step(st, wv[i as int], width, max_lines));
        }
        i += 1;
    }
    proof {
        if stopped {
            lemma_wrap_fold_stopped(wv, i as int, width, max_lines);
        } else {
            assert(wv.take(i as int) =~= wv);
        }
        lemma_wrap_fold_bounded(wv, width, max_lines);
    }
    let ghost st = Wrapping { lines: char_rows(lines@), current: current@, overflowed, stopped };
    if current.len() > 0 {
        if lines.len() < max_lines as usize {
            let t = truncate_chars(current.as_slice(), width);
            let ghost before = lines@;
            lines.push(t);
            proof {
                assert(char_rows(lines@) =~= char_rows(before).push(truncated(st.current, width)));
            }
        } else {
            overflowed = true;
        }
    }
    if overflowed && lines.len() > 0 {
        let last = lines.len() - 1;
        let mut tail = copy_chars(&lines[last]);
        tail.push(' ');
        tail.push('…');
        let t = truncate_chars(tail.as_slice(), width);
        let ghost before = lines@;
        proof {
            assert(tail@ =~= char_rows(before).last() + seq![' ', '…']);
        }
        lines.set(last, t);
        proof {
            assert(char_rows(lines@) =~= char_rows(before).update(last as int, t@));
        }
    }
    if lines.len() == 0 {
        lines.push(Vec::new());
        proof {
            assert(char_rows(lines@) =~= seq![Seq::<char>::empty()]);
        }
    }
    lines
}

/// One paragraph placed after the lines so far: with no row left the paragraphs stop, a
/// blank one is an empty line, and any other is wrapped into the rows that remain.
pub open spec fn para_step(
    st: (Seq<Seq<char>>, bool),
    p: Seq<char>,
    width: u16,
    max_lines: u16,
) -> (Seq<Seq<char>>, bool) {
    let (lines, stopped) = st;
    if stopped {
        st
    } else if lines.len() >= max_lines {
        (lines, true)
    } else if trimmed(p).len() == 0 {
        (lines.push(Seq::empty()), false)
    } else {
        (lines + wrap_line(p, width, (max_lines - lines.len()) as u16), false)
    }
}

/// Every paragraph of `ps` placed in order, from nothing.
pub open spec fn para_fold(ps: Seq<Seq<char>>, width: u16, max_lines: u16) -> (Seq<Seq<char>>, bool)
    decreases ps.len(),
{
    if ps.len() == 0 {
        (Seq::empty(), false)
    } else {
        para_step(para_fold(ps.drop_last(), width, max_lines), ps.last(), width, max_lines)
    }
}

/// Whether a line already ends in an ellipsis.
pub open spec fn ends_lost(line: Seq<char>) -> bool {
    line.len() > 0 && line.last() == '…'
}

/// The rows, their last ending in ` …` cut to `width`, to say that paragraphs were left
/// out, unless it says so already.
pub open spec fn marked_lost(lines: Seq<Seq<char>>, width: u16) -> Seq<Seq<char>> {
    if lines.len() > 0 && !ends_lost(lines.last()) {
        lines.update(lines.len() - 1, truncated(lines.last() + seq![' ', '…'], width))
    } else {
        lines
    }
}

/// `text` wrapped at word boundaries into at most `max_lines` lines of `width` cells.
///
/// An explicit newline is a hard break, and each paragraph between them is wrapped on
/// its own into the rows left. The last line is cut and ends in ` …` when something did
/// not fit. No room gives one empty line.
pub open spec fn wrapped(text: Seq<char>, width: u16, max_lines: u16) -> Seq<Seq<char>> {
    if width == 0 || max_lines == 0 {
        seq![Seq::empty()]
    } else if text.contains('\n') {
        let (lines, stopped) = para_fold(split_on(text, '\n'), width, max_lines);
        if lines.len() == 0 {
            seq![Seq::empty()]
        } else if stopped {
            marked_lost(lines, width)
        } else {
            lines
        }
    } else {
        wrap_line(text, width, max_lines)
    }
}

/// A wrapped paragraph takes at least one row and no more than it was given.
proof fn lemma_wrap_line_bounded(text: Seq<char>, width: u16, max_lines: u16)
    requires
        max_lines > 0,
    ensures
        1 <= wrap_line(text, width, max_lines).len() <= max_lines,
{
    lemma_wrap_fold_bounded(words(text), width, max_lines);
}

proof fn lemma_para_fold_bounded(ps: Seq<Seq<char>>, width: u16, max_lines: u16)
    requires
        max_lines > 0,
    ensures
        para_fold(ps, width, max_lines).0.len() <= max_lines,
        ps.len() > 0 ==> para_fold(ps, width, max_lines).0.len() >= 1,
    decreases ps.len(),
{
    if ps.len() > 0 {
        let rest = ps.drop_last();
        lemma_para_fold_bounded(rest, width, max_lines);
        let (lines, stopped) = para_fold(rest, width, max_lines);
        if !stopped && lines.len() < max_lines && trimmed(ps.last()).len() != 0 {
            lemma_wrap_line_bounded(ps.last(), width, (max_lines - lines.len()) as u16);
        }
    }
}

/// Wrapping gives at least one line and never more than `max_lines`, when any are
/// allowed.
pub proof fn law_wrapping_caps_the_row(text: Seq<char>, width: u16, max_lines: u16)
    ensures
        wrapped(text, width, max_lines).len() >= 1,
        max_lines > 0 ==> wrapped(text, width, max_lines).len() <= max_lines,
{
    if width > 0 && max_lines > 0 {
        if text.contains('\n') {
            lemma_para_fold_bounded(split_on(text, '\n'), width, max_lines);
        } else {
            lemma_wrap_line_bounded(text, width, max_lines);
        }
    }
}

/// Whether `s` holds `c`.
fn holds_char(s: &Vec<char>, c: char) -> (r: bool)
    ensures
        r == s@.contains(c),
{
    crate::text::contains_char(s.as_slice(), c)
}

/// Wrap `text` at word boundaries into at most `max_lines` lines.
///
/// An explicit newline is a hard break. The last line is cut and ends in ` …` rather than
/// the overflow being dropped silently.
pub fn wrap(text: &str, width: u16, max_lines: u16) -> (out: Vec<String>)
    ensures
        crate::label_forms::texts(out@) == wrapped(text@, width, max_lines),
{
    let rows = wrap_chars(text, width, max_lines);
    strings_of_rows(&rows)
}

/// Rows of characters as strings.
fn strings_of_rows(rows: &Vec<Vec<char>>) -> (out: Vec<String>)
    ensures
        crate::label_forms::texts(out@) == char_rows(rows@),
{
    let mut out: Vec<String> = Vec::new();
    let mut i: usize = 0;
    while i < rows.len()
        invariant
            i <= rows@.len(),
            out@.len() == i,
            forall|k: int| 0 <= k < i ==> (#[trigger] out@[k])@ == rows@[k]@,
        decreases rows.len() - i,
    {
        out.push(string_of(rows[i].as_slice()));
        i += 1;
    }
    assert(crate::label_forms::texts(out@) =~= char_rows(rows@));
    out
}

fn wrap_chars(text: &str, width: u16, max_lines: u16) -> (out: Vec<Vec<char>>)
    ensures
        char_rows(out@) == wrapped(text@, width, max_lines),
{
    if width == 0 || max_lines == 0 {
        let mut out: Vec<Vec<char>> = Vec::new();
        out.push(Vec::new());
        assert(char_rows(out@) =~= seq![Seq::<char>::empty()]);
        return out;
    }
    let chars = chars_of(text);
    if !holds_char(&chars, '\n') {
        return wrap_line_chars(chars.as_slice(), width, max_lines);
    }
    let ps = split_chars(chars.as_slice(), '\n');
    let ghost pv = char_rows(ps@);
    let mut lines: Vec<Vec<char>> = Vec::new();
    let mut stopped = false;
    let mut i: usize = 0;
    proof {
        assert(pv.take(0) =~= Seq::<Seq<char>>::empty());
        assert(char_rows(lines@) =~= Seq::<Seq<char>>::empty());
    }
    while i < ps.len()
        invariant
            i <= ps@.len(),
            pv == char_rows(ps@),
            pv == split_on(text@, '\n'),
            (char_rows(lines@), stopped) == para_fold(pv.take(i as int), width, max_lines),
            width > 0,
            max_lines > 0,
        decreases ps.len() - i,
    {
        proof {
            assert(pv.take(i + 1).drop_last() =~= pv.take(i as int));
            lemma_para_fold_bounded(pv.take(i as int), width, max_lines);
        }
        let p = &ps[i];
        assert(p@ == pv[i as int]);
        if !stopped {
            if lines.len() >= max_lines as usize {
                stopped = true;
            } else {
                let t = crate::text::trim(p.as_slice());
                let ghost before = lines@;
                if t.len() == 0 {
                    lines.push(Vec::new());
                    proof {
                        assert(char_rows(lines@) =~= char_rows(before).push(Seq::<char>::empty()));
                    }
                } else {
                    let room = max_lines - lines.len() as u16;
                    let more = wrap_line_chars(p.as_slice(), width, room);
                    append_rows(&mut lines, more);
                }
            }
        }
        i += 1;
    }
    proof {
        assert(pv.take(i as int) =~= pv);
    }
    if lines.len() == 0 {
        lines.push(Vec::new());
        assert(char_rows(lines@) =~= seq![Seq::<char>::empty()]);
    } else if stopped {
        let last = lines.len() - 1;
        let n = lines[last].len();
        if !(n > 0 && lines[last][n - 1] == '…') {
            let mut tail = copy_chars(&lines[last]);
            tail.push(' ');
            tail.push('…');
            let t = truncate_chars(tail.as_slice(), width);
            let ghost before = lines@;
            proof {
                assert(tail@ =~= char_rows(before).last() + seq![' ', '…']);
                assert(char_rows(before).last() == before[last as int]@);
            }
            lines.set(last, t);
            proof {
                assert(char_rows(lines@) =~= char_rows(before).update(last as int, t@));
            }
        } else {
            proof {
                assert(char_rows(lines@).last() == lines@[last as int]@);
            }
        }
    }
    lines
}

/// Append every row of `more` to `rows`.
fn append_rows(rows: &mut Vec<Vec<char>>, more: Vec<Vec<char>>)
    ensures
        char_rows(final(rows)@) == char_rows(old(rows)@) + char_rows(more@),
{
    let mut more = more;
    let ghost m = char_rows(more@);
    let mut tail: Vec<Vec<char>> = Vec::new();
    // Taken from the back, then put on in order.
    while more.len() > 0
        invariant
            char_rows(more@) + char_rows(tail@).reverse() == m,
        decreases more.len(),
    {
        let ghost before_more = more@;
        let ghost before_tail = tail@;
        let r = more.pop().unwrap();
        tail.push(r);
        proof {
            assert(char_rows(more@) =~= char_rows(before_more).drop_last());
            assert(char_rows(tail@) =~= char_rows(before_tail).push(r@));
            assert(char_rows(tail@).reverse() =~= seq![r@] + char_rows(before_tail).reverse());
            assert(char_rows(before_more) =~= char_rows(more@).push(r@));
            assert(char_rows(more@) + char_rows(tail@).reverse() =~= char_rows(before_more)
                + char_rows(before_tail).reverse());
        }
    }
    let ghost start = char_rows(rows@);
    proof {
        assert(char_rows(more@) =~= Seq::<Seq<char>>::empty());
        assert(char_rows(tail@).reverse() =~= m);
    }
    while tail.len() > 0
        invariant
            char_rows(rows@) + char_rows(tail@).reverse() == start + m,
        decreases tail.len(),
    {
        let ghost before_rows = rows@;
        let ghost before_tail = tail@;
        let r = tail.pop().unwrap();
        rows.push(r);
        proof {
            assert(char_rows(tail@) =~= char_rows(before_tail).drop_last());
            assert(char_rows(before_tail).reverse() =~= seq![r@] + char_rows(tail@).reverse());
            assert(char_rows(rows@) =~= char_rows(before_rows).push(r@));
            assert(char_rows(rows@) + char_rows(tail@).reverse() =~= char_rows(before_rows)
                + char_rows(before_tail).reverse());
        }
    }
    assert(char_rows(tail@).reverse() =~= Seq::<Seq<char>>::empty());
    assert(char_rows(rows@) =~= start + m);
}

/// The width a character takes in an edit box: what it measures on its own, and never
/// less than one cell.
pub open spec fn box_cells(c: char) -> int {
    if char_cells(c) >= 1 {
        char_cells(c)
    } else {
        1
    }
}

/// A row count as a caret row: saturated at the largest `u16`.
pub open spec fn row_number(n: int) -> int {
    if n > u16::MAX {
        u16::MAX as int
    } else {
        n
    }
}

/// An edit box part-way through laying out its text: the rows made, the row being
/// filled and how many cells it takes, and where the caret was found.
#[verifier::ext_equal]
pub struct Layout {
    pub rows: Seq<Seq<char>>,
    pub current: Seq<char>,
    pub used: int,
    pub caret: (int, int),
}

/// The character at position `k` placed. A newline ends the row being filled. Any other
/// character starts a new row when it would take the row past `width`, and then joins the
/// row. The caret is found where the character at `cursor` goes.
pub open spec fn layout_step(st: Layout, c: char, k: int, width: u16, cursor: usize) -> Layout {
    if c == '\n' {
        Layout {
            rows: st.rows.push(st.current),
            current: Seq::empty(),
            used: 0,
            caret: if k == cursor {
                (row_number(st.rows.len() as int), st.used)
            } else {
                st.caret
            },
        }
    } else {
        let wrapped = st.used + box_cells(c) > width;
        let rows = if wrapped {
            st.rows.push(st.current)
        } else {
            st.rows
        };
        let current = if wrapped {
            Seq::empty()
        } else {
            st.current
        };
        let used = if wrapped {
            0
        } else {
            st.used
        };
        Layout {
            rows,
            current: current.push(c),
            used: used + box_cells(c),
            caret: if k == cursor {
                (row_number(rows.len() as int), used)
            } else {
                st.caret
            },
        }
    }
}

/// Every character of `s` placed in order, from an empty box.
pub open spec fn layout_fold(s: Seq<char>, width: u16, cursor: usize) -> Layout
    decreases s.len(),
{
    if s.len() == 0 {
        Layout { rows: Seq::empty(), current: Seq::empty(), used: 0, caret: (0, 0) }
    } else {
        layout_step(layout_fold(s.drop_last(), width, cursor), s.last(), s.len() - 1, width, cursor)
    }
}

/// All the rows of `text` character-wrapped to `width`, with the caret's row and column:
/// past the last character when the cursor is at the end.
pub open spec fn laid_out(text: Seq<char>, width: u16, cursor: usize) -> (Seq<Seq<char>>, (int, int)) {
    let st = layout_fold(text, width, cursor);
    (
        st.rows.push(st.current),
        if text.len() == cursor {
            (row_number(st.rows.len() as int), st.used)
        } else {
            st.caret
        },
    )
}

/// An edit box's rows: at most `max_lines` of them, windowed so the caret's row is the
/// last shown when it lies below, and the caret's position within that window.
pub open spec fn edit_window(text: Seq<char>, width: u16, max_lines: u16, cursor: usize) -> (
    Seq<Seq<char>>,
    (u16, u16),
) {
    if width == 0 || max_lines == 0 {
        (seq![Seq::empty()], (0, 0))
    } else {
        let (rows, caret) = laid_out(text, width, cursor);
        let first = if caret.0 > max_lines - 1 {
            caret.0 - (max_lines - 1)
        } else {
            0
        };
        let end = if first + max_lines < rows.len() {
            first + max_lines
        } else {
            rows.len() as int
        };
        (rows.subrange(first, end), ((caret.0 - first) as u16, caret.1 as u16))
    }
}

proof fn lemma_layout_fold_bounded(s: Seq<char>, width: u16, cursor: usize)
    ensures
        layout_fold(s, width, cursor).caret.0 <= layout_fold(s, width, cursor).rows.len(),
        0 <= layout_fold(s, width, cursor).caret.0 <= u16::MAX,
        0 <= layout_fold(s, width, cursor).caret.1 <= u16::MAX,
        0 <= layout_fold(s, width, cursor).used <= u16::MAX,
    decreases s.len(),
{
    if s.len() > 0 {
        lemma_layout_fold_bounded(s.drop_last(), width, cursor);
    }
}

/// The caret is always among the rows an edit box shows, and the box never shows more
/// rows than it was given.
pub proof fn law_the_caret_stays_in_the_box(text: Seq<char>, width: u16, max_lines: u16, cursor: usize)
    requires
        width > 0,
        max_lines > 0,
    ensures
        edit_window(text, width, max_lines, cursor).0.len() <= max_lines,
        edit_window(text, width, max_lines, cursor).1.0 < edit_window(text, width, max_lines, cursor).0.len(),
{
    lemma_layout_fold_bounded(text, width, cursor);
}

/// Lay a value out for an edit box, and say where the caret lands.
///
/// Character-wrapped rather than word-wrapped, so a caret offset maps to exactly one
/// cell; explicit newlines are hard breaks. Returns at most `max_lines` rows, windowed
/// so the caret is always among them, and the caret's (row, column) within that window.
pub fn edit_layout(text: &str, width: u16, max_lines: u16, cursor: usize) -> (r: (
    Vec<String>,
    (u16, u16),
))
    ensures
        (crate::label_forms::texts(r.0@), r.1) == edit_window(text@, width, max_lines, cursor),
{
    if width == 0 || max_lines == 0 {
        let mut out: Vec<String> = Vec::new();
        out.push(String::new());
        assert(crate::label_forms::texts(out@) =~= seq![Seq::<char>::empty()]);
        return (out, (0, 0));
    }
    let chars = chars_of(text);
    let mut rows: Vec<Vec<char>> = Vec::new();
    let mut current: Vec<char> = Vec::new();
    let mut used: u32 = 0;
    let mut caret: (u16, u16) = (0, 0);
    let mut k: usize = 0;
    proof {
        assert(chars@.take(0) =~= Seq::<char>::empty());
        assert(char_rows(rows@) =~= Seq::<Seq<char>>::empty());
    }
    while k < chars.len()
        invariant
            k <= chars@.len(),
            chars@ == text@,
            (Layout {
                rows: char_rows(rows@),
                current: current@,
                used: used as int,
                caret: (caret.0 as int, caret.1 as int),
            }) == layout_fold(chars@.take(k as int), width, cursor),
        decreases chars.len() - k,
    {
        proof {
            assert(chars@.take(k + 1).drop_last() =~= chars@.take(k as int));
            lemma_layout_fold_bounded(chars@.take(k as int), width, cursor);
        }
        let c = chars[k];
        let ghost before = rows@;
        let ghost cur = current@;
        if c == '\n' {
            if k == cursor {
                caret = (if rows.len() > 65535 { 65535 } else { rows.len() as u16 }, used as u16);
            }
            rows.push(current);
            current = Vec::new();
            used = 0;
            proof {
                assert(char_rows(rows@) =~= char_rows(before).push(cur));
            }
        } else {
            let cw = char_width(c);
            let w: u32 = if cw >= 1 { cw as u32 } else { 1 };
            if used + w > width as u32 {
                rows.push(current);
                current = Vec::new();
                used = 0;
                proof {
                    assert(char_rows(rows@) =~= char_rows(before).push(cur));
                }
            }
            if k == cursor {
                caret = (if rows.len() > 65535 { 65535 } else { rows.len() as u16 }, used as u16);
            }
            current.push(c);
            used = used + w;
        }
        k += 1;
    }
    proof {
        assert(chars@.take(k as int) =~= chars@);
        lemma_layout_fold_bounded(chars@, width, cursor);
    }
    if chars.len() == cursor {
        caret = (if rows.len() > 65535 { 65535 } else { rows.len() as u16 }, used as u16);
    }
    let ghost before = rows@;
    let ghost cur = current@;
    rows.push(current);
    proof {
        assert(char_rows(rows@) =~= char_rows(before).push(cur));
    }
    let max = max_lines as usize;
    let first: usize = if caret.0 as usize > max - 1 { caret.0 as usize - (max - 1) } else { 0 };
    let end: usize = if first + max < rows.len() { first + max } else { rows.len() };
    let mut window: Vec<String> = Vec::new();
    let mut i: usize = first;
    while i < end
        invariant
            first <= i <= end <= rows@.len(),
            window@.len() == i - first,
            forall|j: int| 0 <= j < window@.len() ==> (#[trigger] window@[j])@ == rows@[first + j]@,
        decreases end - i,
    {
        window.push(string_of(rows[i].as_slice()));
        i += 1;
    }
    proof {
        assert(crate::label_forms::texts(window@) =~= char_rows(rows@).subrange(
            first as int,
            end as int,
        ));
    }
    (window, (caret.0 - first as u16, caret.1))
}

/// The narrowest a column is ever squeezed to.
pub const FLOOR: u16 = 4;

/// One column, measured.
#[derive(Debug, Clone, PartialEq, Eq)]
pub struct MeasuredColumn {
    /// Which field.
    pub column: Column,
    /// Its heading.
    pub heading: String,
    /// How wide it is drawn.
    pub width: u16,
    /// Whether its text wraps.
    pub wrap: bool,
}

/// The width a column asks for when its layout names no minimum.
pub open spec fn natural_min(column: Column) -> u16 {
    match column {
        Column::Title => 20,
        Column::Project | Column::Assignees | Column::Created | Column::Updated => 10,
        Column::Labels | Column::Identifier => 8,
        Column::DueDate | Column::StartDate => 11,
        Column::Priority | Column::Status | Column::PercentDone => 4,
    }
}

/// The width a column asks for before any space is shared out: its share of `available`
/// when it names a percentage (at most the whole), else its minimum or its field's
/// natural one; never below its minimum, and never above its maximum.
pub open spec fn want(spec: ColumnSpec, available: u16) -> int {
    let base = match spec.width_percent {
        Some(p) => {
            let product = available * (if p < 100 {
                p as int
            } else {
                100
            });
            (if product > u16::MAX {
                u16::MAX as int
            } else {
                product
            }) / 100
        },
        None => match spec.min_width {
            Some(m) => m as int,
            None => natural_min(spec.column) as int,
        },
    };
    let least = match spec.min_width {
        Some(m) => m as int,
        None => 0,
    };
    let base = if base >= least {
        base
    } else {
        least
    };
    match spec.max_width {
        Some(m) => if base <= m {
            base
        } else {
            m as int
        },
        None => base,
    }
}

/// The sum of some widths.
pub open spec fn sum_of(w: Seq<int>) -> int
    decreases w.len(),
{
    if w.len() == 0 {
        0
    } else {
        sum_of(w.drop_last()) + w.last()
    }
}

/// The cells some columns take side by side: their widths and a gap between each two.
pub open spec fn total_of(w: Seq<int>) -> int {
    sum_of(w) + if w.len() > 0 {
        GAP * (w.len() - 1)
    } else {
        0
    }
}

/// Whether a column shows the title.
pub open spec fn is_title_at(cols: Seq<ColumnSpec>) -> spec_fn(usize) -> bool {
    |i: usize| cols[i as int].column == Column::Title
}

/// Whether a column names no maximum.
pub open spec fn is_flexible_at(cols: Seq<ColumnSpec>) -> spec_fn(usize) -> bool {
    |i: usize| cols[i as int].max_width is None
}

/// The last position of `kept` that is not the title, or the first when every one is.
pub open spec fn droppable(cols: Seq<ColumnSpec>, kept: Seq<usize>) -> int
    decreases kept.len(),
{
    if kept.len() == 0 {
        0
    } else if cols[kept.last() as int].column != Column::Title {
        kept.len() - 1
    } else {
        droppable(cols, kept.drop_last())
    }
}

/// The column to drop is one of those kept, and it is the title only when every kept
/// column is.
pub proof fn lemma_droppable_in(cols: Seq<ColumnSpec>, kept: Seq<usize>)
    ensures
        kept.len() > 0 ==> 0 <= droppable(cols, kept) < kept.len(),
        kept.len() > 0 && cols[kept[droppable(cols, kept)] as int].column == Column::Title ==> forall|
            k: int,
        | 0 <= k < kept.len() ==> cols[#[trigger] kept[k] as int].column == Column::Title,
    decreases kept.len(),
{
    if kept.len() > 0 {
        lemma_droppable_in(cols, kept.drop_last());
        if cols[kept.last() as int].column == Column::Title && kept.len() > 1 {
            let d = droppable(cols, kept.drop_last());
            assert(kept[d] == kept.drop_last()[d]);
            if cols[kept[d] as int].column == Column::Title {
                assert forall|k: int| 0 <= k < kept.len() implies cols[#[trigger] kept[k] as int].column
                    == Column::Title by {
                    if k < kept.len() - 1 {
                        assert(kept[k] == kept.drop_last()[k]);
                        assert(cols[kept.drop_last()[k] as int].column == Column::Title);
                    }
                }
            }
        }
    }
}

/// Columns dropped from the right until their widths fit in `available`, keeping the
/// title, and never the last one.
pub open spec fn drop_phase(cols: Seq<ColumnSpec>, kept: Seq<usize>, w: Seq<int>, available: u16) -> (
    Seq<usize>,
    Seq<int>,
)
    decreases kept.len(),
{
    if kept.len() > 1 && total_of(w) > available {
        let d = droppable(cols, kept);
        proof {
            lemma_droppable_in(cols, kept);
        }
        drop_phase(cols, kept.remove(d), w.remove(d), available)
    } else {
        (kept, w)
    }
}

/// Whether a column may still grow past width `w`.
pub open spec fn growable(spec: ColumnSpec, w: int) -> bool {
    match spec.max_width {
        Some(m) => w < m,
        None => true,
    }
}

/// What a column grows by when each growable column is offered `share`: all of it, or
/// what its maximum leaves room for.
pub open spec fn room(spec: ColumnSpec, w: int, share: int) -> int {
    if !growable(spec, w) {
        0
    } else {
        match spec.max_width {
            Some(m) => if share <= m - w {
                share
            } else {
                m - w
            },
            None => share,
        }
    }
}

/// How many of the kept columns may still grow.
pub open spec fn growable_count(cols: Seq<ColumnSpec>, kept: Seq<usize>, w: Seq<int>) -> int
    decreases kept.len(),
{
    if kept.len() == 0 {
        0
    } else {
        growable_count(cols, kept.drop_last(), w) + if growable(
            cols[kept.last() as int],
            w[kept.len() - 1],
        ) {
            1int
        } else {
            0int
        }
    }
}

/// What each kept column grows by.
pub open spec fn rooms(cols: Seq<ColumnSpec>, kept: Seq<usize>, w: Seq<int>, share: int) -> Seq<int> {
    Seq::new(w.len(), |j: int| room(cols[kept[j] as int], w[j], share))
}

/// Where the space no maximum holds back goes: the title when it names no maximum, else
/// the first column that names none, else nowhere.
pub open spec fn slack_target(cols: Seq<ColumnSpec>, kept: Seq<usize>) -> int {
    let t = first_where(kept, is_title_at(cols));
    if t < kept.len() && cols[kept[t] as int].max_width is None {
        t
    } else {
        first_where(kept, is_flexible_at(cols))
    }
}

/// The columns kept, as positions in the layout, and their widths.
///
/// Every column first asks for what it wants. Columns are dropped from the right, the
/// title never, until the rest fit; a lone column that still does not fit is squeezed to
/// the space, or to `FLOOR`. What space is left is shared equally among the columns that
/// can still grow, up to their maximums, and what no maximum holds back goes to the title,
/// or to the first column with no maximum.
pub open spec fn measured(cols: Seq<ColumnSpec>, available: u16) -> (Seq<usize>, Seq<int>) {
    if cols.len() == 0 || available == 0 {
        (Seq::empty(), Seq::empty())
    } else {
        let kept0 = Seq::new(cols.len(), |i: int| i as usize);
        let w0 = Seq::new(cols.len(), |i: int| want(cols[i], available));
        let (kept, w1) = drop_phase(cols, kept0, w0, available);
        let w2 = if total_of(w1) > available {
            w1.update(0, if available >= FLOOR { available as int } else { FLOOR as int })
        } else {
            w1
        };
        let spare = available - total_of(w2);
        if spare <= 0 {
            (kept, w2)
        } else {
            let n = growable_count(cols, kept, w2);
            let (w3, left) = if n > 0 {
                let r = rooms(cols, kept, w2, spare / n);
                (Seq::new(w2.len(), |j: int| w2[j] + r[j]), spare - sum_of(r))
            } else {
                (w2, spare)
            };
            let t = slack_target(cols, kept);
            if left > 0 && t < kept.len() {
                (kept, w3.update(t, w3[t] + left))
            } else {
                (kept, w3)
            }
        }
    }
}

/// Whether every column's first ask, with the gaps, fits in a `u16`.
pub open spec fn asks_fit(cols: Seq<ColumnSpec>, available: u16) -> bool {
    total_of(asks_of(cols, available)) <= u16::MAX
}

/// What each column asks for first.
pub open spec fn asks_of(cols: Seq<ColumnSpec>, available: u16) -> Seq<int> {
    Seq::new(cols.len(), |i: int| want(cols[i], available))
}

/// A sum of naturals is at least the sum of any prefix.
proof fn lemma_sum_prefix(w: Seq<int>, k: int)
    requires
        0 <= k <= w.len(),
        forall|i: int| 0 <= i < w.len() ==> w[i] >= 0,
    ensures
        sum_of(w.take(k)) <= sum_of(w),
    decreases w.len() - k,
{
    if k < w.len() {
        lemma_sum_prefix(w, k + 1);
        assert(w.take(k + 1).drop_last() =~= w.take(k));
    } else {
        assert(w.take(k) =~= w);
    }
}

/// Whether `measure` can lay out `layout` in `available` cells: whether every column's
/// first ask, with the gaps, fits in a `u16`.
pub fn measurable(layout: &ColumnLayout, available: u16) -> (r: bool)
    ensures
        r == asks_fit(layout.columns@, available),
{
    let cols = &layout.columns;
    let ghost asks = asks_of(cols@, available);
    let mut total: u64 = 0;
    let mut i: usize = 0;
    while i < cols.len()
        invariant
            i <= cols@.len(),
            asks == asks_of(cols@, available),
            cols@ == layout.columns@,
            total == sum_of(asks.take(i as int)),
            total <= 65535,
        decreases cols.len() - i,
    {
        proof {
            assert(asks.take(i + 1).drop_last() =~= asks.take(i as int));
        }
        let w = want_of(&cols[i], available);
        assert(asks[i as int] == w);
        assert(sum_of(asks.take(i + 1)) == sum_of(asks.take(i as int)) + w);
        total = total + w as u64;
        i += 1;
        if total > 65535 {
            proof {
                assert forall|k: int| 0 <= k < asks.len() implies asks[k] >= 0 by {
                    assert(want(cols@[k], available) >= 0);
                }
                lemma_sum_prefix(asks, i as int);
                assert(sum_of(asks) > 65535);
                assert(total_of(asks) >= sum_of(asks));
                assert(!asks_fit(layout.columns@, available));
            }
            return false;
        }
    }
    proof {
        assert(asks.take(i as int) =~= asks);
    }
    let gaps: u64 = if cols.len() > 0 {
        if cols.len() - 1 > 65535 {
            proof {
                assert forall|k: int| 0 <= k < asks.len() implies asks[k] >= 0 by {
                    assert(want(cols@[k], available) >= 0);
                }
                lemma_sum_prefix(asks, 0);
                assert(asks.take(0) =~= Seq::<int>::empty());
                assert(total_of(asks) >= cols@.len() - 1);
            }
            return false;
        }
        (cols.len() - 1) as u64
    } else {
        0
    };
    assert(GAP == 1);
    total + gaps <= u16::MAX as u64
}

/// Some `u16` widths, as integers.
pub open spec fn ints(w: Seq<u16>) -> Seq<int> {
    w.map_values(|x: u16| x as int)
}

proof fn lemma_sum_remove(w: Seq<int>, d: int)
    requires
        0 <= d < w.len(),
    ensures
        sum_of(w.remove(d)) == sum_of(w) - w[d],
    decreases w.len(),
{
    if d < w.len() - 1 {
        lemma_sum_remove(w.drop_last(), d);
        assert(w.remove(d).drop_last() =~= w.drop_last().remove(d));
    } else {
        assert(w.remove(d) =~= w.drop_last());
    }
}

proof fn lemma_sum_update(w: Seq<int>, j: int, v: int)
    requires
        0 <= j < w.len(),
    ensures
        sum_of(w.update(j, v)) == sum_of(w) - w[j] + v,
    decreases w.len(),
{
    if j < w.len() - 1 {
        lemma_sum_update(w.drop_last(), j, v);
        assert(w.update(j, v).drop_last() =~= w.drop_last().update(j, v));
    } else {
        assert(w.update(j, v).drop_last() =~= w.drop_last());
    }
}

proof fn lemma_sum_bounds(w: Seq<int>)
    requires
        forall|k: int| 0 <= k < w.len() ==> w[k] >= 0,
    ensures
        sum_of(w) >= 0,
        forall|k: int| 0 <= k < w.len() ==> #[trigger] w[k] <= sum_of(w),
    decreases w.len(),
{
    if w.len() > 0 {
        lemma_sum_bounds(w.drop_last());
        assert forall|k: int| 0 <= k < w.len() implies #[trigger] w[k] <= sum_of(w) by {
            if k < w.len() - 1 {
                assert(w[k] == w.drop_last()[k]);
            }
        }
    }
}

proof fn lemma_sum_pointwise(w: Seq<int>, r: Seq<int>)
    requires
        w.len() == r.len(),
    ensures
        sum_of(Seq::new(w.len(), |j: int| w[j] + r[j])) == sum_of(w) + sum_of(r),
    decreases w.len(),
{
    if w.len() > 0 {
        lemma_sum_pointwise(w.drop_last(), r.drop_last());
        assert(Seq::new(w.len(), |j: int| w[j] + r[j]).drop_last() =~= Seq::new(
            w.drop_last().len(),
            |j: int| w.drop_last()[j] + r.drop_last()[j],
        ));
    }
}

/// The rooms offered to the first `j` columns add up to no more than one share per
/// growable column among them.
proof fn lemma_rooms_prefix(cols: Seq<ColumnSpec>, kept: Seq<usize>, w: Seq<int>, share: int, j: int)
    requires
        0 <= j <= w.len(),
        kept.len() == w.len(),
        share >= 0,
    ensures
        0 <= sum_of(rooms(cols, kept, w, share).take(j)) <= growable_count(cols, kept.take(j), w)
            * share,
        growable_count(cols, kept.take(j), w) >= 0,
    decreases j,
{
    if j > 0 {
        lemma_rooms_prefix(cols, kept, w, share, j - 1);
        let r = rooms(cols, kept, w, share);
        assert(r.take(j).drop_last() =~= r.take(j - 1));
        assert(kept.take(j).drop_last() =~= kept.take(j - 1));
        let c = growable_count(cols, kept.take(j - 1), w);
        if growable(cols[kept[j - 1] as int], w[j - 1]) {
            assert((c + 1) * share == c * share + share) by (nonlinear_arith);
        }
    }
}

proof fn lemma_prefix_sum_le(w: Seq<int>, k: int)
    requires
        0 <= k <= w.len(),
        forall|i: int| 0 <= i < w.len() ==> w[i] >= 0,
    ensures
        sum_of(w.take(k)) <= sum_of(w),
    decreases w.len(),
{
    if k < w.len() {
        assert(w.drop_last().take(k) =~= w.take(k));
        lemma_prefix_sum_le(w.drop_last(), k);
    } else {
        assert(w.take(k) =~= w);
    }
}

/// The widths of `widths` added up, with a gap between each two.
fn total(widths: &[u16], count: usize) -> (t: u16)
    requires
        count == widths@.len(),
        total_of(ints(widths@)) <= u16::MAX,
    ensures
        t == total_of(ints(widths@)),
{
    let ghost w = ints(widths@);
    let mut sum: u32 = 0;
    let mut i: usize = 0;
    proof {
        lemma_sum_bounds(w);
    }
    while i < widths.len()
        invariant
            i <= widths@.len(),
            w == ints(widths@),
            sum == sum_of(w.take(i as int)),
            sum_of(w) <= u16::MAX,
        decreases widths.len() - i,
    {
        proof {
            assert(w.take(i + 1).drop_last() =~= w.take(i as int));
            lemma_prefix_sum_le(w, i + 1);
        }
        sum = sum + widths[i] as u32;
        i += 1;
    }
    proof {
        assert(w.take(i as int) =~= w);
    }
    let gaps: u32 = if count > 0 { GAP as u32 * (count - 1) as u32 } else { 0 };
    (sum + gaps) as u16
}

fn natural_min_of(column: Column) -> (w: u16)
    ensures
        w == natural_min(column),
{
    match column {
        Column::Title => 20,
        Column::Project | Column::Assignees | Column::Created | Column::Updated => 10,
        Column::Labels | Column::Identifier => 8,
        Column::DueDate | Column::StartDate => 11,
        Column::Priority | Column::Status | Column::PercentDone => 4,
    }
}

/// What one column asks for.
fn want_of(spec: &ColumnSpec, available: u16) -> (w: u16)
    ensures
        w == want(*spec, available),
{
    let base: u16 = match spec.width_percent {
        Some(p) => {
            let pct: u32 = if p < 100 { p as u32 } else { 100 };
            assert(available as u32 * pct <= 65535 * 100) by (nonlinear_arith)
                requires
                    pct <= 100,
            ;
            let product: u32 = available as u32 * pct;
            let capped: u32 = if product > 65535 { 65535 } else { product };
            (capped / 100) as u16
        },
        None => match spec.min_width {
            Some(m) => m,
            None => natural_min_of(spec.column),
        },
    };
    let least: u16 = match spec.min_width {
        Some(m) => m,
        None => 0,
    };
    let base = if base >= least { base } else { least };
    match spec.max_width {
        Some(m) => if base <= m { base } else { m },
        None => base,
    }
}

/// Where the column to drop stands among those kept.
fn drop_position(cols: &Vec<ColumnSpec>, kept: &Vec<usize>) -> (d: usize)
    requires
        forall|k: int| 0 <= k < kept@.len() ==> #[trigger] kept@[k] < cols@.len(),
    ensures
        d == droppable(cols@, kept@),
{
    let mut i: usize = kept.len();
    proof {
        assert(kept@.take(i as int) =~= kept@);
    }
    while i > 0 && cols[kept[i - 1]].column == Column::Title
        invariant
            i <= kept@.len(),
            forall|k: int| 0 <= k < kept@.len() ==> #[trigger] kept@[k] < cols@.len(),
            droppable(cols@, kept@) == droppable(cols@, kept@.take(i as int)),
        decreases i,
    {
        proof {
            assert(kept@.take(i as int).drop_last() =~= kept@.take(i - 1));
        }
        i -= 1;
    }
    if i == 0 {
        0
    } else {
        i - 1
    }
}

/// Where the first kept column satisfying the test stands.
fn first_title_position(cols: &Vec<ColumnSpec>, kept: &Vec<usize>) -> (t: usize)
    requires
        forall|k: int| 0 <= k < kept@.len() ==> #[trigger] kept@[k] < cols@.len(),
    ensures
        t == first_where(kept@, is_title_at(cols@)),
{
    let mut i: usize = 0;
    while i < kept.len()
        invariant
            i <= kept@.len(),
            forall|k: int| 0 <= k < kept@.len() ==> #[trigger] kept@[k] < cols@.len(),
            forall|k: int| 0 <= k < i ==> !is_title_at(cols@)(#[trigger] kept@[k]),
        decreases kept.len() - i,
    {
        if cols[kept[i]].column == Column::Title {
            proof {
                crate::label_forms::lemma_first_where_is(kept@, is_title_at(cols@), i as int);
            }
            return i;
        }
        i += 1;
    }
    proof {
        crate::label_forms::lemma_first_where_is(kept@, is_title_at(cols@), i as int);
    }
    i
}

fn first_flexible_position(cols: &Vec<ColumnSpec>, kept: &Vec<usize>) -> (t: usize)
    requires
        forall|k: int| 0 <= k < kept@.len() ==> #[trigger] kept@[k] < cols@.len(),
    ensures
        t == first_where(kept@, is_flexible_at(cols@)),
{
    let mut i: usize = 0;
    while i < kept.len()
        invariant
            i <= kept@.len(),
            forall|k: int| 0 <= k < kept@.len() ==> #[trigger] kept@[k] < cols@.len(),
            forall|k: int| 0 <= k < i ==> !is_flexible_at(cols@)(#[trigger] kept@[k]),
        decreases kept.len() - i,
    {
        if cols[kept[i]].max_width.is_none() {
            proof {
                crate::label_forms::lemma_first_where_is(kept@, is_flexible_at(cols@), i as int);
            }
            return i;
        }
        i += 1;
    }
    proof {
        crate::label_forms::lemma_first_where_is(kept@, is_flexible_at(cols@), i as int);
    }
    i
}

fn growable_now(spec: &ColumnSpec, w: u16) -> (r: bool)
    ensures
        r == growable(*spec, w as int),
{
    match spec.max_width {
        Some(m) => w < m,
        None => true,
    }
}

fn count_growable(cols: &Vec<ColumnSpec>, kept: &Vec<usize>, widths: &Vec<u16>) -> (n: usize)
    requires
        kept@.len() == widths@.len(),
        forall|k: int| 0 <= k < kept@.len() ==> #[trigger] kept@[k] < cols@.len(),
    ensures
        n == growable_count(cols@, kept@, ints(widths@)),
        n <= kept@.len(),
{
    let mut n: usize = 0;
    let mut i: usize = 0;
    while i < kept.len()
        invariant
            i <= kept@.len(),
            kept@.len() == widths@.len(),
            forall|k: int| 0 <= k < kept@.len() ==> #[trigger] kept@[k] < cols@.len(),
            n == growable_count(cols@, kept@.take(i as int), ints(widths@)),
            n <= i,
        decreases kept.len() - i,
    {
        proof {
            assert(kept@.take(i + 1).drop_last() =~= kept@.take(i as int));
        }
        if growable_now(&cols[kept[i]], widths[i]) {
            n += 1;
        }
        i += 1;
    }
    proof {
        assert(kept@.take(i as int) =~= kept@);
    }
    n
}

/// Share `available` columns of terminal out between the layout's columns.
///
/// Minimums first, then maximums are respected, then whatever is left goes to the columns
/// that can still grow, with the title taking the remainder. When even the minimums do
/// not fit, columns are dropped from the right rather than squeezed into illegibility;
/// the title is never dropped.
#[verifier::rlimit(40)]
pub fn measure(layout: &ColumnLayout, available: u16) -> (out: Vec<MeasuredColumn>)
    requires
        asks_fit(layout.columns@, available),
    ensures
        out@.len() == measured(layout.columns@, available).0.len(),
        forall|j: int|
            0 <= j < out@.len() ==> {
                let i = measured(layout.columns@, available).0[j] as int;
                &&& (#[trigger] out@[j]).column == layout.columns@[i].column
                &&& out@[j].heading@ == heading_text(layout.columns@[i])
                &&& out@[j].width == measured(layout.columns@, available).1[j]
                &&& out@[j].wrap == layout.columns@[i].wrap
            },
{
    let cols = &layout.columns;
    let ghost cs = cols@;
    if cols.len() == 0 || available == 0 {
        return Vec::new();
    }
    let n = cols.len();
    let mut kept = crate::modal::every_index(n);
    let mut widths: Vec<u16> = Vec::new();
    let mut i: usize = 0;
    while i < n
        invariant
            i <= n,
            n == cs.len(),
            cs == cols@,
            widths@.len() == i,
            forall|k: int| 0 <= k < i ==> #[trigger] widths@[k] as int == want(cs[k], available),
        decreases n - i,
    {
        widths.push(want_of(&cols[i], available));
        i += 1;
    }
    let ghost kept0 = kept@;
    let ghost w0 = ints(widths@);
    proof {
        assert(w0 =~= Seq::new(cs.len(), |i: int| want(cs[i], available)));
        assert(kept0 =~= Seq::new(cs.len(), |i: int| i as usize));
    }
    while kept.len() > 1 && total(widths.as_slice(), kept.len()) > available
        invariant
            kept@.len() == widths@.len(),
            kept@.len() >= 1,
            cs == cols@,
            forall|k: int| 0 <= k < kept@.len() ==> #[trigger] kept@[k] < cs.len(),
            drop_phase(cs, kept@, ints(widths@), available) == drop_phase(cs, kept0, w0, available),
            total_of(ints(widths@)) <= u16::MAX,
        decreases kept.len(),
    {
        let d = drop_position(cols, &kept);
        let ghost wb = ints(widths@);
        let ghost kb = kept@;
        proof {
            lemma_droppable_in(cs, kept@);
            lemma_sum_remove(wb, d as int);
        }
        kept.remove(d);
        widths.remove(d);
        proof {
            assert(ints(widths@) =~= wb.remove(d as int));
            assert forall|k: int| 0 <= k < kept@.len() implies #[trigger] kept@[k] < cs.len() by {
                if k < d {
                    assert(kept@[k] == kb[k]);
                } else {
                    assert(kept@[k] == kb[k + 1]);
                }
            }
        }
    }
    let ghost dp = drop_phase(cs, kept0, w0, available);
    assert(kept@ == dp.0 && ints(widths@) == dp.1);
    if total(widths.as_slice(), kept.len()) > available {
        let v: u16 = if available >= FLOOR { available } else { FLOOR };
        let ghost wb = ints(widths@);
        widths.set(0, v);
        proof {
            assert(ints(widths@) =~= wb.update(0, v as int));
            assert(ints(widths@).drop_last() =~= Seq::<int>::empty());
            reveal_with_fuel(sum_of, 2);
        }
    }
    let ghost w2 = ints(widths@);
    assert(w2 == (if total_of(dp.1) > available {
        dp.1.update(0, if available >= FLOOR { available as int } else { FLOOR as int })
    } else {
        dp.1
    }));
    let t2 = total(widths.as_slice(), kept.len());
    let mut spare: u16 = if available > t2 { available - t2 } else { 0 };
    proof {
        lemma_sum_bounds(w2);
    }
    if spare > 0 {
        let ghost spare0 = spare as int;
        let count = count_growable(cols, &kept, &widths);
        let ghost r = rooms(cs, kept@, w2, if count > 0 { spare0 / (count as int) } else { 0 });
        if count > 0 {
            assert(kept@.len() <= u16::MAX);
            let share: u16 = spare / (count as u16);
            assert(share as int == spare0 / (count as int));
            assert(share <= spare0) by (nonlinear_arith)
                requires
                    share as int == spare0 / (count as int),
                    count > 0,
                    spare0 >= 0,
            ;
            assert(count * share <= spare0) by (nonlinear_arith)
                requires
                    share as int == spare0 / (count as int),
                    count > 0,
                    spare0 >= 0,
            ;
            let mut j: usize = 0;
            while j < kept.len()
                invariant
                    j <= kept@.len(),
                    kept@.len() == widths@.len(),
                    w2.len() == kept@.len(),
                    cs == cols@,
                    forall|k: int| 0 <= k < kept@.len() ==> #[trigger] kept@[k] < cs.len(),
                    r == rooms(cs, kept@, w2, share as int),
                    ints(widths@) == Seq::new(
                        w2.len(),
                        |k: int| if k < j { w2[k] + r[k] } else { w2[k] },
                    ),
                    spare == spare0 - sum_of(r.take(j as int)),
                    count == growable_count(cs, kept@, w2),
                    count * share <= spare0,
                    share <= spare0,
                    spare0 == available - total_of(w2),
                    forall|k: int| 0 <= k < w2.len() ==> #[trigger] w2[k] <= sum_of(w2),
                    sum_of(w2) <= total_of(w2),
                decreases kept.len() - j,
            {
                proof {
                    lemma_rooms_prefix(cs, kept@, w2, share as int, j + 1);
                    assert(r.take(j + 1).drop_last() =~= r.take(j as int));
                    lemma_growable_prefix(cs, kept@, w2, j + 1);
                }
                let ghost wb = ints(widths@);
                let spec = &cols[kept[j]];
                let here = widths[j];
                proof {
                    let g = growable_count(cs, kept@.take(j + 1), w2);
                    assert(g * share <= count * share) by (nonlinear_arith)
                        requires
                            g <= count,
                            share >= 0,
                    ;
                    assert(ints(widths@)[j as int] == widths@[j as int] as int);
                    assert(here == w2[j as int]);
                    assert(r[j as int] == room(cs[kept@[j as int] as int], w2[j as int], share as int));
                    assert(w2[j as int] <= sum_of(w2));
                }
                if growable_now(spec, here) {
                    let rm: u16 = match spec.max_width {
                        Some(m) => if share <= m - here { share } else { m - here },
                        None => share,
                    };
                    widths.set(j, here + rm);
                    spare = spare - rm;
                }
                proof {
                    let want_now = Seq::new(
                        w2.len(),
                        |k: int| if k < j + 1 { w2[k] + r[k] } else { w2[k] },
                    );
                    assert forall|k: int| 0 <= k < w2.len() implies ints(widths@)[k] == want_now[k] by {
                        if k != j {
                            assert(ints(widths@)[k] == wb[k]);
                        } else if !growable(cs[kept@[j as int] as int], w2[j as int]) {
                            assert(r[k] == 0);
                            assert(ints(widths@)[k] == wb[k]);
                        }
                    }
                    assert(ints(widths@) =~= want_now);
                }
                j += 1;
            }
            proof {
                assert(ints(widths@) =~= Seq::new(w2.len(), |k: int| w2[k] + r[k]));
                assert(r.take(j as int) =~= r);
                lemma_sum_pointwise(w2, r);
            }
        }
        let ghost w3 = ints(widths@);
        proof {
            lemma_sum_bounds(w3);
        }
        if spare > 0 {
            let t = first_title_position(cols, &kept);
            let target = if t < kept.len() && cols[kept[t]].max_width.is_none() {
                t
            } else {
                first_flexible_position(cols, &kept)
            };
            if target < kept.len() {
                let ghost wb = ints(widths@);
                let v = widths[target] + spare;
                widths.set(target, v);
                proof {
                    assert(ints(widths@) =~= wb.update(target as int, wb[target as int] + spare));
                }
            }
        }
    }
    let mut out: Vec<MeasuredColumn> = Vec::new();
    let mut j: usize = 0;
    while j < kept.len()
        invariant
            j <= kept@.len(),
            kept@.len() == widths@.len(),
            cs == cols@,
            forall|k: int| 0 <= k < kept@.len() ==> #[trigger] kept@[k] < cs.len(),
            out@.len() == j,
            forall|k: int|
                0 <= k < j ==> {
                    let i = kept@[k] as int;
                    &&& (#[trigger] out@[k]).column == cs[i].column
                    &&& out@[k].heading@ == heading_text(cs[i])
                    &&& out@[k].width == widths@[k]
                    &&& out@[k].wrap == cs[i].wrap
                },
        decreases kept.len() - j,
    {
        let spec = &cols[kept[j]];
        out.push(
            MeasuredColumn {
                column: spec.column,
                heading: spec.heading(),
                width: widths[j],
                wrap: spec.wrap,
            },
        );
        j += 1;
    }
    proof {
        assert(kept@ == measured(cs, available).0);
        assert(ints(widths@) == measured(cs, available).1);
    }
    out
}

proof fn lemma_growable_prefix(cols: Seq<ColumnSpec>, kept: Seq<usize>, w: Seq<int>, j: int)
    requires
        0 <= j <= kept.len(),
    ensures
        0 <= growable_count(cols, kept.take(j), w) <= growable_count(cols, kept, w),
    decreases kept.len(),
{
    if j < kept.len() {
        assert(kept.drop_last().take(j) =~= kept.take(j));
        lemma_growable_prefix(cols, kept.drop_last(), w, j);
        lemma_growable_nonneg(cols, kept.drop_last(), w);
    } else {
        assert(kept.take(j) =~= kept);
        lemma_growable_nonneg(cols, kept, w);
    }
}

proof fn lemma_growable_nonneg(cols: Seq<ColumnSpec>, kept: Seq<usize>, w: Seq<int>)
    ensures
        growable_count(cols, kept, w) >= 0,
    decreases kept.len(),
{
    if kept.len() > 0 {
        lemma_growable_nonneg(cols, kept.drop_last(), w);
    }
}

/// Whether some kept column shows the title.
pub open spec fn keeps_title(cols: Seq<ColumnSpec>, kept: Seq<usize>) -> bool {
    exists|k: int| 0 <= k < kept.len() && cols[#[trigger] kept[k] as int].column == Column::Title
}

/// Dropping leaves at least one column, the title among them when it was there, and
/// either a lone column or columns that fit.
proof fn lemma_drop_phase(cols: Seq<ColumnSpec>, kept: Seq<usize>, w: Seq<int>, available: u16)
    requires
        kept.len() == w.len(),
        kept.len() >= 1,
        forall|k: int| 0 <= k < w.len() ==> w[k] >= 0,
    ensures
        drop_phase(cols, kept, w, available).0.len() == drop_phase(cols, kept, w, available).1.len(),
        drop_phase(cols, kept, w, available).0.len() >= 1,
        drop_phase(cols, kept, w, available).0.len() == 1 || total_of(
            drop_phase(cols, kept, w, available).1,
        ) <= available,
        forall|k: int|
            0 <= k < drop_phase(cols, kept, w, available).1.len() ==> #[trigger] drop_phase(
                cols,
                kept,
                w,
                available,
            ).1[k] >= 0,
        keeps_title(cols, kept) ==> keeps_title(cols, drop_phase(cols, kept, w, available).0),
    decreases kept.len(),
{
    if kept.len() > 1 && total_of(w) > available {
        let d = droppable(cols, kept);
        lemma_droppable_in(cols, kept);
        let k2 = kept.remove(d);
        let w2 = w.remove(d);
        assert forall|k: int| 0 <= k < w2.len() implies w2[k] >= 0 by {
            if k < d {
                assert(w2[k] == w[k]);
            } else {
                assert(w2[k] == w[k + 1]);
            }
        }
        if keeps_title(cols, kept) {
            let t = choose|t: int| 0 <= t < kept.len() && cols[#[trigger] kept[t] as int].column
                == Column::Title;
            if cols[kept[d] as int].column == Column::Title {
                assert(cols[k2[0] as int].column == Column::Title) by {
                    if d == 0 {
                        assert(k2[0] == kept[1]);
                    } else {
                        assert(k2[0] == kept[0]);
                    }
                }
            } else if t < d {
                assert(k2[t] == kept[t]);
            } else {
                assert(k2[t - 1] == kept[t]);
            }
        }
        lemma_drop_phase(cols, k2, w2, available);
    }
}

/// The title is never dropped: whenever the layout has a title column, the measured
/// columns keep it.
pub proof fn law_the_title_is_never_dropped(cols: Seq<ColumnSpec>, available: u16)
    requires
        available > 0,
        cols.len() <= usize::MAX,
        exists|i: int| 0 <= i < cols.len() && (#[trigger] cols[i]).column == Column::Title,
    ensures
        keeps_title(cols, measured(cols, available).0),
{
    let i = choose|i: int| 0 <= i < cols.len() && (#[trigger] cols[i]).column == Column::Title;
    let kept0 = Seq::new(cols.len(), |i: int| i as usize);
    let w0 = Seq::new(cols.len(), |i: int| want(cols[i], available));
    assert(cols[kept0[i] as int].column == Column::Title);
    assert forall|k: int| 0 <= k < w0.len() implies w0[k] >= 0 by {
        lemma_want_nonneg(cols[k], available);
    }
    lemma_drop_phase(cols, kept0, w0, available);
}

/// Whether column indices stand in the layout's order, each naming one of its `n` columns.
pub open spec fn in_layout_order(kept: Seq<usize>, n: int) -> bool {
    &&& forall|a: int, b: int| 0 <= a < b < kept.len() ==> #[trigger] kept[a] < #[trigger] kept[b]
    &&& forall|a: int| 0 <= a < kept.len() ==> #[trigger] kept[a] < n
}

/// Dropping columns keeps the rest in the layout's order.
proof fn lemma_drop_phase_in_order(cols: Seq<ColumnSpec>, kept: Seq<usize>, w: Seq<int>, available: u16)
    requires
        in_layout_order(kept, cols.len() as int),
    ensures
        in_layout_order(drop_phase(cols, kept, w, available).0, cols.len() as int),
    decreases kept.len(),
{
    if kept.len() > 1 && total_of(w) > available {
        let d = droppable(cols, kept);
        lemma_droppable_in(cols, kept);
        let rest = kept.remove(d);
        assert forall|a: int, b: int| 0 <= a < b < rest.len() implies #[trigger] rest[a] < #[trigger] rest[b] by {
            let a2 = if a < d { a } else { a + 1 };
            let b2 = if b < d { b } else { b + 1 };
            assert(rest[a] == kept[a2] && rest[b] == kept[b2]);
        }
        assert forall|a: int| 0 <= a < rest.len() implies #[trigger] rest[a] < cols.len() by {
            let a2 = if a < d { a } else { a + 1 };
            assert(rest[a] == kept[a2]);
        }
        lemma_drop_phase_in_order(cols, rest, w.remove(d), available);
    }
}

/// The measured columns keep the layout's order: dropping a column never moves another.
pub proof fn law_the_columns_keep_their_order(cols: Seq<ColumnSpec>, available: u16)
    requires
        cols.len() <= usize::MAX,
    ensures
        in_layout_order(measured(cols, available).0, cols.len() as int),
{
    if cols.len() > 0 && available > 0 {
        let kept0 = Seq::new(cols.len(), |i: int| i as usize);
        let w0 = Seq::new(cols.len(), |i: int| want(cols[i], available));
        lemma_drop_phase_in_order(cols, kept0, w0, available);
    }
}

/// Whether a column stays within the maximum its layout names, when it names one.
pub open spec fn within_maximum(spec: ColumnSpec, w: int) -> bool {
    spec.max_width matches Some(m) ==> w <= m
}

/// Dropping columns keeps each remaining width the one its column asked for.
proof fn lemma_drop_phase_wants(cols: Seq<ColumnSpec>, kept: Seq<usize>, w: Seq<int>, available: u16)
    requires
        kept.len() == w.len(),
        in_layout_order(kept, cols.len() as int),
        forall|j: int| 0 <= j < w.len() ==> #[trigger] w[j] == want(cols[kept[j] as int], available),
    ensures
        forall|j: int|
            0 <= j < drop_phase(cols, kept, w, available).1.len() ==> #[trigger] drop_phase(
                cols,
                kept,
                w,
                available,
            ).1[j] == want(cols[drop_phase(cols, kept, w, available).0[j] as int], available),
    decreases kept.len(),
{
    if kept.len() > 1 && total_of(w) > available {
        let d = droppable(cols, kept);
        lemma_droppable_in(cols, kept);
        let k2 = kept.remove(d);
        let w2 = w.remove(d);
        assert forall|j: int| 0 <= j < w2.len() implies #[trigger] w2[j] == want(cols[k2[j] as int], available) by {
            if j < d {
                assert(w2[j] == w[j] && k2[j] == kept[j]);
            } else {
                assert(w2[j] == w[j + 1] && k2[j] == kept[j + 1]);
            }
        }
        lemma_drop_phase_in_order(cols, kept, w, available);
        assert forall|a: int, b: int| 0 <= a < b < k2.len() implies #[trigger] k2[a] < #[trigger] k2[b] by {
            let a2 = if a < d { a } else { a + 1 };
            let b2 = if b < d { b } else { b + 1 };
            assert(k2[a] == kept[a2] && k2[b] == kept[b2]);
        }
        assert forall|a: int| 0 <= a < k2.len() implies #[trigger] k2[a] < cols.len() by {
            let a2 = if a < d { a } else { a + 1 };
            assert(k2[a] == kept[a2]);
        }
        lemma_drop_phase_wants(cols, k2, w2, available);
        assert(drop_phase(cols, kept, w, available) == drop_phase(cols, k2, w2, available));
    } else {
        assert(drop_phase(cols, kept, w, available) == (kept, w));
    }
}

/// No measured column is wider than the maximum its layout names, given room for at least
/// `FLOOR` cells: with less, a lone column is squeezed to `FLOOR` whatever it names.
pub proof fn law_no_column_outgrows_its_maximum(cols: Seq<ColumnSpec>, available: u16)
    requires
        available >= FLOOR,
        cols.len() <= usize::MAX,
    ensures
        forall|j: int|
            0 <= j < measured(cols, available).1.len() ==> within_maximum(
                cols[measured(cols, available).0[j] as int],
                #[trigger] measured(cols, available).1[j],
            ),
{
    if cols.len() > 0 {
        let kept0 = Seq::new(cols.len(), |i: int| i as usize);
        let w0 = Seq::new(cols.len(), |i: int| want(cols[i], available));
        assert forall|k: int| 0 <= k < w0.len() implies w0[k] >= 0 by {
            lemma_want_nonneg(cols[k], available);
        }
        lemma_drop_phase(cols, kept0, w0, available);
        lemma_drop_phase_in_order(cols, kept0, w0, available);
        lemma_drop_phase_wants(cols, kept0, w0, available);
        let (kept, w1) = drop_phase(cols, kept0, w0, available);
        assert forall|j: int| 0 <= j < w1.len() implies within_maximum(cols[kept[j] as int], #[trigger] w1[j]) by {
            assert(w1[j] == want(cols[kept[j] as int], available));
        }
        let w2 = if total_of(w1) > available {
            w1.update(0, if available >= FLOOR { available as int } else { FLOOR as int })
        } else {
            w1
        };
        if total_of(w1) > available {
            assert(w1.len() == 1);
            assert(sum_of(w1) == w1[0]) by {
                reveal_with_fuel(sum_of, 2);
            }
        }
        assert forall|j: int| 0 <= j < w2.len() implies within_maximum(cols[kept[j] as int], #[trigger] w2[j]) by {
            assert(within_maximum(cols[kept[j] as int], w1[j]));
        }
        let spare = available - total_of(w2);
        if spare > 0 {
            let n = growable_count(cols, kept, w2);
            let (w3, left) = if n > 0 {
                let r = rooms(cols, kept, w2, spare / n);
                (Seq::new(w2.len(), |j: int| w2[j] + r[j]), spare - sum_of(r))
            } else {
                (w2, spare)
            };
            if n > 0 {
                let r = rooms(cols, kept, w2, spare / n);
                assert(spare / n >= 0) by (nonlinear_arith)
                    requires spare > 0, n > 0;
                assert forall|j: int| 0 <= j < w3.len() implies within_maximum(cols[kept[j] as int], #[trigger] w3[j]) by {
                    assert(within_maximum(cols[kept[j] as int], w2[j]));
                    assert(w3[j] == w2[j] + r[j]);
                }
            }
            let t = slack_target(cols, kept);
            assert(w3.len() == kept.len());
            lemma_first_where(kept, is_title_at(cols));
            lemma_first_where(kept, is_flexible_at(cols));
            if left > 0 && t < kept.len() {
                let w4 = w3.update(t, w3[t] + left);
                lemma_first_where(kept, is_flexible_at(cols));
                assert(cols[kept[t] as int].max_width is None);
                assert forall|j: int| 0 <= j < w4.len() implies within_maximum(cols[kept[j] as int], #[trigger] w4[j]) by {
                    if j != t {
                        assert(w4[j] == w3[j]);
                    }
                }
            }
        }
    }
}

proof fn lemma_want_nonneg(spec: ColumnSpec, available: u16)
    ensures
        want(spec, available) >= 0,
{
    match spec.width_percent {
        Some(p) => {
            let pct: int = if p < 100 { p as int } else { 100 };
            assert(available * pct >= 0) by (nonlinear_arith)
                requires
                    pct >= 0,
            ;
        },
        None => {},
    }
}

/// Measured columns fit the terminal: with room for at least `FLOOR` cells their widths
/// and gaps never take more than `available`, and all of it whenever a kept column names
/// no maximum.
pub proof fn law_the_columns_fill_the_width(cols: Seq<ColumnSpec>, available: u16)
    requires
        available >= FLOOR,
        cols.len() > 0,
        cols.len() <= usize::MAX,
    ensures
        total_of(measured(cols, available).1) <= available,
        (exists|j: int|
            0 <= j < measured(cols, available).0.len() && cols[#[trigger] measured(
                cols,
                available,
            ).0[j] as int].max_width is None) ==> total_of(measured(cols, available).1)
            == available,
{
    let kept0 = Seq::new(cols.len(), |i: int| i as usize);
    let w0 = Seq::new(cols.len(), |i: int| want(cols[i], available));
    assert forall|k: int| 0 <= k < w0.len() implies w0[k] >= 0 by {
        lemma_want_nonneg(cols[k], available);
    }
    lemma_drop_phase(cols, kept0, w0, available);
    let dp = drop_phase(cols, kept0, w0, available);
    let kept = dp.0;
    let w1 = dp.1;
    let w2 = if total_of(w1) > available {
        w1.update(0, available as int)
    } else {
        w1
    };
    if total_of(w1) > available {
        assert(w1.len() == 1);
        assert(w2.drop_last() =~= Seq::<int>::empty());
        reveal_with_fuel(sum_of, 2);
        assert(total_of(w2) == available);
    }
    assert forall|k: int| 0 <= k < w2.len() implies w2[k] >= 0 by {}
    lemma_sum_bounds(w2);
    let spare = available - total_of(w2);
    if spare > 0 {
        let n = growable_count(cols, kept, w2);
        lemma_growable_nonneg(cols, kept, w2);
        let t = slack_target(cols, kept);
        crate::label_forms::lemma_first_where(kept, is_flexible_at(cols));
        crate::label_forms::lemma_first_where(kept, is_title_at(cols));
        let share = if n > 0 { spare / n } else { 0 };
        let r = rooms(cols, kept, w2, share);
        let (w3, left) = if n > 0 {
            (Seq::new(w2.len(), |j: int| w2[j] + r[j]), spare - sum_of(r))
        } else {
            (w2, spare)
        };
        if n > 0 {
            assert(n * share <= spare) by (nonlinear_arith)
                requires
                    share == spare / n,
                    n > 0,
                    spare >= 0,
            ;
            lemma_rooms_prefix(cols, kept, w2, share, w2.len() as int);
            assert(r.take(w2.len() as int) =~= r);
            assert(kept.take(w2.len() as int) =~= kept);
            lemma_sum_pointwise(w2, r);
        }
        assert(w3.len() == kept.len());
        assert(total_of(w3) + left == available);
        assert(left >= 0);
        if exists|j: int| 0 <= j < kept.len() && cols[#[trigger] kept[j] as int].max_width is None {
            let j = choose|j: int| 0 <= j < kept.len() && cols[#[trigger] kept[j] as int].max_width
                is None;
            crate::label_forms::lemma_first_where(kept, is_flexible_at(cols));
            crate::label_forms::lemma_first_where(kept, is_title_at(cols));
            assert(is_flexible_at(cols)(kept[j]));
            assert(first_where(kept, is_flexible_at(cols)) <= j);
        }
        if left > 0 && t < kept.len() {
            lemma_sum_update(w3, t, w3[t] + left);
        }
        assert(measured(cols, available).1 == (if left > 0 && t < kept.len() {
            w3.update(t, w3[t] + left)
        } else {
            w3
        }));
    } else {
        assert(measured(cols, available).1 == w2);
    }
}

/// How tall a row is from how many lines each of its cells took: the tallest, at least
/// one line and at most `MAX_ROW_LINES`.
pub open spec fn row_height_of(lines: Seq<usize>) -> int {
    let tallest = if lines.len() == 0 {
        1
    } else {
        lines[first_where(indices(lines.len()), taller_than_all(lines))] as int
    };
    if tallest < 1 {
        1
    } else if tallest > MAX_ROW_LINES {
        MAX_ROW_LINES as int
    } else {
        tallest
    }
}

/// Whether position `i` of `lines` holds a count no other position exceeds.
pub open spec fn taller_than_all(lines: Seq<usize>) -> spec_fn(int) -> bool {
    |i: int| forall|k: int| 0 <= k < lines.len() ==> lines[k] <= lines[i]
}

/// How tall a row is, from how many lines each of its cells took.
pub fn height_of(lines: &[usize]) -> (h: u16)
    ensures
        h == row_height_of(lines@),
        1 <= h <= MAX_ROW_LINES,
{
    if lines.len() == 0 {
        return 1;
    }
    let mut best: usize = 0;
    let mut i: usize = 1;
    while i < lines.len()
        invariant
            1 <= i <= lines@.len(),
            best < i,
            forall|k: int| 0 <= k < i ==> lines@[k] <= lines@[best as int],
            forall|k: int| 0 <= k < best ==> lines@[k] < lines@[best as int],
        decreases lines.len() - i,
    {
        if lines[i] > lines[best] {
            best = i;
        }
        i += 1;
    }
    proof {
        let ix = indices(lines@.len());
        let p = taller_than_all(lines@);
        assert forall|k: int| 0 <= k < best implies !p(#[trigger] ix[k]) by {
            assert(lines@[k] < lines@[best as int]);
        }
        assert(p(ix[best as int]));
        crate::label_forms::lemma_first_where_is(ix, p, best as int);
    }
    let tallest = lines[best];
    if tallest < 1 {
        1
    } else if tallest > MAX_ROW_LINES as usize {
        MAX_ROW_LINES
    } else {
        tallest as u16
    }
}

/// How many lines rows `a` up to `b` of `heights` take.
pub open spec fn span(heights: Seq<u16>, a: int, b: int) -> int {
    sum_of(ints(heights).subrange(a, b))
}

/// Every row height is what a row can be: one line at least, `MAX_ROW_LINES` at most.
pub open spec fn row_heights(heights: Seq<u16>) -> bool {
    forall|k: int| 0 <= k < heights.len() ==> 1 <= #[trigger] heights[k] <= MAX_ROW_LINES
}

proof fn lemma_span_step(heights: Seq<u16>, a: int, b: int)
    requires
        0 <= a <= b < heights.len(),
    ensures
        span(heights, a, b + 1) == span(heights, a, b) + heights[b],
{
    assert(ints(heights).subrange(a, b + 1).drop_last() =~= ints(heights).subrange(a, b));
}

proof fn lemma_span_front(heights: Seq<u16>, a: int, b: int)
    requires
        0 < a <= b <= heights.len(),
    ensures
        span(heights, a - 1, b) == heights[a - 1] + span(heights, a, b),
    decreases b - a,
{
    if b == a {
        assert(ints(heights).subrange(a - 1, b).drop_last() =~= Seq::<int>::empty());
        assert(ints(heights).subrange(a, b) =~= Seq::<int>::empty());
    } else {
        lemma_span_front(heights, a, b - 1);
        lemma_span_step(heights, a - 1, b - 1);
        lemma_span_step(heights, a, b - 1);
    }
}

proof fn lemma_span_nonneg(heights: Seq<u16>, a: int, b: int)
    requires
        0 <= a <= b <= heights.len(),
    ensures
        span(heights, a, b) >= 0,
    decreases b - a,
{
    if a < b {
        lemma_span_nonneg(heights, a, b - 1);
        lemma_span_step(heights, a, b - 1);
    }
}

/// Whether `n` rows, from row `first`, are what fits in `height` lines: never none, since a
/// row taller than the screen still counts as one; and otherwise as many whole rows as
/// fit, stopping at the first that would overflow. Past the last row, one.
pub open spec fn fits(heights: Seq<u16>, first: int, height: int, n: int) -> bool {
    if first >= heights.len() {
        n == 1
    } else {
        &&& 1 <= n <= heights.len() - first
        &&& (n == 1 || span(heights, first, first + n) <= height)
        &&& (first + n < heights.len() ==> span(heights, first, first + n + 1) > height)
    }
}

/// Whether `f` is the largest offset that still shows row `index` in full in `height`
/// lines: walking back from it, adding rows while they fit. The row at `index` is kept
/// whatever its height; past the last row, the walk starts from the last, and when that
/// alone does not fit the offset stays at `index`.
pub open spec fn shows(heights: Seq<u16>, index: int, height: int, f: int) -> bool {
    if index < heights.len() {
        &&& 0 <= f <= index
        &&& (f == index || span(heights, f, index + 1) <= height)
        &&& (f == 0 || span(heights, f - 1, index + 1) > height)
    } else if heights.len() == 0 || heights[heights.len() - 1] > height {
        f == index
    } else {
        &&& 0 <= f < heights.len()
        &&& span(heights, f, heights.len() as int) <= height
        &&& (f == 0 || span(heights, f - 1, heights.len() as int) > height)
    }
}

/// How many whole rows fit in `height` lines, starting at row `first`.
pub fn fit_heights(heights: &[u16], first: usize, height: u16) -> (n: usize)
    requires
        row_heights(heights@),
        height <= u16::MAX - MAX_ROW_LINES,
    ensures
        fits(heights@, first as int, height as int, n as int),
{
    if first >= heights.len() {
        return 1;
    }
    let mut used: u16 = 0;
    let mut count: usize = 0;
    let mut i: usize = first;
    while i < heights.len() && (count == 0 || used + heights[i] <= height)
        invariant
            row_heights(heights@),
            height <= u16::MAX - MAX_ROW_LINES,
            first < heights@.len(),
            i <= heights@.len(),
            i == first + count,
            used == span(heights@, first as int, i as int),
            count == 0 ==> used == 0,
            count == 1 ==> used <= MAX_ROW_LINES,
            count > 1 ==> used <= height,
        decreases heights.len() - i,
    {
        proof {
            lemma_span_step(heights@, first as int, i as int);
        }
        used = used + heights[i];
        count += 1;
        i += 1;
    }
    proof {
        if i < heights@.len() {
            lemma_span_step(heights@, first as int, i as int);
        }
    }
    if count > 1 {
        count
    } else {
        1
    }
}

/// The largest offset that still shows row `index` in full: walking back from it,
/// adding rows while they fit in `height` lines. The row at `index` is kept whatever its
/// height; past the last row, the walk starts from the last, and when that alone does not
/// fit the offset stays at `index`.
pub fn first_visible_heights(heights: &[u16], index: usize, height: u16) -> (f: usize)
    requires
        row_heights(heights@),
        height <= u16::MAX - MAX_ROW_LINES,
    ensures
        shows(heights@, index as int, height as int, f as int),
{
    let len = heights.len();
    let end: usize = if index < len { index + 1 } else { len };
    if end == 0 {
        return index;
    }
    let mut used: u16 = 0;
    let mut first: usize = index;
    let mut c: usize = end;
    // The row at `index` itself is taken whatever it measures.
    if index < len {
        used = heights[index];
        first = index;
        c = index;
        proof {
            assert(ints(heights@).subrange(index as int, index + 1).drop_last() =~= Seq::<int>::empty());
            reveal_with_fuel(sum_of, 2);
        }
    }
    while c > 0 && used + heights[c - 1] <= height
        invariant
            row_heights(heights@),
            height <= u16::MAX - MAX_ROW_LINES,
            end <= heights@.len(),
            c <= end,
            end == (if index < heights@.len() { index + 1 } else { heights@.len() as int }),
            used == span(heights@, c as int, end as int),
            c < end ==> first == c,
            c < end ==> used >= heights@[end - 1],
            c == end ==> first == index && used == 0,
            index < heights@.len() ==> c <= index && first == c,
            used <= height || (index < heights@.len() && c == index && used <= MAX_ROW_LINES),
        decreases c,
    {
        proof {
            lemma_span_front(heights@, c as int, end as int);
        }
        used = used + heights[c - 1];
        c -= 1;
        first = c;
    }
    proof {
        if c > 0 {
            lemma_span_front(heights@, c as int, end as int);
        }
    }
    first
}

/// Adding rows never takes fewer lines.
proof fn lemma_span_grows(heights: Seq<u16>, a: int, b: int, c: int)
    requires
        0 <= a <= b <= c <= heights.len(),
    ensures
        span(heights, a, b) <= span(heights, a, c),
    decreases c - b,
{
    if b < c {
        lemma_span_grows(heights, a, b, c - 1);
        lemma_span_step(heights, a, c - 1);
    }
}

/// The selection stays on screen: when the list starts at the offset `first_visible` gives
/// for the selected row, the rows `fit` counts from there include that row.
pub proof fn law_the_selection_stays_on_screen(heights: Seq<u16>, index: int, height: int, f: int, n: int)
    requires
        row_heights(heights),
        0 <= index < heights.len(),
        shows(heights, index, height, f),
        fits(heights, f, height, n),
    ensures
        f <= index < f + n,
{
    if f + n <= index {
        lemma_span_grows(heights, f, f + n + 1, index + 1);
    }
}

} // verus!
