//! What the screen says around the task list: the breadcrumb, the sync state, the message
//! for an empty list, a sidebar line, and the small pieces the forms are drawn from.
//!
//! Each returns the spans to paint; the terminal only paints them.
use crate::drawing::{ago, ago_text, fit, fitted_line, lemma_width_prefix, spaces, spans_width, wide_width};
use crate::keymap::{chord_chars, chord_text};
use crate::model::Level;
use crate::text::{decimal, decimal_of};
use crate::grid::{line_views, Span};
use crate::label_forms::LabelsState;
use crate::sidebar::{SidebarRow, SidebarTarget};
use crate::text::{display_width, width_of};
use crate::label_forms::{first_where, lemma_first_where_is};
use crate::modal::TextInput;
use crate::model::{project_with_id, Model, Scope, SyncStatus};
use crate::models::{Label, Project, Task};
use crate::dates::{on_calendar, relative_date, relative_text, valid_offset};
use crate::grid::{dated_sanely, join_names, joined};
use crate::plain::{plain_of, plain_text};
use crate::rows::{char_rows, split_chars, split_on, wrap, wrapped};
use crate::theme::{label_style, priority_style};
use crate::rows::{truncate, truncated};
use crate::text::{chars_of, push_all, signed_decimal, signed_decimal_of, string_of};
use crate::theme::{
    accent_color, border_color, focus_color, idle_color, muted_color, overdue_color,
    plain_style, soon_color, with_modifier, ColorDepth, Modifier, Style, Theme,
};
use vstd::prelude::*;

verus! {

/// Whether a label has the id `id`.
pub open spec fn label_with_id(id: i64) -> spec_fn(Label) -> bool {
    |l: Label| l.id == id
}

/// What the list is showing, in words: the scope's name, a project by its title and a
/// label by its title after `#`, or by id when the model does not hold it.
pub open spec fn breadcrumb_text(scope: Scope, projects: Seq<Project>, labels: Seq<Label>) -> Seq<char> {
    match scope {
        Scope::All => "All tasks"@,
        Scope::Favorites => "Favorites"@,
        Scope::Project(id) => {
            let k = first_where(projects, project_with_id(id));
            if k < projects.len() {
                projects[k].title@
            } else {
                "Project "@ + signed_decimal(id as int)
            }
        },
        Scope::Label(id) => {
            let k = first_where(labels, label_with_id(id));
            if k < labels.len() {
                "#"@ + labels[k].title@
            } else {
                "Label "@ + signed_decimal(id as int)
            }
        },
    }
}

/// `prefix` and the decimal of `id`.
fn with_number(prefix: &str, id: i64) -> (s: String)
    ensures
        s@ == prefix@ + signed_decimal(id as int),
{
    let mut out = chars_of(prefix);
    let digits = signed_decimal_of(id);
    push_all(&mut out, digits.as_slice());
    string_of(out.as_slice())
}

/// What the list is showing, in words.
pub fn breadcrumb(model: &Model) -> (s: String)
    ensures
        s@ == breadcrumb_text(model.query.scope, model.data.projects@, model.data.labels@),
{
    match model.query.scope {
        Scope::All => String::from_str("All tasks"),
        Scope::Favorites => String::from_str("Favorites"),
        Scope::Project(id) => match model.project(id) {
            Some(project) => project.title.clone(),
            None => with_number("Project ", id),
        },
        Scope::Label(id) => {
            let labels = &model.data.labels;
            let mut k: usize = 0;
            while k < labels.len()
                invariant
                    k <= labels@.len(),
                    forall|j: int| 0 <= j < k ==> !label_with_id(id)(#[trigger] labels@[j]),
                ensures
                    k <= labels@.len(),
                    forall|j: int| 0 <= j < k ==> !label_with_id(id)(#[trigger] labels@[j]),
                    k < labels@.len() ==> label_with_id(id)(labels@[k as int]),
                decreases labels.len() - k,
            {
                if labels[k].id == id {
                    break;
                }
                k += 1;
            }
            proof {
                lemma_first_where_is(labels@, label_with_id(id), k as int);
            }
            if k < labels.len() {
                let mut out: Vec<char> = Vec::new();
                out.push('#');
                let t = chars_of(labels[k].title.as_str());
                push_all(&mut out, t.as_slice());
                proof {
                    assert(out@ =~= "#"@ + labels@[k as int].title@) by {
                        reveal_strlit("#");
                    }
                }
                string_of(out.as_slice())
            } else {
                with_number("Label ", id)
            }
        },
    }
}

/// Secondary text at a depth.
pub open spec fn muted_at(depth: ColorDepth) -> Style {
    Style { fg: Some(muted_color(depth)), ..plain_style() }
}

/// The accent at a depth.
pub open spec fn accent_at(depth: ColorDepth) -> Style {
    Style { fg: Some(accent_color(depth)), ..plain_style() }
}

/// Errors at a depth.
pub open spec fn error_at(depth: ColorDepth) -> Style {
    Style { fg: Some(overdue_color(depth)), ..plain_style() }
}

/// Whether the time since the last sync is one the status line can say.
pub open spec fn sync_age_sayable(m: Model) -> bool {
    m.status.last_sync matches Some(at) ==> i64::MIN <= m.now - at <= i64::MAX - 1800
}

/// What sync is doing, as the header's right-hand end says it: the detail of a pass in
/// progress, in the accent; the failure, cut to 30 cells, as an error; and otherwise how
/// long ago the last pass finished, or that none has, muted.
pub open spec fn sync_spans(m: Model) -> Seq<(Seq<char>, Style)> {
    let depth = m.theme.depth();
    match m.status.sync {
        SyncStatus::Working { detail } => seq![("⟳ "@ + detail@ + " "@, accent_at(depth))],
        SyncStatus::Failed { message } => seq![
            ("⚠ offline — "@ + truncated(message@, 30) + " "@, error_at(depth)),
        ],
        SyncStatus::Idle => seq![
            (
                match m.status.last_sync {
                    Some(at) => "⟳ synced "@ + ago_text((m.now - at) as i64) + " "@,
                    None => "⟳ not synced yet "@,
                },
                muted_at(depth),
            ),
        ],
    }
}

/// `a`, `b` and `c` run together.
fn joined3(a: &str, b: &str, c: &str) -> (s: String)
    ensures
        s@ == a@ + b@ + c@,
{
    let mut out = chars_of(a);
    let bc = chars_of(b);
    push_all(&mut out, bc.as_slice());
    let cc = chars_of(c);
    push_all(&mut out, cc.as_slice());
    string_of(out.as_slice())
}

/// The right-hand end of the header: what sync is doing.
pub fn sync_indicator(model: &Model) -> (spans: Vec<Span>)
    requires
        sync_age_sayable(*model),
    ensures
        line_views(spans@) == sync_spans(*model),
{
    let theme = model.theme;
    let mut spans: Vec<Span> = Vec::new();
    match &model.status.sync {
        SyncStatus::Working { detail } => {
            let text = joined3("⟳ ", detail.as_str(), " ");
            spans.push(Span { text, style: theme.accent() });
        },
        SyncStatus::Failed { message } => {
            let cut = truncate(message.as_str(), 30);
            let text = joined3("⚠ offline — ", cut.as_str(), " ");
            spans.push(Span { text, style: theme.error() });
        },
        SyncStatus::Idle => {
            let text = match model.status.last_sync {
                Some(at) => {
                    let when = ago(model.now - at);
                    joined3("⟳ synced ", when.as_str(), " ")
                },
                None => String::from_str("⟳ not synced yet "),
            };
            spans.push(Span { text, style: theme.muted() });
        },
    }
    proof {
        assert(line_views(spans@) =~= sync_spans(*model));
    }
    spans
}

/// What an empty list says instead of rows: the store's failure when there was one;
/// nothing when there are tasks; and otherwise whether the list is still loading, matches
/// no search, or has no tasks open, with the key that shows completed ones.
pub open spec fn empty_text(m: Model) -> Option<Seq<char>> {
    match m.data.error {
        Some(e) => Some("Could not read the local store: "@ + e@),
        None => if m.data.tasks@.len() > 0 {
            None
        } else if m.data.loading {
            Some("Loading…"@)
        } else if m.query.search is Some {
            Some("Nothing matches that search."@)
        } else if m.query.include_done {
            Some("No tasks here."@)
        } else {
            Some("No open tasks here. Press t to include completed ones."@)
        },
    }
}

/// What an empty list says instead of rows.
pub fn empty_message(model: &Model) -> (s: Option<String>)
    ensures
        match s {
            Some(t) => empty_text(*model) == Some(t@),
            None => empty_text(*model) is None,
        },
{
    if let Some(error) = &model.data.error {
        let mut out = chars_of("Could not read the local store: ");
        let e = chars_of(error.as_str());
        push_all(&mut out, e.as_slice());
        return Some(string_of(out.as_slice()));
    }
    if model.data.tasks.len() > 0 {
        return None;
    }
    Some(
        if model.data.loading {
            String::from_str("Loading…")
        } else if model.query.search.is_some() {
            String::from_str("Nothing matches that search.")
        } else if model.query.include_done {
            String::from_str("No tasks here.")
        } else {
            String::from_str("No open tasks here. Press t to include completed ones.")
        },
    )
}

/// `n` spaces.
pub open spec fn blanks(n: nat) -> Seq<char> {
    Seq::new(n, |i: int| ' ')
}

/// A field name padded to ten characters, then its value: the preview's detail lines.
pub open spec fn field_spans(name: Seq<char>, value: Seq<char>, depth: ColorDepth) -> Seq<
    (Seq<char>, Style),
> {
    seq![
        (name + blanks(if name.len() < 10 { (10 - name.len()) as nat } else { 0 }), muted_at(depth)),
        (value, plain_style()),
    ]
}

/// One detail line of the preview: the field's name, muted and padded, then its value.
pub fn field(name: &str, value: &str, theme: Theme) -> (spans: Vec<Span>)
    ensures
        line_views(spans@) == field_spans(name@, value@, theme.depth()),
{
    let mut label = chars_of(name);
    let n = label.len();
    let mut i = n;
    while i < 10
        invariant
            n == name@.len(),
            n <= i <= 10 || (n > 10 && i == n),
            label@ == name@ + blanks((i - n) as nat),
        decreases 10 - i,
    {
        label.push(' ');
        i += 1;
        assert(label@ =~= name@ + blanks((i - n) as nat));
    }
    proof {
        if n >= 10 {
            assert(label@ =~= name@ + blanks(0));
        }
    }
    let mut spans: Vec<Span> = Vec::new();
    spans.push(Span { text: string_of(label.as_slice()), style: theme.muted() });
    spans.push(Span { text: string_of(chars_of(value).as_slice()), style: theme.text() });
    proof {
        assert(line_views(spans@) =~= field_spans(name@, value@, theme.depth()));
    }
    spans
}

/// A form value: ordinary text, underlined while its field has the keyboard.
pub fn value_style(theme: Theme, focused: bool) -> (s: Style)
    ensures
        s == if focused {
            with_modifier(plain_style(), Modifier::Underlined)
        } else {
            plain_style()
        },
{
    if focused {
        theme.text().add_modifier(Modifier::Underlined)
    } else {
        theme.text()
    }
}

/// A one-line prompt: an accented `> `, then what has been typed.
pub fn input_line(input: &TextInput, theme: Theme) -> (spans: Vec<Span>)
    ensures
        line_views(spans@) == seq![("> "@, accent_at(theme.depth())), (input@.value, plain_style())],
{
    let mut spans: Vec<Span> = Vec::new();
    spans.push(Span { text: String::from_str("> "), style: theme.accent() });
    spans.push(Span { text: input.value(), style: theme.text() });
    proof {
        assert(line_views(spans@) =~= seq![
            ("> "@, accent_at(theme.depth())),
            (input@.value, plain_style()),
        ]);
    }
    spans
}

/// A heading or a section title: muted, in bold.
pub open spec fn heading_at(depth: ColorDepth) -> Style {
    with_modifier(muted_at(depth), Modifier::Bold)
}

/// The selected row: a bright background in bold where the keyboard is, a quiet one
/// elsewhere.
pub open spec fn selected_at(depth: ColorDepth, focused: bool) -> Style {
    if focused {
        with_modifier(Style { bg: Some(focus_color(depth)), ..plain_style() }, Modifier::Bold)
    } else {
        Style { bg: Some(idle_color(depth)), ..plain_style() }
    }
}

/// `a` less `b`, or nothing when `b` is more.
pub open spec fn less(a: int, b: int) -> int {
    if a > b {
        a - b
    } else {
        0
    }
}

/// The marker before a project: whether it has children, and whether they are hidden.
pub open spec fn marker_text(has_children: bool, collapsed: bool) -> Seq<char> {
    if has_children {
        if collapsed {
            "▸ "@
        } else {
            "▾ "@
        }
    } else {
        "  "@
    }
}

/// The open count at the right of a project, with a space either side, or two spaces.
pub open spec fn count_text(open: int) -> Seq<char> {
    if open > 0 {
        " "@ + signed_decimal(open) + " "@
    } else {
        "  "@
    }
}

/// One sidebar line: the spans to draw and, for the selected row, the style the whole
/// line is painted in. A project's title is indented by its depth, marked, cut to the
/// room its count leaves, padded, and followed by the count; the selected row is drawn in
/// the selection style throughout, and any other's count is muted.
pub open spec fn sidebar_spans(
    row: SidebarRow,
    selected: SidebarTarget,
    depth: ColorDepth,
    focused: bool,
    width: u16,
) -> (Seq<(Seq<char>, Style)>, Option<Style>) {
    match row {
        SidebarRow::Heading(text) => (seq![(text@, heading_at(depth))], None),
        SidebarRow::Target { target, title, open, depth: level, has_children, collapsed } => {
            let indent = blanks((2 * level) as nat);
            let marker = marker_text(has_children, collapsed);
            let count = count_text(open as int);
            let room = less(
                less(less(width as int, width_of(indent) as int), width_of(marker) as int),
                width_of(count) as int,
            );
            let label = truncated(title@, room as u16);
            let pad = less(room, width_of(label) as int);
            let is_selected = selected == target;
            let base = if is_selected {
                selected_at(depth, focused)
            } else {
                plain_style()
            };
            (
                seq![
                    (indent + marker + label, base),
                    (blanks(pad as nat), base),
                    (count, if is_selected { base } else { muted_at(depth) }),
                ],
                if is_selected {
                    Some(base)
                } else {
                    None
                },
            )
        },
    }
}

/// `n` spaces.
fn blank_chars(n: usize) -> (out: Vec<char>)
    ensures
        out@ == blanks(n as nat),
{
    let mut out: Vec<char> = Vec::new();
    let mut i: usize = 0;
    while i < n
        invariant
            i <= n,
            out@ == blanks(i as nat),
        decreases n - i,
    {
        out.push(' ');
        i += 1;
        assert(out@ =~= blanks(i as nat));
    }
    out
}

/// `a` less `b`, or nothing when `b` is more.
fn less_u16(a: u16, b: u16) -> (r: u16)
    ensures
        r == less(a as int, b as int),
{
    if a > b {
        a - b
    } else {
        0
    }
}

/// One line of the sidebar, `width` cells wide.
pub fn sidebar_line(row: &SidebarRow, model: &Model, focused: bool, width: u16) -> (r: (
    Vec<Span>,
    Option<Style>,
))
    ensures
        (line_views(r.0@), r.1) == sidebar_spans(
            *row,
            model.sidebar.selected,
            model.theme.depth(),
            focused,
            width,
        ),
{
    let theme = model.theme;
    let mut spans: Vec<Span> = Vec::new();
    match row {
        SidebarRow::Heading(text) => {
            spans.push(Span { text: string_of(chars_of(text).as_slice()), style: theme.heading() });
            proof {
                assert(line_views(spans@) =~= seq![(text@, heading_at(theme.depth()))]);
            }
            (spans, None)
        },
        SidebarRow::Target { target, title, open, depth, has_children, collapsed } => {
            let marker = if *has_children {
                if *collapsed {
                    "▸ "
                } else {
                    "▾ "
                }
            } else {
                "  "
            };
            let indent = blank_chars(2 * (*depth as usize));
            let count: Vec<char> = if *open > 0 {
                let mut c: Vec<char> = Vec::new();
                c.push(' ');
                let digits = signed_decimal_of(*open);
                push_all(&mut c, digits.as_slice());
                c.push(' ');
                proof {
                    assert(c@ =~= " "@ + signed_decimal(*open as int) + " "@) by {
                        reveal_strlit(" ");
                    }
                }
                c
            } else {
                chars_of("  ")
            };
            let indent_text = string_of(indent.as_slice());
            let count_text_s = string_of(count.as_slice());
            let room = less_u16(
                less_u16(less_u16(width, display_width(indent_text.as_str())), display_width(marker)),
                display_width(count_text_s.as_str()),
            );
            let label = truncate(title.as_str(), room);
            let pad = less_u16(room, display_width(label.as_str()));
            let is_selected = model.sidebar.selected == *target;
            let base = if is_selected {
                theme.selected(focused)
            } else {
                theme.text()
            };
            let mut head = indent;
            let m = chars_of(marker);
            push_all(&mut head, m.as_slice());
            let l = chars_of(label.as_str());
            push_all(&mut head, l.as_slice());
            spans.push(Span { text: string_of(head.as_slice()), style: base });
            let fill = blank_chars(pad as usize);
            spans.push(Span { text: string_of(fill.as_slice()), style: base });
            spans.push(
                Span {
                    text: count_text_s,
                    style: if is_selected {
                        base
                    } else {
                        theme.muted()
                    },
                },
            );
            proof {
                assert(line_views(spans@) =~= sidebar_spans(
                    *row,
                    model.sidebar.selected,
                    theme.depth(),
                    focused,
                    width,
                ).0);
            }
            (
                spans,
                if is_selected {
                    Some(base)
                } else {
                    None
                },
            )
        },
    }
}

/// The width a hint spends before its title: its key, its verb, a space and the two
/// quotes the title sits inside.
pub open spec fn chrome(key: Seq<char>, verb: Seq<char>) -> int {
    width_of(key) + width_of(verb + " \"\""@)
}

/// The offers under the label form's list: to create what was typed, and to edit the
/// label under the cursor. The room left after the keys, the verbs and a gap is shared
/// between the titles shown, so a long title cannot push the other offer off the line.
pub open spec fn offer_spans(creatable: Option<Seq<char>>, editable: Option<Seq<char>>, depth: ColorDepth, width: u16) -> Option<
    Seq<(Seq<char>, Style)>,
> {
    if creatable is None && editable is None {
        None
    } else {
        let spent = width_of(" "@) + (if creatable is Some {
            chrome(" C-n "@, "creates"@)
        } else {
            0
        }) + (if editable is Some {
            chrome(" C-e "@, "edits"@)
        } else {
            0
        });
        let titles = (if creatable is Some {
            1int
        } else {
            0
        }) + (if editable is Some {
            1int
        } else {
            0
        });
        let room = less(width as int, spent) / titles;
        let first: Seq<(Seq<char>, Style)> = match creatable {
            Some(t) => seq![
                (" C-n "@, accent_at(depth)),
                ("creates \""@ + truncated(t, room as u16) + "\""@, muted_at(depth)),
            ],
            None => Seq::empty(),
        };
        let second: Seq<(Seq<char>, Style)> = match editable {
            Some(t) => seq![
                (if first.len() == 0 {
                    " C-e "@
                } else {
                    " "@ + " C-e "@
                }, accent_at(depth)),
                ("edits \""@ + truncated(t, room as u16) + "\""@, muted_at(depth)),
            ],
            None => Seq::empty(),
        };
        Some(first + second)
    }
}

/// `verb "title"`.
fn quoted(verb: &str, title: &str) -> (s: String)
    ensures
        s@ == verb@ + " \""@ + title@ + "\""@,
{
    let mut out = chars_of(verb);
    let open = chars_of(" \"");
    push_all(&mut out, open.as_slice());
    let t = chars_of(title);
    push_all(&mut out, t.as_slice());
    let close = chars_of("\"");
    push_all(&mut out, close.as_slice());
    string_of(out.as_slice())
}

/// The width of `verb ""`.
fn chrome_of(key: &str, verb: &str) -> (w: u32)
    ensures
        w == chrome(key@, verb@),
{
    let framed = quoted(verb, "");
    proof {
        assert(verb@ + " \""@ + ""@ + "\""@ =~= verb@ + " \"\""@) by {
            reveal_strlit("");
            reveal_strlit(" \"");
            reveal_strlit("\"");
            reveal_strlit(" \"\"");
        }
    }
    display_width(key) as u32 + display_width(framed.as_str()) as u32
}

/// The offers under the label form's list, cut to `width`.
pub fn labels_offer(state: &LabelsState, theme: Theme, width: u16) -> (r: Option<Vec<Span>>)
    ensures
        match r {
            Some(spans) => offer_spans(
                state.offered(),
                match state.highlighted() {
                    Some(l) => Some(l.title@),
                    None => None,
                },
                theme.depth(),
                width,
            ) == Some(line_views(spans@)),
            None => offer_spans(
                state.offered(),
                match state.highlighted() {
                    Some(l) => Some(l.title@),
                    None => None,
                },
                theme.depth(),
                width,
            ) is None,
        },
{
    let creatable = state.creatable();
    let editable: Option<String> = match state.current() {
        Some(label) => Some(label.title.clone()),
        None => None,
    };
    if creatable.is_none() && editable.is_none() {
        return None;
    }
    let mut spent: u32 = display_width(" ") as u32;
    if creatable.is_some() {
        spent = spent + chrome_of(" C-n ", "creates");
    }
    if editable.is_some() {
        spent = spent + chrome_of(" C-e ", "edits");
    }
    let titles: u32 = (if creatable.is_some() { 1u32 } else { 0 }) + (if editable.is_some() {
        1u32
    } else {
        0
    });
    let left: u32 = if width as u32 > spent {
        width as u32 - spent
    } else {
        0
    };
    let room: u16 = (left / titles) as u16;
    let mut spans: Vec<Span> = Vec::new();
    if let Some(title) = &creatable {
        spans.push(Span { text: String::from_str(" C-n "), style: theme.accent() });
        let cut = truncate(title.as_str(), room);
        spans.push(Span { text: quoted("creates", cut.as_str()), style: theme.muted() });
    }
    let ghost first = line_views(spans@);
    if let Some(title) = &editable {
        let key = if spans.len() == 0 {
            String::from_str(" C-e ")
        } else {
            joined3(" ", " C-e ", "")
        };
        spans.push(Span { text: key, style: theme.accent() });
        let cut = truncate(title.as_str(), room);
        spans.push(Span { text: quoted("edits", cut.as_str()), style: theme.muted() });
    }
    proof {
        reveal_strlit("");
        assert(" "@ + " C-e "@ + ""@ =~= " "@ + " C-e "@);
        let ed = match state.highlighted() {
            Some(l) => Some(l.title@),
            None => None,
        };
        let cr = state.offered();
        assert(creatable is Some <==> cr is Some);
        assert(editable is Some <==> ed is Some);
        let sp = width_of(" "@) + (if cr is Some {
            chrome(" C-n "@, "creates"@)
        } else {
            0
        }) + (if ed is Some {
            chrome(" C-e "@, "edits"@)
        } else {
            0
        });
        assert(spent == sp);
        assert(room == less(width as int, sp) / (titles as int));
        reveal_strlit("creates");
        reveal_strlit("edits");
        reveal_strlit(" \"");
        reveal_strlit("creates \"");
        reveal_strlit("edits \"");
        assert("creates"@ + " \""@ =~= "creates \""@);
        assert("edits"@ + " \""@ =~= "edits \""@);
        assert(line_views(spans@) =~= offer_spans(cr, ed, theme.depth(), width).unwrap());
    }
    Some(spans)
}

/// Warnings at a depth.
pub open spec fn warning_at(depth: ColorDepth) -> Style {
    Style { fg: Some(soon_color(depth)), ..plain_style() }
}

/// How loud a toast is drawn.
pub open spec fn level_style(level: Level, depth: ColorDepth) -> Style {
    match level {
        Level::Info => accent_at(depth),
        Level::Warning => warning_at(depth),
        Level::Error => error_at(depth),
    }
}

/// The left of the status line: how many tasks, whether the list hit the store's cap,
/// how many changes are queued and how many of those the server refuses, and whether the
/// list is filtered.
pub open spec fn status_left(m: Model) -> Seq<(Seq<char>, Style)> {
    let d = m.theme.depth();
    let base = seq![(decimal(m.data.tasks@.len()) + " tasks"@, muted_at(d))];
    let capped = if m.data.truncated {
        base.push((" (list capped)"@, warning_at(d)))
    } else {
        base
    };
    let queued = if m.status.queued > 0 {
        let q = capped.push((" · "@ + decimal(m.status.queued as nat) + " queued"@, warning_at(d)));
        if m.status.failing > 0 {
            q.push((" ("@ + decimal(m.status.failing as nat) + " failing)"@, error_at(d)))
        } else {
            q
        }
    } else {
        capped
    };
    if m.query.search is Some {
        queued.push((" · filtered"@, accent_at(d)))
    } else {
        queued
    }
}

/// The right of the status line: a chord in flight, so a half-pressed key is never a
/// mystery; the way out of a filtered list; or the key hints.
pub open spec fn status_hint(m: Model) -> Seq<char> {
    if m.pending@.len() > 0 {
        chord_text(m.pending@) + " …"@
    } else if m.query.search is Some {
        "Esc:clear filter  ?:help  q:quit"@
    } else {
        "?:help  /:search  g:go  q:quit"@
    }
}

/// The status line `width` cells wide: a toast takes the whole of it; otherwise the left
/// is cut to what the hints leave, and padding brings the hints to the right edge.
pub open spec fn status_spans(m: Model, width: u16) -> Seq<(Seq<char>, Style)> {
    let d = m.theme.depth();
    match m.status.toast {
        Some(t) => seq![(truncated(t.text@, width), level_style(t.level, d))],
        None => {
            let hint = status_hint(m);
            let left = fitted_line(status_left(m), less(width as int, width_of(hint) + 1) as u16);
            let padding = less(width as int, spans_width(left) + width_of(hint));
            left.push((spaces(padding as nat), plain_style())) + seq![(hint, muted_at(d))]
        },
    }
}

/// Whether the status line can be measured: its left no wider than a `u16` holds, and
/// its hint narrower.
pub open spec fn status_measurable(m: Model) -> bool {
    spans_width(status_left(m)) <= u16::MAX && width_of(status_hint(m)) < u16::MAX
}

/// `n` in decimal between `before` and `after`.
fn numbered(before: &str, n: usize, after: &str) -> (s: String)
    ensures
        s@ == before@ + decimal(n as nat) + after@,
{
    let mut out = chars_of(before);
    let digits = decimal_of(n as u64);
    push_all(&mut out, digits.as_slice());
    let tail = chars_of(after);
    push_all(&mut out, tail.as_slice());
    string_of(out.as_slice())
}

/// The left of the status line.
fn status_left_spans(model: &Model) -> (spans: Vec<Span>)
    ensures
        line_views(spans@) == status_left(*model),
{
    let theme = model.theme;
    let mut spans: Vec<Span> = Vec::new();
    spans.push(Span { text: numbered("", model.data.tasks.len(), " tasks"), style: theme.muted() });
    proof {
        reveal_strlit("");
        assert(""@ + decimal(model.data.tasks@.len()) + " tasks"@ =~= decimal(model.data.tasks@.len()) + " tasks"@);
    }
    if model.data.truncated {
        spans.push(Span { text: String::from_str(" (list capped)"), style: theme.warning() });
    }
    if model.status.queued > 0 {
        spans.push(Span { text: numbered(" · ", model.status.queued, " queued"), style: theme.warning() });
        if model.status.failing > 0 {
            spans.push(Span { text: numbered(" (", model.status.failing, " failing)"), style: theme.error() });
        }
    }
    if model.query.search.is_some() {
        spans.push(Span { text: String::from_str(" · filtered"), style: theme.accent() });
    }
    proof {
        assert(line_views(spans@) =~= status_left(*model));
    }
    spans
}

/// The right of the status line.
fn status_hint_text(model: &Model) -> (s: String)
    ensures
        s@ == status_hint(*model),
{
    if model.pending.len() > 0 {
        let mut out = chord_chars(&model.pending);
        let tail = chars_of(" …");
        push_all(&mut out, tail.as_slice());
        string_of(out.as_slice())
    } else if model.query.search.is_some() {
        String::from_str("Esc:clear filter  ?:help  q:quit")
    } else {
        String::from_str("?:help  /:search  g:go  q:quit")
    }
}

/// Whether the status line can be measured.
pub fn status_fits(model: &Model) -> (r: bool)
    ensures
        r == status_measurable(*model),
{
    let left = status_left_spans(model);
    let hint = status_hint_text(model);
    wide_width(left.as_slice()) <= u16::MAX as u128 && display_width(hint.as_str()) < u16::MAX
}

/// `n` spaces as a span in no style.
fn padding_span(n: u16) -> (s: Span)
    ensures
        s@ == (spaces(n as nat), plain_style()),
{
    let mut out: Vec<char> = Vec::new();
    let mut i: u16 = 0;
    while i < n
        invariant
            i <= n,
            out@ == spaces(i as nat),
        decreases n - i,
    {
        out.push(' ');
        i += 1;
        assert(out@ =~= spaces(i as nat));
    }
    Span { text: string_of(out.as_slice()), style: Style::new() }
}

/// Counts, queued changes and the key hints, `width` cells wide.
pub fn status(model: &Model, width: u16) -> (spans: Vec<Span>)
    requires
        status_measurable(*model),
    ensures
        line_views(spans@) == status_spans(*model, width),
{
    let theme = model.theme;
    if let Some(toast) = &model.status.toast {
        let style = match toast.level {
            Level::Info => theme.accent(),
            Level::Warning => theme.warning(),
            Level::Error => theme.error(),
        };
        let mut spans: Vec<Span> = Vec::new();
        spans.push(Span { text: truncate(toast.text.as_str(), width), style });
        proof {
            assert(line_views(spans@) =~= status_spans(*model, width));
        }
        return spans;
    }
    let left_full = status_left_spans(model);
    let hint = status_hint_text(model);
    let hint_width = display_width(hint.as_str());
    let room = less_u16(width, hint_width + 1);
    let mut spans = fit(&left_full, room);
    let left_width = wide_width(spans.as_slice());
    let count: usize = spans.len();
    assert(left_width <= 65535 * (usize::MAX as int)) by (nonlinear_arith)
        requires
            left_width <= 65535 * count,
            count <= usize::MAX,
    ;
    let used = left_width + hint_width as u128;
    let padding: u16 = if (width as u128) > used {
        (width as u128 - used) as u16
    } else {
        0
    };
    let ghost left = line_views(spans@);
    spans.push(padding_span(padding));
    spans.push(Span { text: hint, style: theme.muted() });
    proof {
        assert(line_views(spans@) =~= left.push((spaces(padding as nat), plain_style())) + seq![
            (status_hint(*model), muted_at(theme.depth())),
        ]);
    }
    spans
}

/// The fixed pieces of the header's left: the name of the program, the breadcrumb, and
/// the strip of views.
pub open spec fn brand_spans(d: ColorDepth) -> Seq<(Seq<char>, Style)> {
    seq![("tui-do"@, with_modifier(accent_at(d), Modifier::Bold)), ("  "@, plain_style())]
}

/// The breadcrumb, in bold.
pub open spec fn crumb_spans(m: Model) -> Seq<(Seq<char>, Style)> {
    seq![
        (
            breadcrumb_text(m.query.scope, m.data.projects@, m.data.labels@),
            with_modifier(plain_style(), Modifier::Bold),
        ),
    ]
}

/// The strip of views, with the one showing underlined.
pub open spec fn tab_spans(d: ColorDepth) -> Seq<(Seq<char>, Style)> {
    seq![
        (" › "@, muted_at(d)),
        ("List"@, with_modifier(plain_style(), Modifier::Underlined)),
        ("  Table  Kanban"@, muted_at(d)),
    ]
}

/// The header line `width` cells wide: the brand, the breadcrumb and the tabs on the
/// left, the sync state on the right. Where they do not fit the tabs go first and the
/// brand next, since which list this is and whether it talks to the server are the two
/// questions the header is for; what is left is cut to the room.
pub open spec fn header_spans(m: Model, width: u16) -> Seq<(Seq<char>, Style)> {
    let d = m.theme.depth();
    let right = sync_spans(m);
    let room = less(width as int, spans_width(right) + 1);
    let full = brand_spans(d) + crumb_spans(m) + tab_spans(d);
    let left0 = if spans_width(full) > room {
        if spans_width(brand_spans(d) + crumb_spans(m)) > room {
            crumb_spans(m)
        } else {
            brand_spans(d) + crumb_spans(m)
        }
    } else {
        full
    };
    let left = fitted_line(left0, room as u16);
    let padding = less(width as int, spans_width(left) + spans_width(right));
    left.push((spaces(padding as nat), plain_style())) + right
}

/// Whether the header can be measured: the sync state narrower than a `u16` holds, and the
/// whole left no wider.
pub open spec fn header_measurable(m: Model) -> bool {
    &&& sync_age_sayable(m)
    &&& spans_width(sync_spans(m)) < u16::MAX
    &&& spans_width(brand_spans(m.theme.depth()) + crumb_spans(m) + tab_spans(m.theme.depth()))
        <= u16::MAX
}

/// The brand spans.
fn brand_of(theme: Theme) -> (spans: Vec<Span>)
    ensures
        line_views(spans@) == brand_spans(theme.depth()),
{
    let mut spans: Vec<Span> = Vec::new();
    spans.push(Span { text: String::from_str("tui-do"), style: theme.accent().add_modifier(Modifier::Bold) });
    spans.push(Span { text: String::from_str("  "), style: theme.text() });
    proof {
        assert(line_views(spans@) =~= brand_spans(theme.depth()));
    }
    spans
}

/// The tab spans.
fn tabs_of(theme: Theme) -> (spans: Vec<Span>)
    ensures
        line_views(spans@) == tab_spans(theme.depth()),
{
    let mut spans: Vec<Span> = Vec::new();
    spans.push(Span { text: String::from_str(" › "), style: theme.muted() });
    spans.push(Span { text: String::from_str("List"), style: theme.text().add_modifier(Modifier::Underlined) });
    spans.push(Span { text: String::from_str("  Table  Kanban"), style: theme.muted() });
    proof {
        assert(line_views(spans@) =~= tab_spans(theme.depth()));
    }
    spans
}

/// `b` after `a`.
fn concat_spans(a: Vec<Span>, b: Vec<Span>) -> (out: Vec<Span>)
    ensures
        line_views(out@) == line_views(a@) + line_views(b@),
{
    let mut out = a;
    let mut i: usize = 0;
    let ghost start = line_views(out@);
    while i < b.len()
        invariant
            i <= b@.len(),
            line_views(out@) == start + line_views(b@).take(i as int),
        decreases b.len() - i,
    {
        let ghost before = line_views(out@);
        out.push(b[i].duplicate());
        proof {
            assert(line_views(out@) =~= before.push(b@[i as int]@));
            assert(line_views(b@).take(i + 1) =~= line_views(b@).take(i as int).push(b@[i as int]@));
        }
        i += 1;
    }
    proof {
        assert(line_views(b@).take(i as int) =~= line_views(b@));
    }
    out
}

/// Whether the header can be measured.
pub fn header_fits(model: &Model) -> (r: bool)
    ensures
        r == header_measurable(*model),
{
    match model.status.last_sync {
        Some(at) => {
            let elapsed: i128 = model.now as i128 - at as i128;
            if elapsed < i64::MIN as i128 || elapsed > (i64::MAX - 1800) as i128 {
                return false;
            }
        },
        None => {},
    }
    let right = sync_indicator(model);
    let crumb = breadcrumb(model);
    let mut crumbs: Vec<Span> = Vec::new();
    crumbs.push(Span { text: crumb, style: model.theme.text().add_modifier(Modifier::Bold) });
    let full = concat_spans(concat_spans(brand_of(model.theme), crumbs), tabs_of(model.theme));
    proof {
        assert(line_views(crumbs@) =~= crumb_spans(*model));
    }
    wide_width(right.as_slice()) < u16::MAX as u128 && wide_width(full.as_slice()) <= u16::MAX as u128
}

/// The header line: the breadcrumb and the sync state, with the brand and the view tabs
/// where there is room for them.
pub fn header(model: &Model, width: u16) -> (spans: Vec<Span>)
    requires
        header_measurable(*model),
    ensures
        line_views(spans@) == header_spans(*model, width),
{
    let theme = model.theme;
    let right = sync_indicator(model);
    let right_width = wide_width(right.as_slice());
    let room = less_u16(width, (right_width + 1) as u16);
    let ghost d = theme.depth();
    let brand = brand_of(theme);
    let mut crumbs: Vec<Span> = Vec::new();
    crumbs.push(Span { text: breadcrumb(model), style: theme.text().add_modifier(Modifier::Bold) });
    proof {
        assert(line_views(crumbs@) =~= crumb_spans(*model));
    }
    let tabs = tabs_of(theme);
    let brand_crumb = concat_spans(brand_of(theme), copy_spans(&crumbs));
    let full = concat_spans(concat_spans(brand, copy_spans(&crumbs)), tabs);
    proof {
        lemma_width_prefix(line_views(full@), 3);
        assert(line_views(full@).take(3) =~= brand_spans(d) + crumb_spans(*model));
    }
    let full_width = wide_width(full.as_slice());
    let left0 = if full_width > room as u128 {
        if wide_width(brand_crumb.as_slice()) > room as u128 {
            crumbs
        } else {
            brand_crumb
        }
    } else {
        full
    };
    proof {
        assert(spans_width(line_views(left0@)) <= u16::MAX) by {
            if line_views(left0@) == crumb_spans(*model) {
                reveal_with_fuel(spans_width, 2);
                assert(crumb_spans(*model).drop_last() =~= Seq::<(Seq<char>, Style)>::empty());
            }
        }
    }
    let mut spans = fit(&left0, room);
    let left_width = wide_width(spans.as_slice());
    let count: usize = spans.len();
    assert(left_width <= 65535 * (usize::MAX as int)) by (nonlinear_arith)
        requires
            left_width <= 65535 * count,
            count <= usize::MAX,
    ;
    let right_count: usize = right.len();
    assert(right_width <= 65535 * (usize::MAX as int)) by (nonlinear_arith)
        requires
            right_width <= 65535 * right_count,
            right_count <= usize::MAX,
    ;
    let used = left_width + right_width;
    let padding: u16 = if (width as u128) > used {
        (width as u128 - used) as u16
    } else {
        0
    };
    let ghost left = line_views(spans@);
    spans.push(padding_span(padding));
    let joined = concat_spans(spans, right);
    proof {
        assert(line_views(joined@) =~= left.push((spaces(padding as nat), plain_style())) + sync_spans(*model));
    }
    joined
}

/// The rule under the header: a line across the whole width in the border colour.
pub fn rule(width: u16, theme: Theme) -> (spans: Vec<Span>)
    ensures
        line_views(spans@) == seq![
            (Seq::new(width as nat, |i: int| '─'), Style { fg: Some(border_color(theme.depth())), ..plain_style() }),
        ],
{
    let mut out: Vec<char> = Vec::new();
    let mut i: u16 = 0;
    while i < width
        invariant
            i <= width,
            out@ == Seq::new(i as nat, |k: int| '─'),
        decreases width - i,
    {
        out.push('─');
        i += 1;
        assert(out@ =~= Seq::new(i as nat, |k: int| '─'));
    }
    let mut spans: Vec<Span> = Vec::new();
    spans.push(Span { text: string_of(out.as_slice()), style: theme.border() });
    proof {
        assert(line_views(spans@) =~= seq![
            (Seq::new(width as nat, |i: int| '─'), Style { fg: Some(border_color(theme.depth())), ..plain_style() }),
        ]);
    }
    spans
}

/// A copy of some spans.
fn copy_spans(spans: &Vec<Span>) -> (out: Vec<Span>)
    ensures
        line_views(out@) == line_views(spans@),
{
    let mut out: Vec<Span> = Vec::new();
    let mut i: usize = 0;
    while i < spans.len()
        invariant
            i <= spans@.len(),
            line_views(out@) == line_views(spans@).take(i as int),
        decreases spans.len() - i,
    {
        let ghost before = line_views(out@);
        out.push(spans[i].duplicate());
        proof {
            assert(line_views(out@) =~= before.push(spans@[i as int]@));
            assert(line_views(spans@).take(i + 1) =~= line_views(spans@).take(i as int).push(
                spans@[i as int]@,
            ));
        }
        i += 1;
    }
    proof {
        assert(line_views(spans@).take(i as int) =~= line_views(spans@));
    }
    out
}

/// The most lines one paragraph of a description may take before it is ellipsised.
pub const MAX_PARAGRAPH_LINES: u16 = 40;

/// The lines of a text as `str::lines` reads them: split at each newline, a final newline
/// making no empty line of its own, and a carriage return before a newline dropped.
pub open spec fn text_lines(s: Seq<char>) -> Seq<Seq<char>> {
    if s.len() == 0 {
        Seq::empty()
    } else {
        let parts = split_on(s, '\n');
        let n = parts.len();
        let whole = Seq::new(
            n,
            |i: int|
                if i < n - 1 && parts[i].len() > 0 && parts[i].last() == '\r' {
                    parts[i].drop_last()
                } else {
                    parts[i]
                },
        );
        if parts.last().len() == 0 {
            whole.drop_last()
        } else {
            whole
        }
    }
}

/// The lines of a text, as `str::lines` reads them.
fn lines_of_text(s: &[char]) -> (out: Vec<Vec<char>>)
    ensures
        char_rows(out@) == text_lines(s@),
{
    let mut out: Vec<Vec<char>> = Vec::new();
    if s.len() == 0 {
        proof {
            assert(char_rows(out@) =~= text_lines(s@));
        }
        return out;
    }
    let parts = split_chars(s, '\n');
    let ghost pv = char_rows(parts@);
    let n = parts.len();
    assert(n == pv.len());
    let ghost whole = Seq::new(
        n as nat,
        |i: int|
            if i < n - 1 && pv[i].len() > 0 && pv[i].last() == '\r' {
                pv[i].drop_last()
            } else {
                pv[i]
            },
    );
    let last_empty = parts[n - 1].len() == 0;
    let end = if last_empty {
        n - 1
    } else {
        n
    };
    let mut i: usize = 0;
    while i < end
        invariant
            i <= end <= n,
            n == parts@.len(),
            n >= 1,
            pv == char_rows(parts@),
            end == (if pv[n - 1].len() == 0 {
                n - 1
            } else {
                n as int
            }),
            whole == Seq::new(
                n as nat,
                |i: int|
                    if i < n - 1 && pv[i].len() > 0 && pv[i].last() == '\r' {
                        pv[i].drop_last()
                    } else {
                        pv[i]
                    },
            ),
            char_rows(out@) == whole.take(i as int),
        decreases end - i,
    {
        let part = &parts[i];
        let line: Vec<char> = if i < n - 1 && part.len() > 0 && part[part.len() - 1] == '\r' {
            crate::text::slice_to_vec(part.as_slice(), 0, part.len() - 1)
        } else {
            crate::text::slice_to_vec(part.as_slice(), 0, part.len())
        };
        proof {
            assert(pv[i as int] == part@);
            if i < n - 1 && part@.len() > 0 && part@.last() == '\r' {
                assert(line@ =~= pv[i as int].drop_last());
            } else {
                assert(line@ =~= pv[i as int]);
            }
        }
        let ghost before = char_rows(out@);
        out.push(line);
        proof {
            assert(char_rows(out@) =~= before.push(whole[i as int]));
            assert(whole.take(i + 1) =~= whole.take(i as int).push(whole[i as int]));
        }
        i += 1;
    }
    proof {
        if last_empty {
            assert(whole.take(i as int) =~= whole.drop_last());
        } else {
            assert(whole.take(i as int) =~= whole);
        }
    }
    out
}

/// The description's paragraphs, each wrapped, for as long as the lines so far, `count`,
/// are fewer than `budget`: what can be seen is laid out, and no more.
pub open spec fn described(
    paragraphs: Seq<Seq<char>>,
    count: int,
    budget: int,
    width: u16,
) -> Seq<Seq<(Seq<char>, Style)>>
    decreases paragraphs.len(),
{
    if paragraphs.len() == 0 || count >= budget {
        Seq::empty()
    } else {
        let w = wrapped(paragraphs[0], width, MAX_PARAGRAPH_LINES).map_values(
            |l: Seq<char>| seq![(seq![' '] + l, plain_style())],
        );
        w + described(paragraphs.drop_first(), count + w.len(), budget, width)
    }
}

/// The lines of a field of the preview whose name is padded to nine characters after a
/// space: ` Priority ` and ` Labels   `.
pub open spec fn nine(name: Seq<char>) -> Seq<char> {
    seq![' '] + name + blanks(if name.len() < 9 { (9 - name.len()) as nat } else { 0 })
}

/// The head of the preview: the title wrapped to three lines in bold, a rule, then the
/// project, the identifier and the due date; the priority when there is one, the labels
/// as chips when there are any, and the assignees when there are any.
pub open spec fn preview_head(m: Model, t: Task, width: u16, offset: i32) -> Seq<
    Seq<(Seq<char>, Style)>,
> {
    let d = m.theme.depth();
    let title = wrapped(t.title@, width, 3).map_values(
        |l: Seq<char>| seq![(seq![' '] + l, with_modifier(plain_style(), Modifier::Bold))],
    );
    let project_title = {
        let k = first_where(m.data.projects@, project_with_id(t.project_id));
        if k < m.data.projects@.len() {
            m.data.projects@[k].title@
        } else {
            Seq::empty()
        }
    };
    let fixed = title.push(
        seq![
            (
                seq![' '] + Seq::new(width as nat, |i: int| '─'),
                Style { fg: Some(border_color(d)), ..plain_style() },
            ),
        ],
    ).push(field_spans(" Project"@, project_title, d)).push(field_spans(" ID"@, t.identifier@, d)).push(
        field_spans(" Due"@, relative_text(t.due_date, m.now, offset), d),
    );
    let with_priority = if t.priority > 0 {
        fixed.push(
            seq![
                (nine("Priority"@), muted_at(d)),
                (seq!['P'] + signed_decimal(t.priority as int), priority_style(d, t.priority)),
            ],
        )
    } else {
        fixed
    };
    let with_labels = if t.labels@.len() > 0 {
        with_priority.push(
            seq![(nine("Labels"@), muted_at(d))] + t.labels@.map_values(
                |l: Label| (seq![' '] + l.title@ + seq![' '], label_style(d, l.hex_color@)),
            ),
        )
    } else {
        with_priority
    };
    if t.assignees@.len() > 0 {
        with_labels.push(
            field_spans(
                " Assignees"@,
                joined(t.assignees@.map_values(|a: String| a@)),
                d,
            ),
        )
    } else {
        with_labels
    }
}

/// The preview of the selected task, `width` cells wide and `height` lines tall: the head,
/// then, when the description has text, a blank line and its paragraphs as far as the
/// scrolled window reaches; scrolled by the list's preview scroll. Nothing with no task
/// selected.
pub open spec fn preview_spec(m: Model, width: u16, height: u16, offset: i32) -> Seq<
    Seq<(Seq<char>, Style)>,
> {
    match m.list.selected {
        None => Seq::empty(),
        Some(id) => {
            let k = first_where(m.data.tasks@, crate::model::task_with_id(id));
            if k < m.data.tasks@.len() {
                let t = m.data.tasks@[k];
                let w = less(width as int, 1) as u16;
                let head = preview_head(m, t, w, offset);
                let text = plain_of(t.description@);
                let all = if text.len() > 0 {
                    let with_gap = head.push(Seq::empty());
                    with_gap + described(
                        text_lines(text),
                        with_gap.len() as int,
                        m.list.preview_scroll + height,
                        w,
                    )
                } else {
                    head
                };
                all.skip(
                    if m.list.preview_scroll <= all.len() {
                        m.list.preview_scroll as int
                    } else {
                        all.len() as int
                    },
                )
            } else {
                Seq::empty()
            }
        },
    }
}

/// Whether the preview can be drawn: the clock and the selected task's dates read on the
/// calendar, for an offset of less than a day.
pub open spec fn previewable(m: Model, offset: i32) -> bool {
    &&& on_calendar(m.now)
    &&& valid_offset(offset)
    &&& match m.list.selected {
        None => true,
        Some(id) => {
            let k = first_where(m.data.tasks@, crate::model::task_with_id(id));
            k < m.data.tasks@.len() ==> dated_sanely(m.data.tasks@[k]@)
        },
    }
}

/// Whether [`preview`] can be asked for this model and offset.
pub fn can_preview(model: &Model, offset: i32) -> (r: bool)
    ensures
        r == previewable(*model, offset),
{
    if !crate::grid::on_the_calendar(model.now) || offset <= -86_400 || offset >= 86_400 {
        return false;
    }
    match model.selected_task() {
        None => true,
        Some(task) => crate::grid::sanely_dated(task),
    }
}

/// Lines as values.
pub open spec fn line_seq(lines: Seq<Vec<Span>>) -> Seq<Seq<(Seq<char>, Style)>> {
    lines.map_values(|l: Vec<Span>| line_views(l@))
}

/// One span as a line.
fn single(text: String, style: Style) -> (line: Vec<Span>)
    ensures
        line_views(line@) == seq![(text@, style)],
{
    let mut line: Vec<Span> = Vec::new();
    line.push(Span { text, style });
    proof {
        assert(line_views(line@) =~= seq![(text@, style)]);
    }
    line
}

/// ` ` and `text`.
fn spaced(text: &str) -> (s: String)
    ensures
        s@ == seq![' '] + text@,
{
    let mut out: Vec<char> = Vec::new();
    out.push(' ');
    let t = chars_of(text);
    push_all(&mut out, t.as_slice());
    proof {
        assert(out@ =~= seq![' '] + text@);
    }
    string_of(out.as_slice())
}

/// `name` after a space, padded to nine characters.
fn nine_of(name: &str) -> (s: String)
    ensures
        s@ == nine(name@),
{
    let mut out: Vec<char> = Vec::new();
    out.push(' ');
    let t = chars_of(name);
    push_all(&mut out, t.as_slice());
    let n = t.len();
    let mut i = n;
    while i < 9
        invariant
            n == name@.len(),
            n <= i <= 9 || (n > 9 && i == n),
            out@ == seq![' '] + name@ + blanks((i - n) as nat),
        decreases 9 - i,
    {
        out.push(' ');
        i += 1;
        assert(out@ =~= seq![' '] + name@ + blanks((i - n) as nat));
    }
    proof {
        if n >= 9 {
            assert(out@ =~= seq![' '] + name@ + blanks(0));
        }
        assert(out@ =~= nine(name@));
    }
    string_of(out.as_slice())
}

/// Push every line of `wrapped` as a single span after a space, in `style`.
fn push_wrapped(lines: &mut Vec<Vec<Span>>, texts: &Vec<String>, style: Style)
    ensures
        line_seq(final(lines)@) == line_seq(old(lines)@) + crate::label_forms::texts(texts@).map_values(
            |l: Seq<char>| seq![(seq![' '] + l, style)],
        ),
{
    let ghost start = line_seq(lines@);
    let ghost tv = crate::label_forms::texts(texts@);
    let mut i: usize = 0;
    while i < texts.len()
        invariant
            i <= texts@.len(),
            tv == crate::label_forms::texts(texts@),
            line_seq(lines@) == start + tv.take(i as int).map_values(
                |l: Seq<char>| seq![(seq![' '] + l, style)],
            ),
        decreases texts.len() - i,
    {
        let ghost before = line_seq(lines@);
        lines.push(single(spaced(texts[i].as_str()), style));
        proof {
            assert(line_seq(lines@) =~= before.push(seq![(seq![' '] + tv[i as int], style)]));
            assert(tv.take(i + 1).map_values(|l: Seq<char>| seq![(seq![' '] + l, style)])
                =~= tv.take(i as int).map_values(|l: Seq<char>| seq![(seq![' '] + l, style)]).push(
                seq![(seq![' '] + tv[i as int], style)],
            ));
        }
        i += 1;
    }
    proof {
        assert(tv.take(i as int) =~= tv);
    }
}

/// The preview of the selected task, `width` cells wide and `height` lines tall, for a
/// reader `offset` seconds east of UTC.
pub fn preview(model: &Model, width: u16, height: u16, offset: i32) -> (lines: Vec<Vec<Span>>)
    requires
        previewable(*model, offset),
    ensures
        line_seq(lines@) == preview_spec(*model, width, height, offset),
{
    let task = match model.selected_task() {
        Some(t) => t,
        None => {
            proof {
                assert(line_seq(Seq::<Vec<Span>>::empty()) =~= Seq::<Seq<(Seq<char>, Style)>>::empty());
            }
            return Vec::new();
        },
    };
    assert(model.list.selected is Some);
    let ghost k = first_where(model.data.tasks@, crate::model::task_with_id(model.list.selected->0));
    assert(dated_sanely(task@));
    let theme = model.theme;
    let ghost d = theme.depth();
    let w = less_u16(width, 1);
    let mut lines: Vec<Vec<Span>> = Vec::new();
    let title_lines = wrap(task.title.as_str(), w, 3);
    push_wrapped(&mut lines, &title_lines, theme.text().add_modifier(Modifier::Bold));
    let mut dashes: Vec<char> = Vec::new();
    dashes.push(' ');
    let mut n: u16 = 0;
    while n < w
        invariant
            n <= w,
            dashes@ == seq![' '] + Seq::new(n as nat, |i: int| '─'),
        decreases w - n,
    {
        dashes.push('─');
        n += 1;
        assert(dashes@ =~= seq![' '] + Seq::new(n as nat, |i: int| '─'));
    }
    lines.push(single(string_of(dashes.as_slice()), theme.border()));
    let project = match model.project(task.project_id) {
        Some(p) => p.title.clone(),
        None => String::new(),
    };
    lines.push(field(" Project", project.as_str(), theme));
    lines.push(field(" ID", task.identifier.as_str(), theme));
    let due = relative_date(task.due_date, model.now, offset);
    lines.push(field(" Due", due.as_str(), theme));
    let ghost fixed = line_seq(lines@);
    if task.has_priority() {
        let mut line: Vec<Span> = Vec::new();
        line.push(Span { text: nine_of("Priority"), style: theme.muted() });
        let mut p: Vec<char> = Vec::new();
        p.push('P');
        let digits = signed_decimal_of(task.priority);
        push_all(&mut p, digits.as_slice());
        line.push(Span { text: string_of(p.as_slice()), style: theme.priority(task.priority) });
        proof {
            assert(line_views(line@) =~= seq![
                (nine("Priority"@), muted_at(d)),
                (seq!['P'] + signed_decimal(task.priority as int), priority_style(d, task.priority)),
            ]);
        }
        lines.push(line);
    }
    let ghost with_priority = line_seq(lines@);
    if task.labels.len() > 0 {
        let mut line: Vec<Span> = Vec::new();
        line.push(Span { text: nine_of("Labels"), style: theme.muted() });
        let ghost lv = task.labels@;
        let mut j: usize = 0;
        while j < task.labels.len()
            invariant
                j <= lv.len(),
                lv == task.labels@,
                d == theme.depth(),
                line_views(line@) == seq![(nine("Labels"@), muted_at(d))] + lv.take(j as int).map_values(
                    |l: Label| (seq![' '] + l.title@ + seq![' '], label_style(d, l.hex_color@)),
                ),
            decreases task.labels.len() - j,
        {
            let label = &task.labels[j];
            let mut chip: Vec<char> = Vec::new();
            chip.push(' ');
            let t = chars_of(label.title.as_str());
            push_all(&mut chip, t.as_slice());
            chip.push(' ');
            let ghost before = line_views(line@);
            let chip_text = string_of(chip.as_slice());
            let chip_style = theme.label(label.hex_color.as_str());
            proof {
                assert(chip@ =~= seq![' '] + label.title@ + seq![' ']);
                assert(chip_text@ == seq![' '] + label.title@ + seq![' ']);
                assert(chip_style == label_style(d, label.hex_color@));
            }
            line.push(Span { text: chip_text, style: chip_style });
            proof {
                assert(line_views(line@) =~= before.push(
                    (seq![' '] + label.title@ + seq![' '], label_style(d, label.hex_color@)),
                ));
                assert(lv.take(j + 1).map_values(
                    |l: Label| (seq![' '] + l.title@ + seq![' '], label_style(d, l.hex_color@)),
                ) =~= lv.take(j as int).map_values(
                    |l: Label| (seq![' '] + l.title@ + seq![' '], label_style(d, l.hex_color@)),
                ).push((seq![' '] + label.title@ + seq![' '], label_style(d, label.hex_color@))));
            }
            j += 1;
        }
        proof {
            assert(lv.take(j as int) =~= lv);
        }
        lines.push(line);
    }
    if task.assignees.len() > 0 {
        let names = join_names(&task.assignees);
        lines.push(field(" Assignees", names.as_str(), theme));
    }
    proof {
        assert(line_seq(lines@) =~= preview_head(*model, *task, w, offset));
    }
    let ghost head = line_seq(lines@);
    let text = plain_text(task.description.as_str());
    let text_chars = chars_of(text.as_str());
    let budget: usize = model.list.preview_scroll as usize + height as usize;
    if text_chars.len() > 0 {
        let gap: Vec<Span> = Vec::new();
        assert(line_views(gap@) =~= Seq::<(Seq<char>, Style)>::empty());
        lines.push(gap);
        proof {
            assert(line_seq(lines@) =~= head.push(Seq::empty()));
        }
        let ghost with_gap = line_seq(lines@);
        let paragraphs = lines_of_text(text_chars.as_slice());
        let ghost pv = char_rows(paragraphs@);
        let ghost total = with_gap + described(pv, with_gap.len() as int, budget as int, w);
        let mut i: usize = 0;
        proof {
            assert(pv.skip(0) =~= pv);
        }
        loop
            invariant
                i <= pv.len(),
                pv == char_rows(paragraphs@),
                total == with_gap + described(pv, with_gap.len() as int, budget as int, w),
                line_seq(lines@) + described(pv.skip(i as int), lines@.len() as int, budget as int, w)
                    == total,
            ensures
                line_seq(lines@) == total,
            decreases paragraphs.len() - i,
        {
            if i >= paragraphs.len() || lines.len() >= budget {
                proof {
                    if i >= paragraphs.len() {
                        assert(pv.skip(i as int) =~= Seq::<Seq<char>>::empty());
                    }
                    assert(line_seq(lines@) + Seq::<Seq<(Seq<char>, Style)>>::empty() =~= line_seq(lines@));
                }
                break;
            }
            let ghost rest = pv.skip(i as int);
            proof {
                assert(rest[0] == pv[i as int]);
                assert(rest.drop_first() =~= pv.skip(i + 1));
                assert(pv[i as int] == paragraphs@[i as int]@);
            }
            let paragraph = string_of(paragraphs[i].as_slice());
            let wrapped_lines = wrap(paragraph.as_str(), w, MAX_PARAGRAPH_LINES);
            let ghost before = line_seq(lines@);
            let ghost count = lines@.len() as int;
            push_wrapped(&mut lines, &wrapped_lines, theme.text());
            proof {
                let ws = wrapped(pv[i as int], w, MAX_PARAGRAPH_LINES).map_values(
                    |l: Seq<char>| seq![(seq![' '] + l, plain_style())],
                );
                assert(line_seq(lines@) =~= before + ws);
                assert(lines@.len() == count + ws.len());
                assert(described(rest, count, budget as int, w) == ws + described(
                    pv.skip(i + 1),
                    count + ws.len(),
                    budget as int,
                    w,
                ));
            }
            i += 1;
        }
    }
    let ghost all = line_seq(lines@);
    let skip = if (model.list.preview_scroll as usize) <= lines.len() {
        model.list.preview_scroll as usize
    } else {
        lines.len()
    };
    let mut out: Vec<Vec<Span>> = Vec::new();
    let mut j = skip;
    while j < lines.len()
        invariant
            skip <= j <= lines@.len(),
            all == line_seq(lines@),
            line_seq(out@) == all.subrange(skip as int, j as int),
        decreases lines.len() - j,
    {
        let mut copy: Vec<Span> = Vec::new();
        let src = &lines[j];
        let mut q: usize = 0;
        while q < src.len()
            invariant
                q <= src@.len(),
                line_views(copy@) == line_views(src@).take(q as int),
            decreases src.len() - q,
        {
            let ghost so_far = line_views(copy@);
            copy.push(src[q].duplicate());
            proof {
                assert(line_views(copy@) =~= so_far.push(src@[q as int]@));
                assert(line_views(src@).take(q + 1) =~= line_views(src@).take(q as int).push(src@[q as int]@));
            }
            q += 1;
        }
        proof {
            assert(line_views(src@).take(q as int) =~= line_views(src@));
        }
        let ghost before = line_seq(out@);
        out.push(copy);
        proof {
            assert(line_seq(out@) =~= before.push(all[j as int]));
            assert(all.subrange(skip as int, j + 1) =~= all.subrange(skip as int, j as int).push(all[j as int]));
        }
        j += 1;
    }
    proof {
        assert(all.subrange(skip as int, j as int) =~= all.skip(skip as int));
    }
    out
}

/// The style of the list's column headings: the list owns no border, so its headings are
/// where it says whether it is the pane being driven, accented and bold while it is.
pub open spec fn list_heading_style(m: Model) -> Style {
    if m.focus == crate::model::Focus::List {
        with_modifier(Style { fg: Some(accent_color(m.theme.depth())), ..plain_style() }, Modifier::Bold)
    } else {
        with_modifier(Style { fg: Some(muted_color(m.theme.depth())), ..plain_style() }, Modifier::Bold)
    }
}

/// The heading row of the task list: each column's heading cut and padded to its width,
/// with the gap between each two.
pub open spec fn heading_row(columns: Seq<crate::rows::MeasuredColumn>, style: Style) -> Seq<(Seq<char>, Style)> {
    crate::drawing::interleaved(
        columns.map_values(
            |c: crate::rows::MeasuredColumn| seq![(crate::drawing::padded(truncated(c.heading@, c.width), c.width), style)],
        ),
    )
}

/// The heading row of the task list over `columns`.
pub fn list_heading(model: &Model, columns: &Vec<crate::rows::MeasuredColumn>) -> (line: Vec<Span>)
    ensures
        line_views(line@) == heading_row(columns@, list_heading_style(*model)),
{
    let style = if model.focus == crate::model::Focus::List {
        model.theme.pane(true).add_modifier(Modifier::Bold)
    } else {
        model.theme.heading()
    };
    let ghost cs = columns@;
    let mut spans: Vec<Span> = Vec::new();
    let mut i: usize = 0;
    while i < columns.len()
        invariant
            i <= cs.len(),
            cs == columns@,
            style == list_heading_style(*model),
            line_views(spans@) == cs.take(i as int).map_values(
                |c: crate::rows::MeasuredColumn| (crate::drawing::padded(truncated(c.heading@, c.width), c.width), style),
            ),
        decreases columns.len() - i,
    {
        let c = &columns[i];
        let cut = truncate(c.heading.as_str(), c.width);
        let text = crate::drawing::pad(cut.as_str(), c.width);
        let ghost before = line_views(spans@);
        spans.push(Span { text, style });
        proof {
            assert(line_views(spans@) =~= before.push((crate::drawing::padded(truncated(cs[i as int].heading@, cs[i as int].width), cs[i as int].width), style)));
            assert(cs.take(i + 1).map_values(
                |c: crate::rows::MeasuredColumn| (crate::drawing::padded(truncated(c.heading@, c.width), c.width), style),
            ) =~= cs.take(i as int).map_values(
                |c: crate::rows::MeasuredColumn| (crate::drawing::padded(truncated(c.heading@, c.width), c.width), style),
            ).push((crate::drawing::padded(truncated(cs[i as int].heading@, cs[i as int].width), cs[i as int].width), style)));
        }
        i += 1;
    }
    let line = crate::drawing::interleave(&spans);
    proof {
        assert(cs.take(i as int) =~= cs);
        assert(line_views(spans@).map_values(|s: (Seq<char>, Style)| seq![s]) =~= cs.map_values(
            |c: crate::rows::MeasuredColumn| seq![(crate::drawing::padded(truncated(c.heading@, c.width), c.width), style)],
        ));
    }
    line
}

} // verus!
