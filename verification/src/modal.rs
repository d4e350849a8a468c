//! The modal stack's states, and what each does with a key.
//!
//! A modal is state, not a flag: opening one pushes a variant and closing it pops. The
//! top of the stack receives every key, with no fall-through to the screen underneath,
//! and answers with an [`Outcome`] saying what should happen to it.
use crate::keymap::{help_rows, help_spec, Action, Context, Key, KeyCode};
use crate::label_forms::{label_edit_step, labels_step};
use crate::models::{Label, LabelView, Task};
use crate::text::{chars_of, push_all, string_of, trimmed};
use fuzzy_matcher::skim::SkimMatcherV2;
use fuzzy_matcher::FuzzyMatcher;
use vstd::prelude::*;

pub use crate::label_forms::{LabelEditState, LabelField, LabelsState};

verus! {

/// A text field.
///
/// The cursor is counted in characters, never bytes, and always lies within the text.
#[derive(Debug, Clone, PartialEq, Eq)]
pub struct TextInput {
    value: Vec<char>,
    cursor: usize,
    multiline: bool,
}

/// A text field as a value.
pub struct TextInputView {
    pub value: Seq<char>,
    pub cursor: int,
    pub multiline: bool,
}

impl View for TextInput {
    type V = TextInputView;

    closed spec fn view(&self) -> TextInputView {
        TextInputView { value: self.value@, cursor: self.cursor as int, multiline: self.multiline }
    }
}

/// Whether a key carries the control modifier.
pub open spec fn ctrl_held(key: Key) -> bool {
    key.mods.control
}

/// What a key press does to a field, and whether the field acted on it.
pub open spec fn pressed(s: TextInputView, key: Key) -> (TextInputView, bool) {
    match key.code {
        KeyCode::Char(c) => if c == 'u' && ctrl_held(key) {
            (TextInputView { value: Seq::empty(), cursor: 0, ..s }, true)
        } else if !ctrl_held(key) {
            (TextInputView { value: s.value.insert(s.cursor, c), cursor: s.cursor + 1, ..s }, true)
        } else {
            (s, false)
        },
        KeyCode::Enter => if s.multiline {
            (TextInputView { value: s.value.insert(s.cursor, '\n'), cursor: s.cursor + 1, ..s }, true)
        } else {
            (s, false)
        },
        KeyCode::Backspace => if s.cursor > 0 {
            (TextInputView { value: s.value.remove(s.cursor - 1), cursor: s.cursor - 1, ..s }, true)
        } else {
            (s, false)
        },
        KeyCode::Delete => if s.cursor < s.value.len() {
            (TextInputView { value: s.value.remove(s.cursor), ..s }, true)
        } else {
            (s, false)
        },
        KeyCode::Left => if s.cursor > 0 {
            (TextInputView { cursor: s.cursor - 1, ..s }, true)
        } else {
            (s, false)
        },
        KeyCode::Right => if s.cursor < s.value.len() {
            (TextInputView { cursor: s.cursor + 1, ..s }, true)
        } else {
            (s, false)
        },
        KeyCode::Home => (TextInputView { cursor: 0, ..s }, true),
        KeyCode::End => (TextInputView { cursor: s.value.len() as int, ..s }, true),
        _ => (s, false),
    }
}

/// A field fit to hold: its cursor lies within its text, and the text fits in memory with
/// room for one more character.
pub open spec fn field_ok(s: TextInputView) -> bool {
    0 <= s.cursor <= s.value.len() && s.value.len() < usize::MAX
}

impl Default for TextInput {
    /// An empty single-line field.
    fn default() -> (t: Self)
        ensures
            t@.value == Seq::<char>::empty(),
            t@.cursor == 0,
            !t@.multiline,
            t.wf(),
    {
        TextInput { value: Vec::new(), cursor: 0, multiline: false }
    }
}

impl TextInput {
    /// Whether the cursor lies within the text.
    pub open spec fn wf(&self) -> bool {
        field_ok(self@)
    }

    /// Whether the field holds its cursor within its text.
    pub fn is_wf(&self) -> (r: bool)
        ensures
            r == self.wf(),
    {
        self.cursor <= self.value.len() && self.value.len() < usize::MAX
    }

    /// An empty single-line field.
    pub fn empty() -> (t: Self)
        ensures
            t@.value == Seq::<char>::empty(),
            t@.cursor == 0,
            !t@.multiline,
            t.wf(),
    {
        TextInput { value: Vec::new(), cursor: 0, multiline: false }
    }

    /// A field holding `value`, with the cursor at the end.
    pub fn new(value: &str) -> (t: Self)
        requires
            value@.len() < usize::MAX,
        ensures
            t@.value == value@,
            t@.cursor == value@.len(),
            !t@.multiline,
            t.wf(),
    {
        let chars = chars_of(value);
        let cursor = chars.len();
        TextInput { value: chars, cursor, multiline: false }
    }

    /// A field that takes Enter as a newline rather than leaving it to the modal.
    pub fn multiline(value: &str) -> (t: Self)
        requires
            value@.len() < usize::MAX,
        ensures
            t@.value == value@,
            t@.cursor == value@.len(),
            t@.multiline,
            t.wf(),
    {
        let chars = chars_of(value);
        let cursor = chars.len();
        TextInput { value: chars, cursor, multiline: true }
    }

    /// Whether Enter belongs to this field.
    pub fn is_multiline(&self) -> (r: bool)
        ensures
            r == self@.multiline,
    {
        self.multiline
    }

    /// The text so far.
    pub fn value(&self) -> (s: String)
        ensures
            s@ == self@.value,
    {
        string_of(self.value.as_slice())
    }

    /// The text so far, as characters.
    pub fn chars(&self) -> (s: &Vec<char>)
        ensures
            s@ == self@.value,
    {
        &self.value
    }

    /// Where the cursor sits, in characters from the start.
    pub fn cursor(&self) -> (c: usize)
        ensures
            c == self@.cursor,
    {
        self.cursor
    }

    /// How many characters the field holds.
    pub fn len(&self) -> (n: usize)
        ensures
            n == self@.value.len(),
    {
        self.value.len()
    }

    /// Apply a key press. Returns whether it was one this field acts on.
    ///
    /// Ctrl-U clears the field, which is what makes a prefilled field practical.
    pub fn press(&mut self, key: Key) -> (used: bool)
        requires
            old(self).wf(),
        ensures
            (final(self)@, used) == pressed(old(self)@, key),
            final(self).wf() || final(self)@.value.len() == usize::MAX,
    {
        match key.code {
            KeyCode::Char(c) => {
                if c == 'u' && key.mods.control {
                    self.value = Vec::new();
                    self.cursor = 0;
                    true
                } else if !key.mods.control {
                    self.value.insert(self.cursor, c);
                    self.cursor = self.cursor + 1;
                    true
                } else {
                    false
                }
            },
            KeyCode::Enter => {
                if self.multiline {
                    self.value.insert(self.cursor, '\n');
                    self.cursor = self.cursor + 1;
                    true
                } else {
                    false
                }
            },
            KeyCode::Backspace => {
                if self.cursor > 0 {
                    self.value.remove(self.cursor - 1);
                    self.cursor = self.cursor - 1;
                    true
                } else {
                    false
                }
            },
            KeyCode::Delete => {
                if self.cursor < self.value.len() {
                    self.value.remove(self.cursor);
                    true
                } else {
                    false
                }
            },
            KeyCode::Left => {
                if self.cursor > 0 {
                    self.cursor = self.cursor - 1;
                    true
                } else {
                    false
                }
            },
            KeyCode::Right => {
                if self.cursor < self.value.len() {
                    self.cursor = self.cursor + 1;
                    true
                } else {
                    false
                }
            },
            KeyCode::Home => {
                self.cursor = 0;
                true
            },
            KeyCode::End => {
                self.cursor = self.value.len();
                true
            },
            _ => false,
        }
    }
}

/// Inserting a character and then deleting the one before the cursor gives back the field
/// as it was.
pub proof fn law_backspace_undoes_typing(s: TextInputView, c: char)
    requires
        field_ok(s),
        c != 'u',
    ensures
        pressed(
            pressed(s, Key { code: KeyCode::Char(c), mods: crate::keymap::no_mods() }).0,
            Key { code: KeyCode::Backspace, mods: crate::keymap::no_mods() },
        ).0 == s,
{
    let typed = pressed(s, Key { code: KeyCode::Char(c), mods: crate::keymap::no_mods() }).0;
    assert(typed.value.remove(s.cursor) =~= s.value);
}

/// What each editing key does to a field, character by character: Delete takes out the
/// character at the cursor and leaves the cursor where it was; Backspace takes out the one
/// before it and steps back; a typed character goes in at the cursor, which steps past it;
/// Left and Right step the cursor without touching the text, and Home and End send it to
/// either end. A key with nothing to act on leaves the field as it was and is not used.
pub proof fn law_editing_keys_act_at_the_cursor(s: TextInputView, key: Key)
    requires
        field_ok(s),
    ensures
        ({
            let (t, used) = pressed(s, key);
            &&& key.code == KeyCode::Delete && s.cursor < s.value.len() ==> {
                &&& t.value == s.value.take(s.cursor) + s.value.skip(s.cursor + 1)
                &&& t.value.len() == s.value.len() - 1
                &&& t.cursor == s.cursor
                &&& used
            }
            &&& key.code == KeyCode::Delete && s.cursor == s.value.len() ==> t == s && !used
            &&& key.code == KeyCode::Backspace && s.cursor > 0 ==> {
                &&& t.value == s.value.take(s.cursor - 1) + s.value.skip(s.cursor)
                &&& t.cursor == s.cursor - 1
                &&& used
            }
            &&& key.code == KeyCode::Backspace && s.cursor == 0 ==> t == s && !used
            &&& (key.code matches KeyCode::Char(c) && !key.mods.control) ==> {
                &&& t.value == s.value.take(s.cursor) + seq![key.code->Char_0] + s.value.skip(s.cursor)
                &&& t.cursor == s.cursor + 1
                &&& used
            }
            &&& key.code == KeyCode::Left ==> t.value == s.value && t.cursor == if s.cursor > 0 {
                s.cursor - 1
            } else {
                s.cursor
            }
            &&& key.code == KeyCode::Right ==> t.value == s.value && t.cursor == if s.cursor < s.value.len() {
                s.cursor + 1
            } else {
                s.cursor
            }
            &&& key.code == KeyCode::Home ==> t.value == s.value && t.cursor == 0
            &&& key.code == KeyCode::End ==> t.value == s.value && t.cursor == s.value.len()
            &&& key.code == KeyCode::Char('u') && key.mods.control ==> t.value.len() == 0 && t.cursor == 0
                && used
            &&& key.code == KeyCode::Enter && s.multiline ==> {
                &&& t.value == s.value.take(s.cursor) + seq!['\n'] + s.value.skip(s.cursor)
                &&& t.cursor == s.cursor + 1
            }
            &&& key.code == KeyCode::Enter && !s.multiline ==> t == s && !used
        }),
{
    let (t, used) = pressed(s, key);
    if key.code == KeyCode::Delete && s.cursor < s.value.len() {
        assert(t.value =~= s.value.take(s.cursor) + s.value.skip(s.cursor + 1));
    }
    if key.code == KeyCode::Backspace && s.cursor > 0 {
        assert(t.value =~= s.value.take(s.cursor - 1) + s.value.skip(s.cursor));
    }
    if key.code == KeyCode::Enter && s.multiline {
        assert(t.value =~= s.value.take(s.cursor) + seq!['\n'] + s.value.skip(s.cursor));
    }
    match key.code {
        KeyCode::Char(c) => {
            if !key.mods.control {
                assert(t.value =~= s.value.take(s.cursor) + seq![c] + s.value.skip(s.cursor));
            }
        },
        _ => {},
    }
}

/// Delete at the cursor does what stepping right and then deleting backwards does.
pub proof fn law_delete_is_right_then_backspace(s: TextInputView)
    requires
        field_ok(s),
        s.cursor < s.value.len(),
    ensures
        pressed(s, Key { code: KeyCode::Delete, mods: crate::keymap::no_mods() }) == pressed(
            pressed(s, Key { code: KeyCode::Right, mods: crate::keymap::no_mods() }).0,
            Key { code: KeyCode::Backspace, mods: crate::keymap::no_mods() },
        ),
{
    let a = pressed(s, Key { code: KeyCode::Delete, mods: crate::keymap::no_mods() }).0;
    let b = pressed(
        pressed(s, Key { code: KeyCode::Right, mods: crate::keymap::no_mods() }).0,
        Key { code: KeyCode::Backspace, mods: crate::keymap::no_mods() },
    ).0;
    assert(a.value =~= b.value);
}

/// Every key leaves the cursor within the text.
pub proof fn law_cursor_stays_in_the_text(s: TextInputView, key: Key)
    requires
        field_ok(s),
    ensures
        0 <= pressed(s, key).0.cursor <= pressed(s, key).0.value.len(),
        pressed(s, key).0.multiline == s.multiline,
{
}

/// How well `choice` matches `pattern`, by `fuzzy-matcher`'s skim algorithm, or `None`
/// when it does not match at all.
pub uninterp spec fn fuzzy_score(choice: Seq<char>, pattern: Seq<char>) -> Option<i64>;

/// `SkimMatcherV2::fuzzy_match` with the default configuration.
///
/// Its score depends on the two texts alone; the contract names it and says nothing of
/// the algorithm.
#[verifier::external_body]
fn fuzzy_match(choice: &str, pattern: &str) -> (r: Option<i64>)
    ensures
        r == fuzzy_score(choice@, pattern@),
{
    SkimMatcherV2::default().fuzzy_match(choice, pattern)
}

/// Whether match `a` ranks before match `b`: a higher score first, and on a tie the one
/// that came first in the list.
pub open spec fn ranks_before(titles: Seq<Seq<char>>, query: Seq<char>, a: int, b: int) -> bool {
    let sa = fuzzy_score(titles[a], query)->0;
    let sb = fuzzy_score(titles[b], query)->0;
    sa > sb || (sa == sb && a < b)
}

/// The indices of `titles` matching `query`, best match first: every matching index once,
/// no other, ordered by [`ranks_before`]. With nothing typed, every index in order.
pub open spec fn ranked(titles: Seq<Seq<char>>, query: Seq<char>, order: Seq<usize>) -> bool {
    if query.len() == 0 {
        order == Seq::new(titles.len(), |i: int| i as usize)
    } else {
        &&& forall|k: int|
            0 <= k < order.len() ==> (#[trigger] order[k]) < titles.len() && fuzzy_score(
                titles[order[k] as int],
                query,
            ) is Some
        &&& forall|j: int|
            0 <= j < titles.len() && (#[trigger] fuzzy_score(titles[j], query)) is Some
                ==> order.contains(j as usize)
        &&& forall|a: int, b: int|
            0 <= a < b < order.len() ==> ranks_before(
                titles,
                query,
                #[trigger] order[a] as int,
                #[trigger] order[b] as int,
            )
    }
}

/// The identity order over `n` items.
pub(crate) fn every_index(n: usize) -> (order: Vec<usize>)
    ensures
        order@ == Seq::new(n as nat, |i: int| i as usize),
{
    let mut order: Vec<usize> = Vec::new();
    let mut i: usize = 0;
    while i < n
        invariant
            i <= n,
            order@ == Seq::new(i as nat, |k: int| k as usize),
        decreases n - i,
    {
        order.push(i);
        proof {
            assert(order@ =~= Seq::new((i + 1) as nat, |k: int| k as usize));
        }
        i += 1;
    }
    order
}

/// Indices of `titles` matching `query`, best match first.
///
/// Shared by every modal that filters as it is typed, so "does this match what I typed"
/// has one answer. Ties break on the order given, which stops the list reshuffling
/// under someone who is still typing.
pub fn fuzzy_order(titles: &Vec<String>, query: &String) -> (order: Vec<usize>)
    ensures
        ranked(titles@.map_values(|t: String| t@), query@, order@),
{
    let ghost ts = titles@.map_values(|t: String| t@);
    let q = chars_of(query.as_str());
    if q.len() == 0 {
        return every_index(titles.len());
    }
    let mut order: Vec<usize> = Vec::new();
    let mut scores: Vec<i64> = Vec::new();
    let mut i: usize = 0;
    while i < titles.len()
        invariant
            i <= titles.len(),
            ts == titles@.map_values(|t: String| t@),
            query@.len() > 0,
            order@.len() == scores@.len(),
            forall|k: int|
                0 <= k < order@.len() ==> (#[trigger] order@[k]) < i && fuzzy_score(
                    ts[order@[k] as int],
                    query@,
                ) == Some(scores@[k]),
            forall|j: int|
                0 <= j < i && (#[trigger] fuzzy_score(ts[j], query@)) is Some ==> order@.contains(
                    j as usize,
                ),
            forall|a: int, b: int|
                0 <= a < b < order@.len() ==> ranks_before(
                    ts,
                    query@,
                    #[trigger] order@[a] as int,
                    #[trigger] order@[b] as int,
                ),
        decreases titles.len() - i,
    {
        let score = fuzzy_match(titles[i].as_str(), query.as_str());
        if let Some(s) = score {
            // The first place holding a strictly lower score; equal scores came earlier
            // and stay ahead.
            let mut p: usize = 0;
            while p < order.len() && scores[p] >= s
                invariant
                    p <= order@.len(),
                    order@.len() == scores@.len(),
                    forall|k: int| 0 <= k < p ==> scores@[k] >= s,
                decreases order.len() - p,
            {
                p += 1;
            }
            proof {
                // Everything from `p` on scores strictly lower: the list is sorted.
                assert forall|k: int| p <= k < order@.len() implies scores@[k] < s by {
                    if p < order@.len() {
                        assert(scores@[p as int] < s);
                        if k > p {
                            assert(ranks_before(ts, query@, order@[p as int] as int, order@[k] as int));
                        }
                    }
                }
            }
            let ghost old_order = order@;
            let ghost old_scores = scores@;
            order.insert(p, i);
            scores.insert(p, s);
            proof {
                assert forall|k: int|
                    0 <= k < order@.len() implies (#[trigger] order@[k]) < i + 1 && fuzzy_score(
                    ts[order@[k] as int],
                    query@,
                ) == Some(scores@[k]) by {
                    if k < p {
                        assert(order@[k] == old_order[k]);
                    } else if k > p {
                        assert(order@[k] == old_order[k - 1]);
                    } else {
                        assert(ts[i as int] == titles@[i as int]@);
                    }
                }
                assert forall|j: int|
                    0 <= j < i + 1 && (#[trigger] fuzzy_score(ts[j], query@)) is Some
                        implies order@.contains(j as usize) by {
                    if j < i {
                        let w = choose|w: int| 0 <= w < old_order.len() && old_order[w] == j as usize;
                        if w < p {
                            assert(order@[w] == j as usize);
                        } else {
                            assert(order@[w + 1] == j as usize);
                        }
                    } else {
                        assert(order@[p as int] == i);
                    }
                }
                assert forall|a: int, b: int|
                    0 <= a < b < order@.len() implies ranks_before(
                    ts,
                    query@,
                    #[trigger] order@[a] as int,
                    #[trigger] order@[b] as int,
                ) by {
                    let oa = if a < p { a } else if a == p { -1 } else { a - 1 };
                    let ob = if b < p { b } else if b == p { -1 } else { b - 1 };
                    if a != p && b != p {
                        assert(ranks_before(ts, query@, old_order[oa] as int, old_order[ob] as int));
                    } else if a == p {
                        assert(scores@[b] == old_scores[ob]);
                        assert(old_scores[ob] < s);
                    } else {
                        assert(scores@[a] == old_scores[oa]);
                        assert(old_scores[oa] >= s);
                        assert(old_order[oa] < i);
                    }
                }
            }
        }
        i += 1;
    }
    order
}

/// What choosing a candidate means.
///
/// The payload rather than a bare id, so a command picker cannot submit a project and a
/// project picker cannot submit an action.
#[derive(Debug, Clone, Copy, PartialEq, Eq, Structural)]
pub enum Pick {
    /// Show this project.
    Project(i64),
    /// Filter by this label.
    Label(i64),
    /// Run this action, exactly as its key would.
    Command(Action),
    /// Move the selected task into this project.
    MoveTo(i64),
}

/// One thing a picker can offer.
#[derive(Debug, Clone, PartialEq, Eq)]
pub struct Candidate {
    /// What choosing it does.
    pub pick: Pick,
    /// What the user reads and types against.
    pub title: String,
    /// Shown dimmed on the right.
    pub hint: String,
}

impl Candidate {
    /// A candidate with no hint.
    pub fn new(pick: Pick, title: String) -> (c: Self)
        ensures
            c.pick == pick,
            c.title@ == title@,
            c.hint@ == Seq::<char>::empty(),
    {
        Candidate { pick, title, hint: String::new() }
    }

    /// The same, with a hint on the right.
    pub fn hinted(pick: Pick, title: String, hint: String) -> (c: Self)
        ensures
            c.pick == pick,
            c.title@ == title@,
            c.hint@ == hint@,
    {
        Candidate { pick, title, hint }
    }
}

/// What a picker picks.
#[derive(Debug, Clone, Copy, PartialEq, Eq, Structural)]
pub enum PickerKind {
    /// A project to show.
    Project,
    /// A label to filter by.
    Label,
    /// A command to run.
    Command,
    /// A project to move the selected task into.
    MoveProject,
}

/// A picker's title. The label picker's names its modal-local `C-e`.
pub open spec fn picker_title(kind: PickerKind) -> Seq<char> {
    match kind {
        PickerKind::Project => "Go to project"@,
        PickerKind::Label => "Go to label  —  C-e edits"@,
        PickerKind::Command => "Run a command"@,
        PickerKind::MoveProject => "Move to project"@,
    }
}

impl PickerKind {
    /// The modal's title.
    pub fn title(self) -> (s: &'static str)
        ensures
            s@ == picker_title(self),
    {
        match self {
            PickerKind::Project => "Go to project",
            PickerKind::Label => "Go to label  —  C-e edits",
            PickerKind::Command => "Run a command",
            PickerKind::MoveProject => "Move to project",
        }
    }
}

/// What a modal asks `update` to do.
#[derive(Debug, Clone, PartialEq)]
pub enum Submission {
    /// Filter the list by this text. Empty clears the search.
    Search(String),
    /// Do what the chosen candidate says.
    Picked(Pick),
    /// Create a task from this quick-add text.
    Add(String),
    /// Apply this filled-in edit form.
    Edited(Box<EditDraft>),
    /// Set the selected task's priority to this, 0 to 5.
    Priority(i64),
    /// Set the selected task's due date from this text. Empty clears it.
    Due(String),
    /// Make these, exactly these, the selected task's labels.
    Labels(Vec<i64>),
    /// Create a label with this title; the form that asked stays open.
    CreateLabel(String),
    /// Open the label form over this label; the list underneath stays open.
    EditLabel(i64),
    /// Rename and recolour this label, in one request and one undo step.
    EditedLabel {
        /// The label as the form opened over it.
        before: Box<Label>,
        /// Its new title.
        title: String,
        /// Its new colour: six hex digits, or empty.
        hex_color: String,
    },
    /// Run the configured quick action at this index.
    QuickAction(usize),
}

/// A submission as a value.
pub enum SubmissionView {
    Search(Seq<char>),
    Picked(Pick),
    Add(Seq<char>),
    Edited(EditDraftView),
    Priority(i64),
    Due(Seq<char>),
    Labels(Seq<i64>),
    CreateLabel(Seq<char>),
    EditLabel(i64),
    EditedLabel { before: LabelView, title: Seq<char>, hex_color: Seq<char> },
    QuickAction(usize),
}

impl View for Submission {
    type V = SubmissionView;

    open spec fn view(&self) -> SubmissionView {
        match self {
            Submission::Search(t) => SubmissionView::Search(t@),
            Submission::Picked(p) => SubmissionView::Picked(*p),
            Submission::Add(t) => SubmissionView::Add(t@),
            Submission::Edited(d) => SubmissionView::Edited((**d)@),
            Submission::Priority(p) => SubmissionView::Priority(*p),
            Submission::Due(t) => SubmissionView::Due(t@),
            Submission::Labels(ids) => SubmissionView::Labels(ids@),
            Submission::CreateLabel(t) => SubmissionView::CreateLabel(t@),
            Submission::EditLabel(id) => SubmissionView::EditLabel(*id),
            Submission::EditedLabel { before, title, hex_color } => SubmissionView::EditedLabel {
                before: (**before)@,
                title: title@,
                hex_color: hex_color@,
            },
            Submission::QuickAction(i) => SubmissionView::QuickAction(*i),
        }
    }
}

/// What a modal decided about a key.
#[derive(Debug, Clone, PartialEq)]
pub enum Outcome {
    /// Handled; nothing else should see it.
    Consumed,
    /// Close me.
    Dismiss,
    /// Close me and do this.
    Submit(Submission),
    /// Do this, but stay open.
    Update(Submission),
}

/// An outcome as a value.
pub enum OutcomeView {
    Consumed,
    Dismiss,
    Submit(SubmissionView),
    Update(SubmissionView),
}

impl View for Outcome {
    type V = OutcomeView;

    open spec fn view(&self) -> OutcomeView {
        match self {
            Outcome::Consumed => OutcomeView::Consumed,
            Outcome::Dismiss => OutcomeView::Dismiss,
            Outcome::Submit(s) => OutcomeView::Submit(s@),
            Outcome::Update(s) => OutcomeView::Update(s@),
        }
    }
}

/// A fuzzy picker over a fixed candidate list.
#[derive(Debug, Clone, PartialEq)]
pub struct PickerState {
    /// What is being picked.
    pub kind: PickerKind,
    /// The query typed so far.
    pub input: TextInput,
    /// Everything offered, unfiltered.
    pub candidates: Vec<Candidate>,
    /// Indices into `candidates`, best match first.
    pub matches: Vec<usize>,
    /// Which match is highlighted, as a position in `matches`.
    pub selected: usize,
}

/// The titles of some candidates, in order.
pub open spec fn candidate_titles(candidates: Seq<Candidate>) -> Seq<Seq<char>> {
    candidates.map_values(|c: Candidate| c.title@)
}

/// A highlight moved down one row, wrapping past the last.
pub open spec fn next_row(selected: usize, count: nat) -> usize {
    if count == 0 {
        selected
    } else {
        ((selected + 1) % (count as int)) as usize
    }
}

/// A highlight moved up one row, wrapping past the first.
pub open spec fn previous_row(selected: usize, count: nat) -> usize {
    if count == 0 {
        selected
    } else if selected == 0 {
        (count - 1) as usize
    } else {
        (selected - 1) as usize
    }
}

/// A highlight kept on the list after it was refiltered to `count` rows.
pub open spec fn clamped_row(selected: usize, count: nat) -> usize {
    if count == 0 {
        0
    } else if selected as int <= count - 1 {
        selected
    } else {
        (count - 1) as usize
    }
}

pub(crate) fn step_down(selected: usize, count: usize) -> (r: usize)
    ensures
        r == next_row(selected, count as nat),
{
    if count == 0 {
        selected
    } else {
        let m = selected % count;
        proof {
            vstd::arithmetic::div_mod::lemma_add_mod_noop(selected as int, 1, count as int);
            if count > 1 {
                vstd::arithmetic::div_mod::lemma_small_mod(1, count as nat);
            }
        }
        if m + 1 == count {
            proof {
                vstd::arithmetic::div_mod::lemma_mod_self_0(count as int);
                if count == 1 {
                    assert((selected + 1) % 1int == 0);
                }
            }
            0
        } else {
            proof {
                vstd::arithmetic::div_mod::lemma_small_mod((m + 1) as nat, count as nat);
            }
            m + 1
        }
    }
}

pub(crate) fn step_up(selected: usize, count: usize) -> (r: usize)
    ensures
        r == previous_row(selected, count as nat),
{
    if count == 0 {
        selected
    } else if selected == 0 {
        count - 1
    } else {
        selected - 1
    }
}

pub(crate) fn clamp_row(selected: usize, count: usize) -> (r: usize)
    ensures
        r == clamped_row(selected, count as nat),
{
    if count == 0 {
        0
    } else if selected <= count - 1 {
        selected
    } else {
        count - 1
    }
}

/// Picking up and then down, or down and then up, lands on the same row, for a highlight
/// on the list.
pub proof fn law_picker_selection_wraps_both_ways(selected: usize, count: nat)
    requires
        count > 0,
        selected < count,
        count < usize::MAX,
    ensures
        previous_row(next_row(selected, count), count) == selected,
        next_row(previous_row(selected, count), count) == selected,
        next_row(selected, count) < count,
        previous_row(selected, count) < count,
{
    if selected + 1 < count {
        assert((selected + 1) % (count as int) == selected + 1) by (nonlinear_arith)
            requires
                0 <= selected + 1 < count,
        ;
    } else {
        assert((selected + 1) % (count as int) == 0) by (nonlinear_arith)
            requires
                selected + 1 == count,
                count > 0,
        ;
    }
    if selected == 0 {
        assert((count as int) % (count as int) == 0) by (nonlinear_arith)
            requires
                count > 0,
        ;
    } else {
        assert((selected as int) % (count as int) == selected) by (nonlinear_arith)
            requires
                0 < selected < count,
        ;
    }
}

fn titles_of(candidates: &Vec<Candidate>) -> (titles: Vec<String>)
    ensures
        titles@.map_values(|t: String| t@) == candidate_titles(candidates@),
{
    let mut titles: Vec<String> = Vec::new();
    let mut i: usize = 0;
    while i < candidates.len()
        invariant
            i <= candidates.len(),
            titles@.len() == i,
            forall|k: int| 0 <= k < i ==> (#[trigger] titles@[k])@ == candidates@[k].title@,
        decreases candidates.len() - i,
    {
        titles.push(candidates[i].title.clone());
        i += 1;
    }
    assert(titles@.map_values(|t: String| t@) =~= candidate_titles(candidates@));
    titles
}

impl PickerState {
    /// A picker over `candidates`, with nothing typed.
    pub fn new(kind: PickerKind, candidates: Vec<Candidate>) -> (p: Self)
        ensures
            p.kind == kind,
            p.input@.value == Seq::<char>::empty(),
            p.input.wf(),
            p.candidates@ == candidates@,
            p.matches@ == Seq::new(candidates@.len(), |i: int| i as usize),
            p.selected == 0,
    {
        let matches = every_index(candidates.len());
        PickerState { kind, input: TextInput::empty(), candidates, matches, selected: 0 }
    }

    /// The candidate under the cursor.
    pub fn current(&self) -> (c: Option<&Candidate>)
        ensures
            c == (if self.selected < self.matches@.len() && self.matches@[self.selected as int]
                < self.candidates@.len() {
                Some(&self.candidates@[self.matches@[self.selected as int] as int])
            } else {
                None
            }),
    {
        if self.selected < self.matches.len() {
            let index = self.matches[self.selected];
            if index < self.candidates.len() {
                return Some(&self.candidates[index]);
            }
        }
        None
    }

    fn refilter(&mut self)
        ensures
            final(self).kind == old(self).kind,
            final(self).input == old(self).input,
            final(self).candidates == old(self).candidates,
            ranked(candidate_titles(old(self).candidates@), old(self).input@.value, final(self).matches@),
            final(self).selected == clamped_row(old(self).selected, final(self).matches@.len()),
    {
        let titles = titles_of(&self.candidates);
        let query = self.input.value();
        let matches = fuzzy_order(&titles, &query);
        let count = matches.len();
        self.matches = matches;
        self.selected = clamp_row(self.selected, count);
    }
}

/// What a picker does with a key: the state it leaves and the outcome it answers.
pub open spec fn picker_outcome(p: PickerState, key: Key) -> OutcomeView {
    let current = if p.selected < p.matches@.len() && p.matches@[p.selected as int]
        < p.candidates@.len() {
        Some(p.candidates@[p.matches@[p.selected as int] as int].pick)
    } else {
        None
    };
    match key.code {
        KeyCode::Esc => OutcomeView::Dismiss,
        KeyCode::Enter => match current {
            Some(pick) => OutcomeView::Submit(SubmissionView::Picked(pick)),
            None => OutcomeView::Consumed,
        },
        KeyCode::Char('e') if key.mods.control => match current {
            Some(Pick::Label(id)) => OutcomeView::Update(SubmissionView::EditLabel(id)),
            _ => OutcomeView::Consumed,
        },
        _ => OutcomeView::Consumed,
    }
}

/// What a picker does with a key: how it leaves the picker and what it answers.
pub open spec fn picker_step(before: PickerState, key: Key, after: PickerState, o: OutcomeView) -> bool {
    &&& o == picker_outcome(before, key)
    &&& after.kind == before.kind
    &&& after.candidates == before.candidates
    &&& match key.code {
        KeyCode::Esc | KeyCode::Enter => after == before,
        KeyCode::Char('e') if key.mods.control => after == before,
        KeyCode::Down | KeyCode::Tab => after.input == before.input && after.matches == before.matches
            && after.selected == next_row(before.selected, before.matches@.len()),
        KeyCode::Up | KeyCode::BackTab => after.input == before.input && after.matches
            == before.matches && after.selected == previous_row(
            before.selected,
            before.matches@.len(),
        ),
        _ => (after.input@, pressed(before.input@, key).1) == pressed(before.input@, key) && if pressed(
            before.input@,
            key,
        ).1 {
            ranked(candidate_titles(before.candidates@), after.input@.value, after.matches@)
                && after.selected == clamped_row(before.selected, after.matches@.len())
        } else {
            after.matches == before.matches && after.selected == before.selected
        },
    }
}

impl PickerState {
    /// React to a key.
    ///
    /// Enter submits the highlighted candidate and only that; with nothing matched it
    /// does nothing, rather than something arbitrary. `C-e` opens the label form, over a
    /// label only. Up and Down wrap. Anything the query field takes refilters the list.
    pub fn handle(&mut self, key: Key) -> (o: Outcome)
        requires
            old(self).input.wf(),
        ensures
            picker_step(*old(self), key, *final(self), o@),
    {
        match key.code {
            KeyCode::Esc => Outcome::Dismiss,
            KeyCode::Enter => match self.current() {
                Some(candidate) => Outcome::Submit(Submission::Picked(candidate.pick)),
                None => Outcome::Consumed,
            },
            KeyCode::Char('e') if key.mods.control => match self.current() {
                Some(candidate) => match candidate.pick {
                    Pick::Label(id) => Outcome::Update(Submission::EditLabel(id)),
                    _ => Outcome::Consumed,
                },
                None => Outcome::Consumed,
            },
            KeyCode::Down | KeyCode::Tab => {
                self.selected = step_down(self.selected, self.matches.len());
                Outcome::Consumed
            },
            KeyCode::Up | KeyCode::BackTab => {
                self.selected = step_up(self.selected, self.matches.len());
                Outcome::Consumed
            },
            _ => {
                if self.input.press(key) {
                    self.refilter();
                }
                Outcome::Consumed
            },
        }
    }

    /// The title drawn in the border.
    pub fn title(&self) -> (s: String)
        ensures
            s@ == picker_title(self.kind),
    {
        let t = self.kind.title();
        String::from_str(t)
    }
}

/// An incremental search.
///
/// Holds what the list was filtered by *before* the search opened, so `Esc` can restore
/// it rather than merely clear it.
#[derive(Debug, Clone, PartialEq, Eq)]
pub struct SearchState {
    /// What has been typed.
    pub input: TextInput,
    /// The filter to restore if the search is abandoned.
    pub original: Option<String>,
}

/// The text of an optional string, empty when there is none.
pub open spec fn or_empty(s: Option<String>) -> Seq<char> {
    match s {
        Some(t) => t@,
        None => Seq::empty(),
    }
}

/// What a search does with a key: how it leaves the search and what it answers.
pub open spec fn search_step(before: SearchState, key: Key, after: SearchState, o: OutcomeView) -> bool {
    &&& after.original == before.original
    &&& match key.code {
        KeyCode::Esc => o == OutcomeView::Submit(SubmissionView::Search(or_empty(before.original)))
            && after.input == before.input,
        KeyCode::Enter => o == OutcomeView::Dismiss && after.input == before.input,
        _ => {
            &&& (after.input@, pressed(before.input@, key).1) == pressed(before.input@, key)
            &&& o == if pressed(before.input@, key).1 {
                OutcomeView::Update(SubmissionView::Search(after.input@.value))
            } else {
                OutcomeView::Consumed
            }
        },
    }
}

impl SearchState {
    /// A search that starts from `original`, prefilled with it.
    pub fn new(original: Option<String>) -> (s: Self)
        requires
            or_empty(original).len() < usize::MAX,
        ensures
            s.original == original,
            s.input@.value == or_empty(original),
            s.input@.cursor == or_empty(original).len(),
            s.input.wf(),
    {
        let input = match &original {
            Some(text) => TextInput::new(text.as_str()),
            None => TextInput::empty(),
        };
        SearchState { input, original }
    }

    /// React to a key: `Esc` restores the filter the search opened over, `Enter` only
    /// puts the prompt away, and every edit asks for the narrower list without closing.
    pub fn handle(&mut self, key: Key) -> (o: Outcome)
        requires
            old(self).input.wf(),
        ensures
            search_step(*old(self), key, *final(self), o@),

    {
        match key.code {
            KeyCode::Esc => {
                let text = match &self.original {
                    Some(t) => t.clone(),
                    None => String::new(),
                };
                Outcome::Submit(Submission::Search(text))
            },
            KeyCode::Enter => Outcome::Dismiss,
            _ => {
                if self.input.press(key) {
                    Outcome::Update(Submission::Search(self.input.value()))
                } else {
                    Outcome::Consumed
                }
            },
        }
    }

    /// The title drawn in the border.
    pub fn title(&self) -> (s: String)
        ensures
            s@ == "Search"@,
    {
        String::from_str("Search")
    }
}

/// Help, rendered from the keymap table.
#[derive(Debug, Clone, Copy, PartialEq, Eq)]
pub struct HelpState {
    /// Which pane's bindings to include, alongside the global ones.
    pub context: Context,
    /// First visible line, for scrolling.
    pub offset: usize,
}

/// What help does with a key: how it leaves the help screen and what it answers.
pub open spec fn help_step(before: HelpState, key: Key, after: HelpState, o: OutcomeView) -> bool {
    let rows = help_spec(before.context).len();
    &&& after.context == before.context
    &&& match key.code {
        KeyCode::Char('j') | KeyCode::Down => o == OutcomeView::Consumed && after.offset == if before.offset
            + 1 <= rows - 1 {
            before.offset + 1
        } else if rows == 0 {
            0
        } else {
            rows - 1
        },
        KeyCode::Char('k') | KeyCode::Up => o == OutcomeView::Consumed && after.offset == if before.offset
            > 0 {
            before.offset - 1
        } else {
            0
        },
        _ => o == OutcomeView::Dismiss && after.offset == before.offset,
    }
}

impl Default for HelpState {
    /// Help over the global bindings, scrolled to the top.
    fn default() -> (h: Self)
        ensures
            h.context == Context::Global,
            h.offset == 0,
    {
        HelpState { context: Context::Global, offset: 0 }
    }
}

impl HelpState {
    /// Help for `context`, scrolled to the top.
    pub fn new(context: Context) -> (h: Self)
        ensures
            h.context == context,
            h.offset == 0,
    {
        HelpState { context, offset: 0 }
    }

    /// React to a key: `j`/`k` and the arrows scroll, bounded by the content so the last
    /// line stays on screen, and any other key closes help.
    pub fn handle(&mut self, key: Key) -> (o: Outcome)
        requires
            old(self).offset < usize::MAX,
        ensures
            help_step(*old(self), key, *final(self), o@),

    {
        match key.code {
            KeyCode::Char('j') | KeyCode::Down => {
                let rows = help_rows(self.context);
                proof {
                    assert(rows@.len() == help_spec(self.context).len());
                }
                let last = if rows.len() > 0 {
                    rows.len() - 1
                } else {
                    0
                };
                self.offset = if self.offset + 1 <= last {
                    self.offset + 1
                } else {
                    last
                };
                Outcome::Consumed
            },
            KeyCode::Char('k') | KeyCode::Up => {
                self.offset = if self.offset > 0 {
                    self.offset - 1
                } else {
                    0
                };
                Outcome::Consumed
            },
            _ => Outcome::Dismiss,
        }
    }

    /// The title drawn in the border.
    pub fn title(&self) -> (s: String)
        ensures
            s@ == "Keys"@,
    {
        String::from_str("Keys")
    }
}

/// What the quick-add prompt does with a key: how it leaves the field and what it answers.
pub open spec fn add_step(before: TextInput, key: Key, after: TextInput, o: OutcomeView) -> bool {
    match key.code {
        KeyCode::Esc => o == OutcomeView::Dismiss && after == before,
        KeyCode::Enter => o == OutcomeView::Submit(SubmissionView::Add(before@.value)) && after == before,
        _ => o == OutcomeView::Consumed && after@ == pressed(before@, key).0,
    }
}

impl TextInput {
    /// React to a key as the quick-add prompt: `Esc` abandons, `Enter` submits the text,
    /// everything else edits it.
    pub fn handle(&mut self, key: Key) -> (o: Outcome)
        requires
            old(self).wf(),
        ensures
            add_step(*old(self), key, *final(self), o@),

    {
        match key.code {
            KeyCode::Esc => Outcome::Dismiss,
            KeyCode::Enter => Outcome::Submit(Submission::Add(self.value())),
            _ => {
                self.press(key);
                Outcome::Consumed
            },
        }
    }

    /// The title drawn in the border.
    pub fn title(&self) -> (s: String)
        ensures
            s@ == "Add a task"@,
    {
        String::from_str("Add a task")
    }
}

/// Which field of the edit form has the keyboard.
#[derive(Debug, Clone, Copy, PartialEq, Eq, Structural)]
pub enum EditField {
    Title,
    Description,
    Priority,
    Due,
    Project,
    Labels,
}

/// Every field, in the order they are shown and tabbed through.
pub open spec fn edit_fields() -> Seq<EditField> {
    seq![
        EditField::Title,
        EditField::Description,
        EditField::Priority,
        EditField::Due,
        EditField::Project,
        EditField::Labels,
    ]
}

/// Where a field sits in the form.
pub open spec fn field_index(f: EditField) -> int {
    match f {
        EditField::Title => 0,
        EditField::Description => 1,
        EditField::Priority => 2,
        EditField::Due => 3,
        EditField::Project => 4,
        EditField::Labels => 5,
    }
}

/// The field after, or before, `f`, wrapping at either end.
pub open spec fn stepped(f: EditField, forward: bool) -> EditField {
    let at = field_index(f);
    edit_fields()[if forward {
        (at + 1) % 6
    } else {
        (at + 5) % 6
    }]
}

/// What a field is called on screen.
pub open spec fn field_label(f: EditField) -> Seq<char> {
    match f {
        EditField::Title => "Title"@,
        EditField::Description => "Description"@,
        EditField::Priority => "Priority"@,
        EditField::Due => "Due"@,
        EditField::Project => "Project"@,
        EditField::Labels => "Labels"@,
    }
}

impl EditField {
    /// Every field, in the order they are shown and tabbed through.
    pub fn all() -> (v: Vec<EditField>)
        ensures
            v@ == edit_fields(),
    {
        let v = vec![
            EditField::Title,
            EditField::Description,
            EditField::Priority,
            EditField::Due,
            EditField::Project,
            EditField::Labels,
        ];
        assert(v@ =~= edit_fields());
        v
    }

    /// What this field is called on screen.
    pub fn label(self) -> (s: &'static str)
        ensures
            s@ == field_label(self),
    {
        match self {
            EditField::Title => "Title",
            EditField::Description => "Description",
            EditField::Priority => "Priority",
            EditField::Due => "Due",
            EditField::Project => "Project",
            EditField::Labels => "Labels",
        }
    }

    fn step(self, forward: bool) -> (f: EditField)
        ensures
            f == stepped(self, forward),
    {
        let all = EditField::all();
        let at: usize = match self {
            EditField::Title => 0,
            EditField::Description => 1,
            EditField::Priority => 2,
            EditField::Due => 3,
            EditField::Project => 4,
            EditField::Labels => 5,
        };
        let count = all.len();
        let next = if forward {
            (at + 1) % count
        } else {
            (at + count - 1) % count
        };
        all[next]
    }
}

/// Tabbing forward through every field of the edit form comes back to where it started,
/// and a step back undoes a step forward.
pub proof fn law_tab_cycles_the_edit_form(f: EditField)
    ensures
        stepped(stepped(f, true), false) == f,
        stepped(
            stepped(stepped(stepped(stepped(stepped(f, true), true), true), true), true),
            true,
        ) == f,
{
}

/// Parts joined by a separator.
pub open spec fn joined(parts: Seq<Seq<char>>, sep: Seq<char>) -> Seq<char>
    decreases parts.len(),
{
    if parts.len() == 0 {
        Seq::empty()
    } else if parts.len() == 1 {
        parts[0]
    } else {
        joined(parts.drop_last(), sep) + sep + parts.last()
    }
}

/// The titles of some labels, in order.
pub open spec fn label_titles(labels: Seq<LabelView>) -> Seq<Seq<char>> {
    labels.map_values(|l: LabelView| l.title)
}

pub(crate) fn join_label_titles(labels: &Vec<Label>) -> (out: Vec<char>)
    ensures
        out@ == joined(label_titles(labels@.map_values(|l: Label| l@)), ", "@),
{
    let ghost titles = label_titles(labels@.map_values(|l: Label| l@));
    let sep = chars_of(", ");
    let mut out: Vec<char> = Vec::new();
    let mut i: usize = 0;
    while i < labels.len()
        invariant
            i <= labels.len(),
            sep@ == ", "@,
            titles == label_titles(labels@.map_values(|l: Label| l@)),
            titles.len() == labels@.len(),
            out@ == joined(titles.subrange(0, i as int), ", "@),
        decreases labels.len() - i,
    {
        if i > 0 {
            push_all(&mut out, sep.as_slice());
        }
        let t = chars_of(labels[i].title.as_str());
        push_all(&mut out, t.as_slice());
        proof {
            assert(titles.subrange(0, i + 1).drop_last() =~= titles.subrange(0, i as int));
            assert(titles[i as int] == labels@[i as int].title@);
        }
        i += 1;
    }
    assert(titles.subrange(0, titles.len() as int) =~= titles);
    out
}

impl TextInput {
    /// A single-line field holding `chars`, with the cursor at the end.
    pub fn from_chars(chars: Vec<char>) -> (t: Self)
        requires
            chars@.len() < usize::MAX,
        ensures
            t@.value == chars@,
            t@.cursor == chars@.len(),
            !t@.multiline,
            t.wf(),
    {
        let cursor = chars.len();
        TextInput { value: chars, cursor, multiline: false }
    }
}

/// The edit form, over one task.
#[derive(Debug, Clone, PartialEq)]
pub struct EditState {
    /// The task as it was: the mutation's `before`, and what a rejection restores.
    pub before: Box<Task>,
    /// The title field.
    pub title: TextInput,
    /// The description field, which takes Enter as a newline.
    pub description: TextInput,
    /// The priority field.
    pub priority: TextInput,
    /// The due-date field.
    pub due: TextInput,
    /// The project field.
    pub project: TextInput,
    /// The project name the form was opened with, to tell "untouched" from "retyped".
    pub project_was: String,
    /// The labels field.
    pub labels: TextInput,
    /// Which field has the keyboard.
    pub focus: EditField,
}

/// A filled-in edit form, before any of it has been understood: every field is still the
/// text the user typed.
#[derive(Debug, Clone, PartialEq)]
pub struct EditDraft {
    /// The task as it was.
    pub before: Box<Task>,
    /// The new title.
    pub title: String,
    /// The new description.
    pub description: String,
    /// Priority, as typed and trimmed.
    pub priority: String,
    /// The due date, as typed and trimmed.
    pub due: String,
    /// The project name, as typed and trimmed.
    pub project: String,
    /// The project name the form was opened with, trimmed.
    pub project_was: String,
    /// The label names, comma-separated, as typed.
    pub labels: String,
}

/// A draft as a value.
pub struct EditDraftView {
    pub before: crate::models::TaskView,
    pub title: Seq<char>,
    pub description: Seq<char>,
    pub priority: Seq<char>,
    pub due: Seq<char>,
    pub project: Seq<char>,
    pub project_was: Seq<char>,
    pub labels: Seq<char>,
}

impl View for EditDraft {
    type V = EditDraftView;

    open spec fn view(&self) -> EditDraftView {
        EditDraftView {
            before: (*self.before)@,
            title: self.title@,
            description: self.description@,
            priority: self.priority@,
            due: self.due@,
            project: self.project@,
            project_was: self.project_was@,
            labels: self.labels@,
        }
    }
}

/// The draft the form holds right now.
pub open spec fn draft_of(e: EditState) -> EditDraftView {
    EditDraftView {
        before: (*e.before)@,
        title: e.title@.value,
        description: e.description@.value,
        priority: trimmed(e.priority@.value),
        due: trimmed(e.due@.value),
        project: trimmed(e.project@.value),
        project_was: trimmed(e.project_was@),
        labels: e.labels@.value,
    }
}

/// The field with the keyboard, as a value.
pub open spec fn focused_field(e: EditState) -> TextInputView {
    match e.focus {
        EditField::Title => e.title@,
        EditField::Description => e.description@,
        EditField::Priority => e.priority@,
        EditField::Due => e.due@,
        EditField::Project => e.project@,
        EditField::Labels => e.labels@,
    }
}

/// Every field of the form is fit to take a key.
pub open spec fn edit_ok(e: EditState) -> bool {
    e.title.wf() && e.description.wf() && e.priority.wf() && e.due.wf() && e.project.wf()
        && e.labels.wf()
}

/// The form with only the focused field replaced.
pub open spec fn with_focused(e: EditState, after: EditState) -> bool {
    &&& after.before == e.before
    &&& after.project_was == e.project_was
    &&& after.focus == e.focus
    &&& (e.focus != EditField::Title ==> after.title == e.title)
    &&& (e.focus != EditField::Description ==> after.description == e.description)
    &&& (e.focus != EditField::Priority ==> after.priority == e.priority)
    &&& (e.focus != EditField::Due ==> after.due == e.due)
    &&& (e.focus != EditField::Project ==> after.project == e.project)
    &&& (e.focus != EditField::Labels ==> after.labels == e.labels)
}

/// What the edit form does with a key: how it leaves the form and what it answers.
pub open spec fn edit_step(before: EditState, key: Key, after: EditState, o: OutcomeView) -> bool {
    match key.code {
        KeyCode::Esc => o == OutcomeView::Dismiss && after == before,
        KeyCode::Char('s') if key.mods.control => o == OutcomeView::Submit(
            SubmissionView::Edited(draft_of(before)),
        ) && after == before,
        KeyCode::Tab => o == OutcomeView::Consumed && after == (EditState {
            focus: stepped(before.focus, true),
            ..before
        }),
        KeyCode::BackTab => o == OutcomeView::Consumed && after == (EditState {
            focus: stepped(before.focus, false),
            ..before
        }),
        KeyCode::Enter if !focused_field(before).multiline => o == OutcomeView::Consumed && after == (
        EditState { focus: stepped(before.focus, true), ..before }),
        KeyCode::Char(c) if before.focus == EditField::Priority && !key.mods.control => o
            == OutcomeView::Consumed && if priority_text(before.priority@.value.push(c)) {
            with_focused(before, after) && after.priority@ == pressed(before.priority@, key).0
        } else {
            after == before
        },
        _ => o == OutcomeView::Consumed && with_focused(before, after) && focused_field(after)
            == pressed(focused_field(before), key).0,
    }
}

impl EditState {
    /// A form filled in from `task`, with `project_name` shown in the project field.
    ///
    /// The labels are listed by title, comma-separated; the due date is written
    /// `dd/mm/yyyy` in UTC, or left empty.
    pub fn new(task: &Task, project_name: &str) -> (e: Self)
        requires
            task.title@.len() < usize::MAX,
            task.description@.len() < usize::MAX,
            project_name@.len() < usize::MAX,
            joined(label_titles(task@.labels), ", "@).len() < usize::MAX,
            match task.due_date {
                Some(ts) => match crate::dates::day_text(ts, crate::dates::day_pattern()) {
                    Some(d) => d.len() < usize::MAX,
                    None => true,
                },
                None => true,
            },
        ensures
            (*e.before)@ == task@,
            e.title@.value == task.title@,
            e.description@.value == task.description@,
            e.description@.multiline,
            e.priority@.value == crate::text::signed_decimal(task.priority as int),
            e.due@.value == match task.due_date {
                Some(ts) => match crate::dates::day_text(ts, crate::dates::day_pattern()) {
                    Some(d) => d,
                    None => Seq::empty(),
                },
                None => Seq::empty(),
            },
            e.project@.value == project_name@,
            e.project_was@ == project_name@,
            e.labels@.value == joined(label_titles(task@.labels), ", "@),
            e.focus == EditField::Title,
            edit_ok(e),
            !e.title@.multiline && !e.priority@.multiline && !e.due@.multiline
                && !e.project@.multiline && !e.labels@.multiline,
    {
        let labels = join_label_titles(&task.labels);
        let priority = crate::text::signed_decimal_of(task.priority);
        proof {
            assert(priority@.len() < 30) by {
                lemma_signed_short(task.priority as int);
            }
        }
        let due = match task.due_date {
            Some(ts) => match crate::dates::format_day(ts, "%d/%m/%Y") {
                Some(d) => TextInput::new(d.as_str()),
                None => TextInput::empty(),
            },
            None => TextInput::empty(),
        };
        EditState {
            title: TextInput::new(task.title.as_str()),
            description: TextInput::multiline(task.description.as_str()),
            priority: TextInput::from_chars(priority),
            due,
            project: TextInput::new(project_name),
            project_was: String::from_str(project_name),
            labels: TextInput::from_chars(labels),
            focus: EditField::Title,
            before: Box::new(task.duplicate()),
        }
    }

    /// One field's text, for drawing.
    pub fn field(&self, which: EditField) -> (t: &TextInput)
        ensures
            *t == match which {
                EditField::Title => self.title,
                EditField::Description => self.description,
                EditField::Priority => self.priority,
                EditField::Due => self.due,
                EditField::Project => self.project,
                EditField::Labels => self.labels,
            },
    {
        match which {
            EditField::Title => &self.title,
            EditField::Description => &self.description,
            EditField::Priority => &self.priority,
            EditField::Due => &self.due,
            EditField::Project => &self.project,
            EditField::Labels => &self.labels,
        }
    }

    /// What the user typed, for `update` to resolve against the projects and labels it
    /// knows about. The form itself resolves nothing.
    pub fn draft(&self) -> (d: EditDraft)
        ensures
            d@ == draft_of(*self),
    {
        let p = crate::text::trim(self.priority.chars().as_slice());
        let due = crate::text::trim(self.due.chars().as_slice());
        let project = crate::text::trim(self.project.chars().as_slice());
        let was_chars = chars_of(self.project_was.as_str());
        let was = crate::text::trim(was_chars.as_slice());
        EditDraft {
            before: Box::new(self.before.duplicate()),
            title: self.title.value(),
            description: self.description.value(),
            priority: string_of(p.as_slice()),
            due: string_of(due.as_slice()),
            project: string_of(project.as_slice()),
            project_was: string_of(was.as_slice()),
            labels: self.labels.value(),
        }
    }

    fn press_focused(&mut self, key: Key) -> (used: bool)
        requires
            edit_ok(*old(self)),
        ensures
            with_focused(*old(self), *final(self)),
            (focused_field(*final(self)), used) == pressed(focused_field(*old(self)), key),
    {
        match self.focus {
            EditField::Title => self.title.press(key),
            EditField::Description => self.description.press(key),
            EditField::Priority => self.priority.press(key),
            EditField::Due => self.due.press(key),
            EditField::Project => self.project.press(key),
            EditField::Labels => self.labels.press(key),
        }
    }

    fn focused_is_multiline(&self) -> (r: bool)
        ensures
            r == focused_field(*self).multiline,
    {
        match self.focus {
            EditField::Title => self.title.is_multiline(),
            EditField::Description => self.description.is_multiline(),
            EditField::Priority => self.priority.is_multiline(),
            EditField::Due => self.due.is_multiline(),
            EditField::Project => self.project.is_multiline(),
            EditField::Labels => self.labels.is_multiline(),
        }
    }

    /// React to a key.
    ///
    /// `Ctrl-S` saves, because Enter belongs to the description; elsewhere Enter moves on,
    /// like Tab. The priority field refuses any keystroke that would leave it holding
    /// something other than a priority.
    pub fn handle(&mut self, key: Key) -> (o: Outcome)
        requires
            edit_ok(*old(self)),
        ensures
            edit_step(*old(self), key, *final(self), o@),

    {
        match key.code {
            KeyCode::Esc => Outcome::Dismiss,
            KeyCode::Char('s') if key.mods.control => {
                Outcome::Submit(Submission::Edited(Box::new(self.draft())))
            },
            KeyCode::Tab => {
                self.focus = self.focus.step(true);
                Outcome::Consumed
            },
            KeyCode::BackTab => {
                self.focus = self.focus.step(false);
                Outcome::Consumed
            },
            KeyCode::Enter if !self.focused_is_multiline() => {
                self.focus = self.focus.step(true);
                Outcome::Consumed
            },
            KeyCode::Char(c) if self.focus == EditField::Priority && !key.mods.control => {
                let mut candidate = self.priority.chars().clone();
                candidate.push(c);
                if is_priority_chars(candidate.as_slice()) {
                    self.priority.press(key);
                }
                Outcome::Consumed
            },
            _ => {
                self.press_focused(key);
                Outcome::Consumed
            },
        }
    }

    /// The title drawn in the border.
    pub fn title(&self) -> (s: String)
        ensures
            s@ == "Edit task  —  Tab moves, Ctrl-S saves, Esc cancels"@,
    {
        String::from_str("Edit task  —  Tab moves, Ctrl-S saves, Esc cancels")
    }
}

proof fn lemma_decimal_under(n: nat, k: nat)
    requires
        k > 0,
        n < pow10(k),
    ensures
        crate::text::decimal(n).len() <= k,
    decreases k,
{
    if n >= 10 {
        let p = pow10((k - 1) as nat);
        assert(pow10(k) == 10 * p);
        assert(n / 10 < p) by (nonlinear_arith)
            requires
                n < 10 * p,
        ;
        if k == 1 {
            assert(p == 1);
        }
        lemma_decimal_under(n / 10, (k - 1) as nat);
    }
}

/// Ten to the `k`.
pub open spec fn pow10(k: nat) -> nat
    decreases k,
{
    if k == 0 {
        1
    } else {
        10 * pow10((k - 1) as nat)
    }
}

proof fn lemma_signed_short(n: int)
    requires
        i64::MIN <= n <= i64::MAX,
    ensures
        crate::text::signed_decimal(n).len() < 30,
{
    reveal_with_fuel(pow10, 21);
    assert(pow10(20) == 100000000000000000000nat);
    if n < 0 {
        lemma_decimal_under((-n) as nat, 20);
    } else {
        lemma_decimal_under(n as nat, 20);
    }
}

/// The highest priority Vikunja has.
pub const MAX_PRIORITY: i64 = 5;

/// Whether a priority field may hold `text`: empty, `0`–`5`, or `00`–`05`.
pub open spec fn priority_text(text: Seq<char>) -> bool {
    text.len() == 0 || (text.len() == 1 && '0' <= text[0] <= '5') || (text.len() == 2 && text[0]
        == '0' && '0' <= text[1] <= '5')
}

fn is_priority_chars(text: &[char]) -> (r: bool)
    ensures
        r == priority_text(text@),
{
    text.len() == 0 || (text.len() == 1 && '0' <= text[0] && text[0] <= '5') || (text.len() == 2
        && text[0] == '0' && '0' <= text[1] && text[1] <= '5')
}

/// Whether a priority field may hold `text` — empty, `0`–`5`, or `00`–`05`.
///
/// Checked before the keystroke lands, so an invalid priority is never something the
/// form can be holding.
pub fn is_priority_text(text: &str) -> (r: bool)
    ensures
        r == priority_text(text@),
{
    let chars = chars_of(text);
    is_priority_chars(chars.as_slice())
}

/// `priority` kept between 0 and 5.
pub open spec fn clamp_priority(priority: i64) -> i64 {
    if priority < 0 {
        0
    } else if priority > MAX_PRIORITY {
        MAX_PRIORITY
    } else {
        priority
    }
}

/// One task's priority, 0 to 5.
///
/// A field of its own rather than a fuzzy picker: only a digit, and only one that leaves a
/// valid priority behind, ever reaches it.
#[derive(Debug, Clone, PartialEq, Eq)]
pub struct PriorityState {
    /// What has been typed. Always empty or a valid priority.
    pub typed: String,
    /// The row under the cursor, which is what Enter applies.
    pub selected: i64,
    /// What the task holds now, marked on its row.
    pub current: i64,
}

/// The digit's value.
pub open spec fn digit_value(c: char) -> i64 {
    ((c as u32) - ('0' as u32)) as i64
}

/// What a priority field does with a key, as (typed, selected) afterwards.
pub open spec fn priority_after(p: PriorityState, key: Key) -> (Seq<char>, i64) {
    match key.code {
        KeyCode::Down | KeyCode::Tab => {
            let v = (p.selected + 1) % 6;
            (crate::text::decimal(v as nat), v as i64)
        },
        KeyCode::Up | KeyCode::BackTab => {
            let v = (p.selected - 1) % 6;
            (crate::text::decimal(v as nat), v as i64)
        },
        KeyCode::Backspace => {
            let typed = if p.typed@.len() > 0 {
                p.typed@.drop_last()
            } else {
                p.typed@
            };
            (typed, if typed.len() == 0 {
                clamp_priority(p.current)
            } else {
                p.selected
            })
        },
        KeyCode::Char('u') if key.mods.control => (Seq::empty(), clamp_priority(p.current)),
        KeyCode::Char(c) => if '0' <= c <= '9' && priority_text(p.typed@.push(c)) {
            (p.typed@.push(c), digit_value(c))
        } else {
            (p.typed@, p.selected)
        },
        _ => (p.typed@, p.selected),
    }
}

fn wrap_priority(v: i64) -> (r: i64)
    ensures
        r as int == (v as int) % 6,
        0 <= r <= 5,
{
    if v >= 0 {
        v % 6
    } else {
        let w = -(v + 1);
        let m = w % 6;
        let r = 5 - m;
        proof {
            assert((v as int) % 6 == 5 - (w as int) % 6) by (nonlinear_arith)
                requires
                    w == -(v + 1),
                    w >= 0,
            {
                let q = (w as int) / 6;
                let rr = (w as int) % 6;
                assert(w == 6 * q + rr);
                assert(v == 6 * (-q - 1) + (5 - rr));
                vstd::arithmetic::div_mod::lemma_fundamental_div_mod_converse(
                    v as int,
                    6,
                    -q - 1,
                    5 - rr,
                );
            }
        }
        r
    }
}

/// What the priority field does with a key: how it leaves the field and what it answers.
pub open spec fn priority_step(before: PriorityState, key: Key, after: PriorityState, o: OutcomeView) -> bool {
    &&& after.current == before.current
    &&& match key.code {
        KeyCode::Esc => o == OutcomeView::Dismiss && after == before,
        KeyCode::Enter => o == OutcomeView::Submit(SubmissionView::Priority(before.selected))
            && after == before,
        _ => o == OutcomeView::Consumed && (after.typed@, after.selected) == priority_after(
            before,
            key,
        ),
    }
}

impl PriorityState {
    /// A field over a task whose priority is `current`.
    pub fn new(current: i64) -> (p: Self)
        ensures
            p.typed@ == Seq::<char>::empty(),
            p.selected == clamp_priority(current),
            p.current == current,
    {
        let selected = if current < 0 {
            0
        } else if current > MAX_PRIORITY {
            MAX_PRIORITY
        } else {
            current
        };
        PriorityState { typed: String::new(), selected, current }
    }

    /// Take a digit, if it leaves the field valid. Returns whether it was taken.
    fn digit(&mut self, c: char) -> (taken: bool)
        ensures
            taken == ('0' <= c <= '9' && priority_text(old(self).typed@.push(c))),
            taken ==> final(self).typed@ == old(self).typed@.push(c) && final(self).selected
                == digit_value(c),
            !taken ==> *final(self) == *old(self),
            final(self).current == old(self).current,
    {
        let mut candidate = chars_of(self.typed.as_str());
        candidate.push(c);
        if !('0' <= c && c <= '9') || !is_priority_chars(candidate.as_slice()) {
            return false;
        }
        self.selected = ((c as u32) - ('0' as u32)) as i64;
        self.typed = string_of(candidate.as_slice());
        true
    }

    /// Move the highlight, rewriting the field to match so the two cannot disagree.
    fn step(&mut self, delta: i64)
        requires
            delta == 1 || delta == -1,
            i64::MIN < old(self).selected < i64::MAX,
        ensures
            final(self).selected as int == (old(self).selected + delta) % 6,
            final(self).typed@ == crate::text::decimal(final(self).selected as nat),
            final(self).current == old(self).current,
    {
        let v = self.selected + delta;
        let r = wrap_priority(v);
        self.selected = r;
        let digits = crate::text::decimal_of(r as u64);
        self.typed = string_of(digits.as_slice());
    }

    /// React to a key.
    ///
    /// Enter applies the highlighted priority; Up and Down move it and rewrite the field
    /// to match; a digit is taken only when it leaves a valid priority; rubbing the field
    /// out puts the highlight back on the task's own priority.
    pub fn handle(&mut self, key: Key) -> (o: Outcome)
        requires
            i64::MIN < old(self).selected < i64::MAX,
        ensures
            priority_step(*old(self), key, *final(self), o@),

    {
        match key.code {
            KeyCode::Esc => Outcome::Dismiss,
            KeyCode::Enter => Outcome::Submit(Submission::Priority(self.selected)),
            KeyCode::Down | KeyCode::Tab => {
                self.step(1);
                Outcome::Consumed
            },
            KeyCode::Up | KeyCode::BackTab => {
                self.step(-1);
                Outcome::Consumed
            },
            KeyCode::Backspace => {
                let mut chars = chars_of(self.typed.as_str());
                if chars.len() > 0 {
                    chars.pop();
                    assert(chars@ =~= old(self).typed@.drop_last());
                }
                self.typed = string_of(chars.as_slice());
                if chars.len() == 0 {
                    self.selected = if self.current < 0 {
                        0
                    } else if self.current > MAX_PRIORITY {
                        MAX_PRIORITY
                    } else {
                        self.current
                    };
                }
                Outcome::Consumed
            },
            KeyCode::Char('u') if key.mods.control => {
                self.typed = String::new();
                self.selected = if self.current < 0 {
                    0
                } else if self.current > MAX_PRIORITY {
                    MAX_PRIORITY
                } else {
                    self.current
                };
                Outcome::Consumed
            },
            KeyCode::Char(c) => {
                self.digit(c);
                Outcome::Consumed
            },
            _ => Outcome::Consumed,
        }
    }

    /// The title drawn in the border.
    pub fn title(&self) -> (s: String)
        ensures
            s@ == "Set priority  —  0 to 5"@,
    {
        String::from_str("Set priority  —  0 to 5")
    }
}

/// One task's due date, being typed.
#[derive(Debug, Clone, PartialEq, Eq)]
pub struct DueState {
    /// What has been typed. Prefilled with the date the task already has.
    pub input: TextInput,
}

/// What the due-date field does with a key: how it leaves the field and what it answers.
pub open spec fn due_step(before: DueState, key: Key, after: DueState, o: OutcomeView) -> bool {
    match key.code {
        KeyCode::Esc => o == OutcomeView::Dismiss && after == before,
        KeyCode::Enter => o == OutcomeView::Submit(SubmissionView::Due(before.input@.value))
            && after == before,
        _ => o == OutcomeView::Consumed && after.input@ == pressed(before.input@, key).0,
    }
}

impl DueState {
    /// A field prefilled with `current`, which is empty when the task has no due date.
    pub fn new(current: &str) -> (d: Self)
        requires
            current@.len() < usize::MAX,
        ensures
            d.input@.value == current@,
            d.input@.cursor == current@.len(),
            d.input.wf(),
    {
        DueState { input: TextInput::new(current) }
    }

    /// React to a key. Enter submits whatever is there, empty included: clearing a due
    /// date is a request, and `Esc` is the way to back out.
    pub fn handle(&mut self, key: Key) -> (o: Outcome)
        requires
            old(self).input.wf(),
        ensures
            due_step(*old(self), key, *final(self), o@),

    {
        match key.code {
            KeyCode::Esc => Outcome::Dismiss,
            KeyCode::Enter => Outcome::Submit(Submission::Due(self.input.value())),
            _ => {
                self.input.press(key);
                Outcome::Consumed
            },
        }
    }

    /// The title drawn in the border.
    pub fn title(&self) -> (s: String)
        ensures
            s@ == "Due date"@,
    {
        String::from_str("Due date")
    }
}

/// The configured quick actions, waiting for one of their keys.
#[derive(Debug, Clone, PartialEq, Eq)]
pub struct QuickActionsState {
    /// One row per configured action: the key that triggers it, and what it does.
    pub rows: Vec<(char, String)>,
}

/// The first row bound to `c`.
pub open spec fn first_row_for(rows: Seq<(char, String)>, c: char) -> Option<usize>
    decreases rows.len(),
{
    if rows.len() == 0 {
        None
    } else if rows.last().0 == c && first_row_for(rows.drop_last(), c) is None {
        Some((rows.len() - 1) as usize)
    } else {
        first_row_for(rows.drop_last(), c)
    }
}

/// What the quick-action menu answers to a key: Space or Esc closes it, a configured key
/// submits its row, and anything else leaves it open.
pub open spec fn quick_outcome(q: QuickActionsState, key: Key) -> OutcomeView {
    match key.code {
        KeyCode::Esc | KeyCode::Char(' ') => OutcomeView::Dismiss,
        KeyCode::Char(c) => match first_row_for(q.rows@, c) {
            Some(i) => OutcomeView::Submit(SubmissionView::QuickAction(i)),
            None => OutcomeView::Consumed,
        },
        _ => OutcomeView::Consumed,
    }
}

impl QuickActionsState {
    /// A menu over `rows`.
    pub fn new(rows: Vec<(char, String)>) -> (q: Self)
        ensures
            q.rows@ == rows@,
    {
        QuickActionsState { rows }
    }

    /// React to a key: Space or Esc closes the menu, a configured key submits its row,
    /// and anything else leaves the menu open.
    pub fn handle(&self, key: Key) -> (o: Outcome)
        ensures
            o@ == quick_outcome(*self, key),
    {
        match key.code {
            KeyCode::Esc => Outcome::Dismiss,
            KeyCode::Char(' ') => Outcome::Dismiss,
            KeyCode::Char(c) => {
                let mut i: usize = 0;
                while i < self.rows.len()
                    invariant
                        i <= self.rows.len(),
                        key.code == KeyCode::Char(c),
                        c != ' ',
                        first_row_for(self.rows@.subrange(0, i as int), c) is None,
                    decreases self.rows.len() - i,
                {
                    proof {
                        assert(self.rows@.subrange(0, i + 1).drop_last() =~= self.rows@.subrange(
                            0,
                            i as int,
                        ));
                    }
                    if self.rows[i].0 == c {
                        proof {
                            lemma_first_row_prefix(self.rows@, c, i as int);
                        }
                        return Outcome::Submit(Submission::QuickAction(i));
                    }
                    i += 1;
                }
                assert(self.rows@.subrange(0, i as int) =~= self.rows@);
                Outcome::Consumed
            },
            _ => Outcome::Consumed,
        }
    }

    /// The title drawn in the border.
    pub fn title(&self) -> (s: String)
        ensures
            s@ == "Quick actions"@,
    {
        String::from_str("Quick actions")
    }
}

proof fn lemma_first_row_prefix(rows: Seq<(char, String)>, c: char, i: int)
    requires
        0 <= i < rows.len(),
        rows[i].0 == c,
        first_row_for(rows.subrange(0, i), c) is None,
    ensures
        first_row_for(rows, c) == Some(i as usize),
    decreases rows.len(),
{
    if i == rows.len() - 1 {
        assert(rows.drop_last() =~= rows.subrange(0, i));
    } else {
        assert(rows.drop_last().subrange(0, i) =~= rows.subrange(0, i));
        lemma_first_row_prefix(rows.drop_last(), c, i);
    }
}

/// An open modal.
#[derive(Debug, Clone, PartialEq)]
pub enum Modal {
    /// The key reference.
    Help(HelpState),
    /// Searching the current list, incrementally.
    Search(SearchState),
    /// Typing a new task in quick-add syntax.
    Add(TextInput),
    /// Choosing a project, a label or a command.
    Picker(PickerState),
    /// Editing every field of one task.
    Edit(Box<EditState>),
    /// Choosing one task's priority.
    Priority(PriorityState),
    /// Typing one task's due date.
    Due(DueState),
    /// Ticking labels on and off one task.
    Labels(LabelsState),
    /// Renaming or recolouring one label.
    LabelEdit(LabelEditState),
    /// Waiting for a configured quick-action key.
    QuickActions(QuickActionsState),
}

/// Whether the modal on top is fit to take a key: its fields hold their cursors within
/// their text, and its highlight can still move.
pub open spec fn modal_ready(m: Modal) -> bool {
    match m {
        Modal::Help(h) => h.offset < usize::MAX,
        Modal::Search(s) => s.input.wf(),
        Modal::Add(t) => t.wf(),
        Modal::Picker(p) => p.input.wf(),
        Modal::Edit(e) => edit_ok(*e),
        Modal::Priority(p) => i64::MIN < p.selected < i64::MAX,
        Modal::Due(d) => d.input.wf(),
        Modal::Labels(l) => l.ready(),
        Modal::LabelEdit(l) => l.ready(),
        Modal::QuickActions(_) => true,
    }
}

/// What the modal on top does with a key: it stays the same kind of modal, and moves as
/// that kind's own step says.
pub open spec fn modal_step(before: Modal, key: Key, after: Modal, o: OutcomeView) -> bool {
    match before {
        Modal::Help(a) => after matches Modal::Help(b) && help_step(a, key, b, o),
        Modal::Search(a) => after matches Modal::Search(b) && search_step(a, key, b, o),
        Modal::Add(a) => after matches Modal::Add(b) && add_step(a, key, b, o),
        Modal::Picker(a) => after matches Modal::Picker(b) && picker_step(a, key, b, o),
        Modal::Edit(a) => after matches Modal::Edit(b) && edit_step(*a, key, *b, o),
        Modal::Priority(a) => after matches Modal::Priority(b) && priority_step(a, key, b, o),
        Modal::Due(a) => after matches Modal::Due(b) && due_step(a, key, b, o),
        Modal::Labels(a) => after matches Modal::Labels(b) && labels_step(a, key, b, o),
        Modal::LabelEdit(a) => after matches Modal::LabelEdit(b) && label_edit_step(a, key, b, o),
        Modal::QuickActions(a) => after == before && o == quick_outcome(a, key),
    }
}

/// The title drawn in a modal's border.
pub open spec fn modal_title(m: Modal) -> Seq<char> {
    match m {
        Modal::Help(_) => "Keys"@,
        Modal::Search(_) => "Search"@,
        Modal::Add(_) => "Add a task"@,
        Modal::Picker(p) => picker_title(p.kind),
        Modal::Edit(_) => "Edit task  —  Tab moves, Ctrl-S saves, Esc cancels"@,
        Modal::Priority(_) => "Set priority  —  0 to 5"@,
        Modal::Due(_) => "Due date"@,
        Modal::Labels(_) => "Labels  —  Space toggles, Enter applies, Esc cancels"@,
        Modal::LabelEdit(_) => "Edit label  —  Tab moves, Enter saves, Esc cancels"@,
        Modal::QuickActions(_) => "Quick actions"@,
    }
}

impl Modal {
    /// Whether the modal is fit to take a key.
    pub open spec fn ready(&self) -> bool {
        modal_ready(*self)
    }

    /// Whether the modal is fit to take a key.
    pub fn is_ready(&self) -> (r: bool)
        ensures
            r == self.ready(),
    {
        match self {
            Modal::Help(h) => h.offset < usize::MAX,
            Modal::Search(s) => s.input.is_wf(),
            Modal::Add(t) => t.is_wf(),
            Modal::Picker(p) => p.input.is_wf(),
            Modal::Edit(e) => e.title.is_wf() && e.description.is_wf() && e.priority.is_wf()
                && e.due.is_wf() && e.project.is_wf() && e.labels.is_wf(),
            Modal::Priority(p) => i64::MIN < p.selected && p.selected < i64::MAX,
            Modal::Due(d) => d.input.is_wf(),
            Modal::Labels(l) => l.input.is_wf() && l.selected < usize::MAX,
            Modal::LabelEdit(l) => l.title.is_wf() && l.hex.is_wf(),
            Modal::QuickActions(_) => true,
        }
    }

    /// React to a key: the modal on top takes every key, with no fall-through.
    pub fn handle(&mut self, key: Key) -> (o: Outcome)
        requires
            old(self).ready(),
        ensures
            modal_step(*old(self), key, *final(self), o@),
    {
        match self {
            Modal::Help(state) => state.handle(key),
            Modal::Search(state) => state.handle(key),
            Modal::Add(state) => state.handle(key),
            Modal::Picker(state) => state.handle(key),
            Modal::Edit(state) => state.handle(key),
            Modal::Priority(state) => state.handle(key),
            Modal::Due(state) => state.handle(key),
            Modal::Labels(state) => state.handle(key),
            Modal::LabelEdit(state) => state.handle(key),
            Modal::QuickActions(state) => state.handle(key),
        }
    }

    /// The title drawn in the border.
    pub fn title(&self) -> (s: String)
        ensures
            s@ == modal_title(*self),
    {
        match self {
            Modal::Help(state) => state.title(),
            Modal::Search(state) => state.title(),
            Modal::Add(state) => state.title(),
            Modal::Picker(state) => state.title(),
            Modal::Edit(state) => state.title(),
            Modal::Priority(state) => state.title(),
            Modal::Due(state) => state.title(),
            Modal::Labels(state) => state.title(),
            Modal::LabelEdit(state) => state.title(),
            Modal::QuickActions(state) => state.title(),
        }
    }
}

} // verus!
