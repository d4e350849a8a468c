//! The two forms that work on labels: ticking labels on and off one task, and renaming
//! or recolouring one label.
use crate::keymap::{Key, KeyCode};
use crate::modal::{
    clamp_row, clamped_row, every_index, fuzzy_order, next_row, pressed, previous_row, ranked,
    step_down, step_up, Outcome, OutcomeView, Submission, SubmissionView, TextInput,
};
use crate::models::{Label, LabelView};
use crate::text::{
    chars_of, eq_fold, eq_ignore_case, is_hex_digit, is_hex_digit_char, string_of, trim, trimmed,
};
use vstd::prelude::*;

verus! {

/// Where the first element of `s` satisfying `p` stands, or the length when none does.
pub open spec fn first_where<A>(s: Seq<A>, p: spec_fn(A) -> bool) -> int
    decreases s.len(),
{
    if s.len() == 0 {
        0
    } else if first_where(s.drop_last(), p) < s.len() - 1 {
        first_where(s.drop_last(), p)
    } else if p(s.last()) {
        s.len() - 1
    } else {
        s.len() as int
    }
}

/// [`first_where`] names an element satisfying `p` with none before it, or the length.
pub proof fn lemma_first_where<A>(s: Seq<A>, p: spec_fn(A) -> bool)
    ensures
        0 <= first_where(s, p) <= s.len(),
        first_where(s, p) < s.len() ==> p(s[first_where(s, p)]),
        forall|k: int| 0 <= k < first_where(s, p) ==> !p(#[trigger] s[k]),
    decreases s.len(),
{
    if s.len() > 0 {
        lemma_first_where(s.drop_last(), p);
        let q = first_where(s.drop_last(), p);
        if q < s.len() - 1 {
            assert(s[q] == s.drop_last()[q]);
        }
        assert forall|k: int| 0 <= k < first_where(s, p) implies !p(#[trigger] s[k]) by {
            if k < s.len() - 1 {
                assert(s[k] == s.drop_last()[k]);
            }
        }
    }
}

/// An index with `p` there and nowhere before is the one [`first_where`] names.
pub proof fn lemma_first_where_is<A>(s: Seq<A>, p: spec_fn(A) -> bool, i: int)
    requires
        0 <= i <= s.len(),
        i < s.len() ==> p(s[i]),
        forall|k: int| 0 <= k < i ==> !p(#[trigger] s[k]),
    ensures
        first_where(s, p) == i,
{
    lemma_first_where(s, p);
    let r = first_where(s, p);
    if r < i {
        assert(!p(s[r]));
    }
    if i < r {
        assert(!p(s[i]));
    }
}

/// Whether a title equals `title`, ignoring ASCII case.
pub open spec fn same_title(title: Seq<char>) -> spec_fn(Seq<char>) -> bool {
    |t: Seq<char>| eq_fold(t, title)
}

/// Whether a label has the id `id`.
pub open spec fn with_id(id: i64) -> spec_fn(LabelView) -> bool {
    |l: LabelView| l.id == id
}

/// Whether a tick is `id`.
pub open spec fn is_tick(id: i64) -> spec_fn(i64) -> bool {
    |x: i64| x == id
}

/// Where the first of `titles` equal to `title`, ignoring ASCII case, stands.
pub open spec fn fold_match(titles: Seq<Seq<char>>, title: Seq<char>) -> int {
    first_where(titles, same_title(title))
}

/// Where the first label with id `id` stands.
pub open spec fn id_at(labels: Seq<LabelView>, id: i64) -> int {
    first_where(labels, with_id(id))
}

/// Where `id` first stands among the ticks.
pub open spec fn tick_at(chosen: Seq<i64>, id: i64) -> int {
    first_where(chosen, is_tick(id))
}

/// The ticks after toggling `id`: taken off where it first stands, or added at the end.
pub open spec fn toggled(chosen: Seq<i64>, id: i64) -> Seq<i64> {
    if tick_at(chosen, id) < chosen.len() {
        chosen.remove(tick_at(chosen, id))
    } else {
        chosen.push(id)
    }
}

/// The title a label form would create from what was typed: the trimmed text, unless it
/// is empty, a label already has that title, or the form already asked for it. Titles
/// compare ignoring ASCII case only.
pub open spec fn offer(typed: Seq<char>, titles: Seq<Seq<char>>, awaiting: Seq<Seq<char>>) -> Option<
    Seq<char>,
> {
    let t = trimmed(typed);
    if t.len() == 0 {
        None
    } else if fold_match(titles, t) < titles.len() {
        None
    } else if fold_match(awaiting, t) < awaiting.len() {
        None
    } else {
        Some(t)
    }
}

/// What a label form holds that a reload can change: its labels, its ticks, and the
/// titles it asked to create and has not seen come back.
#[verifier::ext_equal]
pub struct Held {
    pub labels: Seq<LabelView>,
    pub chosen: Seq<i64>,
    pub awaiting: Seq<Seq<char>>,
}

/// One label of a reload, taken in: a label the form does not hold whose title it is
/// waiting for is added and ticked, and that title is no longer waited for. Anything
/// else leaves the form as it was.
pub open spec fn absorb_one(h: Held, l: LabelView) -> Held {
    if id_at(h.labels, l.id) < h.labels.len() {
        h
    } else if fold_match(h.awaiting, l.title) < h.awaiting.len() {
        Held {
            labels: h.labels.push(l),
            chosen: if h.chosen.contains(l.id) {
                h.chosen
            } else {
                h.chosen.push(l.id)
            },
            awaiting: h.awaiting.remove(fold_match(h.awaiting, l.title)),
        }
    } else {
        h
    }
}

/// A whole reload taken in, label by label in its order.
pub open spec fn absorb_all(h: Held, known: Seq<LabelView>) -> Held
    decreases known.len(),
{
    if known.len() == 0 {
        h
    } else {
        absorb_one(absorb_all(h, known.drop_last()), known.last())
    }
}

/// A held label as a reload has it: the first label of the reload with its id, or as it
/// was when the reload has none.
pub open spec fn refreshed(held: LabelView, known: Seq<LabelView>) -> LabelView {
    if id_at(known, held.id) < known.len() {
        known[id_at(known, held.id)]
    } else {
        held
    }
}

/// The views of some labels.
pub open spec fn label_views(labels: Seq<Label>) -> Seq<LabelView> {
    labels.map_values(|l: Label| l@)
}

/// The texts of some strings.
pub open spec fn texts(strings: Seq<String>) -> Seq<Seq<char>> {
    strings.map_values(|t: String| t@)
}

/// Labels being ticked on and off one task.
///
/// Enter means "these are the labels now", so `chosen` is the whole answer rather than a
/// list of changes.
#[derive(Debug, Clone, PartialEq, Eq)]
pub struct LabelsState {
    /// The filter typed so far.
    pub input: TextInput,
    /// Every label that exists, unfiltered.
    pub labels: Vec<Label>,
    /// The ids ticked right now, starting from the ones the task holds.
    pub chosen: Vec<i64>,
    /// Indices into `labels`, best match first.
    pub matches: Vec<usize>,
    /// Which match is highlighted, as a position in `matches`.
    pub selected: usize,
    /// Titles this form has asked to create and has not yet seen come back.
    pub awaiting: Vec<String>,
}

/// Where `title` first stands among `titles`, ignoring ASCII case.
fn fold_position(titles: &Vec<String>, title: &Vec<char>) -> (r: usize)
    ensures
        r == fold_match(texts(titles@), title@),
{
    let ghost ts = texts(titles@);
    let ghost p = same_title(title@);
    let mut i: usize = 0;
    while i < titles.len()
        invariant
            i <= titles.len(),
            ts == texts(titles@),
            p == same_title(title@),
            forall|k: int| 0 <= k < i ==> !p(#[trigger] ts[k]),
        decreases titles.len() - i,
    {
        let t = chars_of(titles[i].as_str());
        if eq_ignore_case(t.as_slice(), title.as_slice()) {
            proof {
                lemma_first_where_is(ts, p, i as int);
            }
            return i;
        }
        i += 1;
    }
    proof {
        lemma_first_where_is(ts, p, i as int);
    }
    i
}

/// Where the first label with id `id` stands in `labels`.
fn id_position(labels: &Vec<Label>, id: i64) -> (r: usize)
    ensures
        r == id_at(label_views(labels@), id),
{
    let ghost ls = label_views(labels@);
    let ghost p = with_id(id);
    let mut i: usize = 0;
    while i < labels.len()
        invariant
            i <= labels.len(),
            ls == label_views(labels@),
            p == with_id(id),
            forall|k: int| 0 <= k < i ==> !p(#[trigger] ls[k]),
        decreases labels.len() - i,
    {
        if labels[i].id == id {
            proof {
                lemma_first_where_is(ls, p, i as int);
            }
            return i;
        }
        i += 1;
    }
    proof {
        lemma_first_where_is(ls, p, i as int);
    }
    i
}

/// Where `id` first stands in `chosen`.
fn tick_position(chosen: &Vec<i64>, id: i64) -> (r: usize)
    ensures
        r == tick_at(chosen@, id),
{
    let mut i: usize = 0;
    while i < chosen.len()
        invariant
            i <= chosen.len(),
            forall|k: int| 0 <= k < i ==> #[trigger] chosen@[k] != id,
        decreases chosen.len() - i,
    {
        if chosen[i] == id {
            proof {
                lemma_first_where_is(chosen@, is_tick(id), i as int);
            }
            return i;
        }
        i += 1;
    }
    proof {
        lemma_first_where_is(chosen@, is_tick(id), i as int);
    }
    i
}

/// The titles of `labels`, copied.
fn titles_of_labels(labels: &Vec<Label>) -> (titles: Vec<String>)
    ensures
        texts(titles@) == labels@.map_values(|l: Label| l.title@),
{
    let mut titles: Vec<String> = Vec::new();
    let mut i: usize = 0;
    while i < labels.len()
        invariant
            i <= labels.len(),
            titles@.len() == i,
            forall|k: int| 0 <= k < i ==> (#[trigger] titles@[k])@ == labels@[k].title@,
        decreases labels.len() - i,
    {
        titles.push(labels[i].title.clone());
        i += 1;
    }
    assert(texts(titles@) =~= labels@.map_values(|l: Label| l.title@));
    titles
}

impl LabelsState {
    /// The titles of the labels, in order.
    pub open spec fn titles(&self) -> Seq<Seq<char>> {
        self.labels@.map_values(|l: Label| l.title@)
    }

    /// The part of the form a reload can change.
    pub open spec fn held(&self) -> Held {
        Held { labels: label_views(self.labels@), chosen: self.chosen@, awaiting: texts(self.awaiting@) }
    }

    /// The label under the cursor.
    pub open spec fn highlighted(&self) -> Option<Label> {
        if self.selected < self.matches@.len() && self.matches@[self.selected as int]
            < self.labels@.len() {
            Some(self.labels@[self.matches@[self.selected as int] as int])
        } else {
            None
        }
    }

    /// The title this form would create now.
    pub open spec fn offered(&self) -> Option<Seq<char>> {
        offer(self.input@.value, self.titles(), texts(self.awaiting@))
    }

    /// A form over `labels`, with the task's own `held` already ticked.
    pub fn new(labels: Vec<Label>, held: Vec<i64>) -> (s: Self)
        ensures
            s.input@.value == Seq::<char>::empty(),
            s.input.wf(),
            s.labels@ == labels@,
            s.chosen@ == held@,
            s.matches@ == Seq::new(labels@.len(), |i: int| i as usize),
            s.selected == 0,
            s.awaiting@ == Seq::<String>::empty(),
    {
        let matches = every_index(labels.len());
        LabelsState {
            input: TextInput::empty(),
            labels,
            chosen: held,
            matches,
            selected: 0,
            awaiting: Vec::new(),
        }
    }

    /// The title this form would create, if the user asked: what was typed, trimmed,
    /// unless that is empty, a label of that name exists, or this form already asked for
    /// it and is waiting for the reload. Both comparisons fold ASCII case only.
    pub fn creatable(&self) -> (r: Option<String>)
        ensures
            match r {
                Some(t) => self.offered() == Some(t@),
                None => self.offered() is None,
            },
    {
        match self.offered_chars() {
            Some(t) => Some(string_of(t.as_slice())),
            None => None,
        }
    }

    fn offered_chars(&self) -> (r: Option<Vec<char>>)
        ensures
            match r {
                Some(t) => self.offered() == Some(t@),
                None => self.offered() is None,
            },
    {
        let typed = trim(self.input.chars().as_slice());
        if typed.len() == 0 {
            return None;
        }
        let titles = titles_of_labels(&self.labels);
        if fold_position(&titles, &typed) < titles.len() {
            return None;
        }
        if fold_position(&self.awaiting, &typed) < self.awaiting.len() {
            return None;
        }
        Some(typed)
    }

    /// The label under the cursor.
    pub fn current(&self) -> (c: Option<&Label>)
        ensures
            c == (match self.highlighted() {
                Some(l) => Some(&l),
                None => None,
            }),
    {
        if self.selected < self.matches.len() {
            let index = self.matches[self.selected];
            if index < self.labels.len() {
                return Some(&self.labels[index]);
            }
        }
        None
    }

    /// Whether `label` is ticked.
    pub fn is_chosen(&self, label: i64) -> (r: bool)
        ensures
            r == self.chosen@.contains(label),
    {
        let at = tick_position(&self.chosen, label);
        proof {
            lemma_first_where(self.chosen@, is_tick(label));
            if !(at < self.chosen.len()) && self.chosen@.contains(label) {
                let k = choose|k: int| 0 <= k < self.chosen@.len() && self.chosen@[k] == label;
                assert(k < tick_at(self.chosen@, label));
            }
        }
        at < self.chosen.len()
    }

    /// Tick the highlighted label, or untick it. With nothing highlighted, nothing.
    fn toggle(&mut self)
        ensures
            final(self).chosen@ == match old(self).highlighted() {
                Some(l) => toggled(old(self).chosen@, l.id),
                None => old(self).chosen@,
            },
            final(self).input == old(self).input,
            final(self).labels == old(self).labels,
            final(self).matches == old(self).matches,
            final(self).selected == old(self).selected,
            final(self).awaiting == old(self).awaiting,
    {
        let id = match self.current() {
            Some(label) => label.id,
            None => {
                return;
            },
        };
        let at = tick_position(&self.chosen, id);
        if at < self.chosen.len() {
            self.chosen.remove(at);
        } else {
            self.chosen.push(id);
        }
    }

    fn refilter(&mut self)
        ensures
            final(self).input == old(self).input,
            final(self).labels == old(self).labels,
            final(self).chosen == old(self).chosen,
            final(self).awaiting == old(self).awaiting,
            ranked(old(self).titles(), old(self).input@.value, final(self).matches@),
            final(self).selected == clamped_row(old(self).selected, final(self).matches@.len()),
    {
        let titles = titles_of_labels(&self.labels);
        let query = self.input.value();
        let matches = fuzzy_order(&titles, &query);
        let count = matches.len();
        self.matches = matches;
        self.selected = clamp_row(self.selected, count);
    }

    /// Take a fresh label snapshot, adopting and ticking what this form asked to create.
    ///
    /// Only a label whose title the form is waiting for is taken, the first such title
    /// for each, and only those are ticked: a label that came from another box does not
    /// belong on the task being edited. A label whose id the form holds already is never
    /// adopted again. Titles compare ignoring ASCII case. With nothing awaited, nothing
    /// changes at all.
    pub fn absorb_created(&mut self, known: &Vec<Label>)
        ensures
            old(self).awaiting@.len() == 0 ==> *final(self) == *old(self),
            old(self).awaiting@.len() > 0 ==> {
                &&& final(self).held() == absorb_all(old(self).held(), label_views(known@))
                &&& final(self).input == old(self).input
                &&& ranked(final(self).titles(), final(self).input@.value, final(self).matches@)
                &&& final(self).selected == clamped_row(
                    old(self).selected,
                    final(self).matches@.len(),
                )
            },
    {
        if self.awaiting.len() == 0 {
            return;
        }
        let ghost ks = label_views(known@);
        let mut i: usize = 0;
        while i < known.len()
            invariant
                i <= known.len(),
                ks == label_views(known@),
                self.held() == absorb_all(old(self).held(), ks.take(i as int)),
                self.input == old(self).input,
                self.selected == old(self).selected,
            decreases known.len() - i,
        {
            proof {
                assert(ks.take(i + 1).drop_last() =~= ks.take(i as int));
                assert(ks.take(i + 1).last() == known@[i as int]@);
            }
            let ghost before = self.held();
            let label = &known[i];
            if id_position(&self.labels, label.id) >= self.labels.len() {
                let title = chars_of(label.title.as_str());
                let at = fold_position(&self.awaiting, &title);
                if at < self.awaiting.len() {
                    let ghost old_labels = self.labels@;
                    let ghost old_awaiting = self.awaiting@;
                    let ticked = self.is_chosen(label.id);
                    self.awaiting.remove(at);
                    self.labels.push(label.duplicate());
                    if !ticked {
                        self.chosen.push(label.id);
                    }
                    proof {
                        assert(label_views(self.labels@) =~= label_views(old_labels).push(label@));
                        assert(texts(self.awaiting@) =~= texts(old_awaiting).remove(at as int));
                        assert(self.held() =~= absorb_one(before, label@));
                    }
                }
            }
            i += 1;
        }
        proof {
            assert(ks.take(known.len() as int) =~= ks);
        }
        self.refilter();
    }

    /// Take the reload's copy of every label this form already holds.
    ///
    /// Only rewrites labels already on the list, in place, and ticks nothing; the order
    /// is left alone, so nothing reshuffles under someone mid-keystroke.
    pub fn refresh(&mut self, known: &Vec<Label>)
        ensures
            final(self).labels@.len() == old(self).labels@.len(),
            forall|k: int|
                0 <= k < old(self).labels@.len() ==> (#[trigger] final(self).labels@[k])@
                    == refreshed(old(self).labels@[k]@, label_views(known@)),
            final(self).input == old(self).input,
            final(self).chosen == old(self).chosen,
            final(self).matches == old(self).matches,
            final(self).selected == old(self).selected,
            final(self).awaiting == old(self).awaiting,
    {
        let mut i: usize = 0;
        while i < self.labels.len()
            invariant
                i <= self.labels@.len(),
                self.labels@.len() == old(self).labels@.len(),
                forall|k: int|
                    0 <= k < i ==> (#[trigger] self.labels@[k])@ == refreshed(
                        old(self).labels@[k]@,
                        label_views(known@),
                    ),
                forall|k: int| i <= k < self.labels@.len() ==> #[trigger] self.labels@[k] == old(
                    self,
                ).labels@[k],
                self.input == old(self).input,
                self.chosen == old(self).chosen,
                self.matches == old(self).matches,
                self.selected == old(self).selected,
                self.awaiting == old(self).awaiting,
            decreases self.labels@.len() - i,
        {
            let j = id_position(known, self.labels[i].id);
            if j < known.len() {
                let fresh = known[j].duplicate();
                self.labels[i] = fresh;
            }
            i += 1;
        }
    }
}

/// What the label form does with a key: how it leaves the form and what it answers.
pub open spec fn labels_step(before: LabelsState, key: Key, after: LabelsState, o: OutcomeView) -> bool {
    let unmoved = after.input == before.input && after.labels == before.labels && after.matches
        == before.matches && after.selected == before.selected;
    match key.code {
        KeyCode::Esc => o == OutcomeView::Dismiss && after == before,
        KeyCode::Enter => o == OutcomeView::Submit(SubmissionView::Labels(before.chosen@)) && after
            == before,
        KeyCode::Char(' ') => o == OutcomeView::Consumed && unmoved && after.awaiting
            == before.awaiting && after.chosen@ == match before.highlighted() {
            Some(l) => toggled(before.chosen@, l.id),
            None => before.chosen@,
        },
        KeyCode::Char('n') if key.mods.control => match before.offered() {
            Some(t) => o == OutcomeView::Update(SubmissionView::CreateLabel(t)) && unmoved
                && after.chosen == before.chosen && texts(after.awaiting@) == texts(
                before.awaiting@,
            ).push(t),
            None => o == OutcomeView::Consumed && after == before,
        },
        KeyCode::Char('e') if key.mods.control => after == before && o == match before.highlighted() {
            Some(l) => OutcomeView::Update(SubmissionView::EditLabel(l.id)),
            None => OutcomeView::Consumed,
        },
        KeyCode::Down | KeyCode::Tab => o == OutcomeView::Consumed && after.input == before.input
            && after.labels == before.labels && after.matches == before.matches && after.chosen
            == before.chosen && after.awaiting == before.awaiting && after.selected == next_row(
            before.selected,
            before.matches@.len(),
        ),
        KeyCode::Up | KeyCode::BackTab => o == OutcomeView::Consumed && after.input == before.input
            && after.labels == before.labels && after.matches == before.matches && after.chosen
            == before.chosen && after.awaiting == before.awaiting && after.selected
            == previous_row(before.selected, before.matches@.len()),
        _ => o == OutcomeView::Consumed && after.labels == before.labels && after.chosen
            == before.chosen && after.awaiting == before.awaiting && (
        after.input@,
        pressed(before.input@, key).1,
        ) == pressed(before.input@, key) && if pressed(before.input@, key).1 {
            ranked(before.titles(), after.input@.value, after.matches@) && after.selected
                == clamped_row(before.selected, after.matches@.len())
        } else {
            after.matches == before.matches && after.selected == before.selected
        },
    }
}

impl LabelsState {
    /// Whether the form is fit to take a key.
    pub open spec fn ready(&self) -> bool {
        self.input.wf() && self.selected < usize::MAX
    }

    /// React to a key.
    ///
    /// Space ticks the highlighted label or unticks it, and never types itself. Enter
    /// applies the ticks. `C-n` asks to create what was typed, when [`Self::creatable`]
    /// offers it, and stays open; `C-e` asks to edit the highlighted label. Up and Down
    /// wrap. Anything the filter field takes refilters the list.
    pub fn handle(&mut self, key: Key) -> (o: Outcome)
        requires
            old(self).ready(),
        ensures
            labels_step(*old(self), key, *final(self), o@),
    {
        match key.code {
            KeyCode::Esc => Outcome::Dismiss,
            KeyCode::Enter => Outcome::Submit(Submission::Labels(self.chosen.clone())),
            KeyCode::Char(' ') => {
                self.toggle();
                Outcome::Consumed
            },
            KeyCode::Char('n') if key.mods.control => match self.offered_chars() {
                Some(t) => {
                    let ghost before = self.awaiting@;
                    self.awaiting.push(string_of(t.as_slice()));
                    proof {
                        assert(texts(self.awaiting@) =~= texts(before).push(t@));
                    }
                    Outcome::Update(Submission::CreateLabel(string_of(t.as_slice())))
                },
                None => Outcome::Consumed,
            },
            KeyCode::Char('e') if key.mods.control => match self.current() {
                Some(label) => Outcome::Update(Submission::EditLabel(label.id)),
                None => Outcome::Consumed,
            },
            KeyCode::Down | KeyCode::Tab => {
                self.selected = step_down(self.selected, self.matches.len());
                Outcome::Consumed
            },
            KeyCode::Up | KeyCode::BackTab => {
                self.selected = step_up(self.selected, self.matches.len());
                Outcome::Consumed
            },
            _ => {
                if self.input.press(key) {
                    self.refilter();
                }
                Outcome::Consumed
            },
        }
    }

    /// The title drawn in the border.
    pub fn title(&self) -> (s: String)
        ensures
            s@ == "Labels  —  Space toggles, Enter applies, Esc cancels"@,
    {
        String::from_str("Labels  —  Space toggles, Enter applies, Esc cancels")
    }
}

/// Which field of the label form has the keyboard.
#[derive(Debug, Clone, Copy, PartialEq, Eq, Structural)]
pub enum LabelField {
    /// The label's text.
    Title,
    /// Its six hex digits, without a leading `#`.
    Colour,
}

/// What a label-form field is called on screen.
pub open spec fn label_field_name(f: LabelField) -> Seq<char> {
    match f {
        LabelField::Title => "Title"@,
        LabelField::Colour => "Colour"@,
    }
}

/// The other field. Two fields, so `Tab` and `S-Tab` are the same move.
pub open spec fn other_field(f: LabelField) -> LabelField {
    match f {
        LabelField::Title => LabelField::Colour,
        LabelField::Colour => LabelField::Title,
    }
}

impl LabelField {
    /// What this field is called on screen.
    pub fn label(self) -> (s: &'static str)
        ensures
            s@ == label_field_name(self),
    {
        match self {
            LabelField::Title => "Title",
            LabelField::Colour => "Colour",
        }
    }

    fn other(self) -> (f: LabelField)
        ensures
            f == other_field(self),
    {
        match self {
            LabelField::Title => LabelField::Colour,
            LabelField::Colour => LabelField::Title,
        }
    }
}

/// Whether a character is anything but `#`.
pub open spec fn not_hash() -> spec_fn(char) -> bool {
    |c: char| c != '#'
}

/// A typed colour as it goes on the wire: trimmed, and without its leading `#`s.
pub open spec fn colour_of(hex: Seq<char>) -> Seq<char> {
    let t = trimmed(hex);
    t.subrange(first_where(t, not_hash()), t.len() as int)
}

/// A colour Vikunja takes: six hex digits, or empty for "the interface picks one".
pub open spec fn colour_valid(c: Seq<char>) -> bool {
    c.len() == 0 || (c.len() == 6 && forall|k: int| 0 <= k < 6 ==> is_hex_digit(#[trigger] c[k]))
}

/// Why a label form holding `title` and `hex` cannot be sent, if it cannot: a label
/// needs a title, and a colour is six hex digits or nothing.
pub open spec fn refusal_of(title: Seq<char>, hex: Seq<char>) -> Option<Seq<char>> {
    if trimmed(title).len() == 0 {
        Some("A label needs a title"@)
    } else if !colour_valid(colour_of(hex)) {
        Some("A colour is six hex digits, like 4287f5 — or empty"@)
    } else {
        None
    }
}

/// The text of an optional string.
pub open spec fn opt_text(s: Option<String>) -> Option<Seq<char>> {
    match s {
        Some(t) => Some(t@),
        None => None,
    }
}

/// Editing one label's title and colour, sent together as one request.
#[derive(Debug, Clone, PartialEq, Eq)]
pub struct LabelEditState {
    /// The label as it was when the form opened, which becomes the mutation's `before`.
    pub label: Label,
    /// The title being typed.
    pub title: TextInput,
    /// The colour being typed.
    pub hex: TextInput,
    /// Which field has the keyboard.
    pub field: LabelField,
    /// Why the last submission was refused, if it was.
    pub error: Option<String>,
}

pub(crate) fn colour_chars(hex: &Vec<char>) -> (r: Vec<char>)
    ensures
        r@ == colour_of(hex@),
{
    let t = trim(hex.as_slice());
    let mut i: usize = 0;
    while i < t.len() && t[i] == '#'
        invariant
            i <= t@.len(),
            forall|k: int| 0 <= k < i ==> #[trigger] t@[k] == '#',
        decreases t.len() - i,
    {
        i += 1;
    }
    proof {
        lemma_first_where_is(t@, not_hash(), i as int);
    }
    crate::text::slice_to_vec(t.as_slice(), i, t.len())
}

fn colour_chars_valid(c: &Vec<char>) -> (r: bool)
    ensures
        r == colour_valid(c@),
{
    if c.len() == 0 {
        return true;
    }
    if c.len() != 6 {
        return false;
    }
    let mut i: usize = 0;
    while i < 6
        invariant
            i <= 6,
            c@.len() == 6,
            forall|k: int| 0 <= k < i ==> is_hex_digit(#[trigger] c@[k]),
        decreases 6 - i,
    {
        if !is_hex_digit_char(c[i]) {
            return false;
        }
        i += 1;
    }
    true
}

fn refusal_text(title: &Vec<char>, hex: &Vec<char>) -> (r: Option<String>)
    ensures
        opt_text(r) == refusal_of(title@, hex@),
{
    let t = trim(title.as_slice());
    if t.len() == 0 {
        return Some(String::from_str("A label needs a title"));
    }
    let c = colour_chars(hex);
    if !colour_chars_valid(&c) {
        return Some(String::from_str("A colour is six hex digits, like 4287f5 — or empty"));
    }
    None
}

/// What the label form does with a key: how it leaves the form and what it answers.
pub open spec fn label_edit_step(
    before: LabelEditState,
    key: Key,
    after: LabelEditState,
    o: OutcomeView,
) -> bool {
    match key.code {
        KeyCode::Esc => o == OutcomeView::Dismiss && after == before,
        KeyCode::Enter => match refusal_of(before.title@.value, before.hex@.value) {
            Some(why) => o == OutcomeView::Consumed && opt_text(after.error) == Some(why)
                && after.label == before.label && after.title == before.title && after.hex
                == before.hex && after.field == before.field,
            None => after == before && o == OutcomeView::Submit(
                SubmissionView::EditedLabel {
                    before: before.label@,
                    title: trimmed(before.title@.value),
                    hex_color: colour_of(before.hex@.value),
                },
            ),
        },
        KeyCode::Tab | KeyCode::BackTab => o == OutcomeView::Consumed && after.field == other_field(
            before.field,
        ) && after.label == before.label && after.title == before.title && after.hex == before.hex
            && after.error == before.error,
        _ => {
            let focused = match before.field {
                LabelField::Title => before.title@,
                LabelField::Colour => before.hex@,
            };
            let used = pressed(focused, key).1;
            &&& o == OutcomeView::Consumed
            &&& after.label == before.label
            &&& after.field == before.field
            &&& match before.field {
                LabelField::Title => after.title@ == pressed(focused, key).0 && after.hex
                    == before.hex,
                LabelField::Colour => after.hex@ == pressed(focused, key).0 && after.title
                    == before.title,
            }
            &&& if used && before.error is Some {
                opt_text(after.error) == refusal_of(after.title@.value, after.hex@.value)
            } else {
                after.error == before.error
            }
        },
    }
}

impl LabelEditState {
    /// Whether both fields are fit to take a key.
    pub open spec fn ready(&self) -> bool {
        self.title.wf() && self.hex.wf()
    }

    /// A form over `label`, with both fields filled in from it and the title focused.
    pub fn new(label: Label) -> (s: Self)
        requires
            label.title@.len() < usize::MAX,
            label.hex_color@.len() < usize::MAX,
        ensures
            s.label == label,
            s.title@.value == label.title@,
            s.title@.cursor == label.title@.len(),
            s.hex@.value == label.hex_color@,
            s.hex@.cursor == label.hex_color@.len(),
            s.ready(),
            s.field == LabelField::Title,
            s.error is None,
    {
        let title = TextInput::new(label.title.as_str());
        let hex = TextInput::new(label.hex_color.as_str());
        LabelEditState { label, title, hex, field: LabelField::Title, error: None }
    }

    /// The colour as it would go on the wire: trimmed, and without the leading `#`.
    pub fn colour(&self) -> (s: String)
        ensures
            s@ == colour_of(self.hex@.value),
    {
        let c = colour_chars(self.hex.chars());
        string_of(c.as_slice())
    }

    /// The title as it would go on the wire: trimmed.
    pub fn typed_title(&self) -> (s: String)
        ensures
            s@ == trimmed(self.title@.value),
    {
        let t = trim(self.title.chars().as_slice());
        string_of(t.as_slice())
    }

    /// Whether the colour is something Vikunja will take: six hex digits, or empty.
    pub fn colour_is_valid(&self) -> (r: bool)
        ensures
            r == colour_valid(colour_of(self.hex@.value)),
    {
        let c = colour_chars(self.hex.chars());
        colour_chars_valid(&c)
    }

    /// One field's text, for drawing.
    pub fn field(&self, which: LabelField) -> (t: &TextInput)
        ensures
            *t == match which {
                LabelField::Title => self.title,
                LabelField::Colour => self.hex,
            },
    {
        match which {
            LabelField::Title => &self.title,
            LabelField::Colour => &self.hex,
        }
    }

    fn press_focused(&mut self, key: Key) -> (used: bool)
        requires
            old(self).ready(),
        ensures
            final(self).label == old(self).label,
            final(self).field == old(self).field,
            final(self).error == old(self).error,
            match old(self).field {
                LabelField::Title => (final(self).title@, used) == pressed(old(self).title@, key)
                    && final(self).hex == old(self).hex,
                LabelField::Colour => (final(self).hex@, used) == pressed(old(self).hex@, key)
                    && final(self).title == old(self).title,
            },
    {
        match self.field {
            LabelField::Title => self.title.press(key),
            LabelField::Colour => self.hex.press(key),
        }
    }

    /// React to a key.
    ///
    /// Enter saves both fields together, or, when the form cannot be sent as it stands,
    /// says why and stays open. Tab and S-Tab swap fields. Typing edits the focused
    /// field; a standing refusal is worked out again rather than cleared, because typing
    /// in the other field does not fix it.
    pub fn handle(&mut self, key: Key) -> (o: Outcome)
        requires
            old(self).ready(),
        ensures
            label_edit_step(*old(self), key, *final(self), o@),
    {
        match key.code {
            KeyCode::Esc => Outcome::Dismiss,
            KeyCode::Enter => match refusal_text(self.title.chars(), self.hex.chars()) {
                Some(why) => {
                    self.error = Some(why);
                    Outcome::Consumed
                },
                None => Outcome::Submit(
                    Submission::EditedLabel {
                        before: Box::new(self.label.duplicate()),
                        title: self.typed_title(),
                        hex_color: self.colour(),
                    },
                ),
            },
            KeyCode::Tab | KeyCode::BackTab => {
                self.field = self.field.other();
                Outcome::Consumed
            },
            _ => {
                let typed = self.press_focused(key);
                if typed && self.error.is_some() {
                    self.error = refusal_text(self.title.chars(), self.hex.chars());
                }
                Outcome::Consumed
            },
        }
    }

    /// The title drawn in the border.
    pub fn title(&self) -> (s: String)
        ensures
            s@ == "Edit label  —  Tab moves, Enter saves, Esc cancels"@,
    {
        String::from_str("Edit label  —  Tab moves, Enter saves, Esc cancels")
    }
}

/// Once the form has asked to create a title, it does not offer that title again while it
/// waits for the reload that names it.
pub proof fn law_a_title_is_offered_once(
    typed: Seq<char>,
    titles: Seq<Seq<char>>,
    awaiting: Seq<Seq<char>>,
    t: Seq<char>,
)
    requires
        offer(typed, titles, awaiting) == Some(t),
    ensures
        offer(typed, titles, awaiting.push(t)) is None,
{
    assert(awaiting.push(t).drop_last() =~= awaiting);
    assert(eq_fold(t, t));
}

/// Ticking toggles exactly one label: the toggled id changes whether it is ticked, every
/// other id stays as it was, and no id comes to be ticked twice.
pub proof fn law_space_toggles_one_label(chosen: Seq<i64>, id: i64)
    requires
        chosen.no_duplicates(),
    ensures
        toggled(chosen, id).no_duplicates(),
        toggled(chosen, id).contains(id) == !chosen.contains(id),
        forall|x: i64| x != id ==> (toggled(chosen, id).contains(x) == chosen.contains(x)),
{
    lemma_first_where(chosen, is_tick(id));
    let at = tick_at(chosen, id);
    if at < chosen.len() {
        let after = chosen.remove(at);
        assert forall|x: i64| x != id implies (after.contains(x) == chosen.contains(x)) by {
            if chosen.contains(x) {
                let k = choose|k: int| 0 <= k < chosen.len() && chosen[k] == x;
                if k < at {
                    assert(after[k] == x);
                } else {
                    assert(k != at);
                    assert(after[k - 1] == x);
                }
            }
            if after.contains(x) {
                let k = choose|k: int| 0 <= k < after.len() && after[k] == x;
                if k < at {
                    assert(chosen[k] == x);
                } else {
                    assert(chosen[k + 1] == x);
                }
            }
        }
        if after.contains(id) {
            let k = choose|k: int| 0 <= k < after.len() && after[k] == id;
            if k < at {
                assert(chosen[k] == id);
            } else {
                assert(chosen[k + 1] == id);
                assert(chosen[at] == id);
            }
        }
    } else {
        if chosen.contains(id) {
            let k = choose|k: int| 0 <= k < chosen.len() && chosen[k] == id;
            assert(k < at);
        }
        let after = chosen.push(id);
        assert(after[chosen.len() as int] == id);
        assert forall|x: i64| x != id implies (after.contains(x) == chosen.contains(x)) by {
            if chosen.contains(x) {
                let k = choose|k: int| 0 <= k < chosen.len() && chosen[k] == x;
                assert(after[k] == x);
            }
            if after.contains(x) {
                let k = choose|k: int| 0 <= k < after.len() && after[k] == x;
                assert(k < chosen.len());
                assert(chosen[k] == x);
            }
        }
    }
}

/// Ticking a label that was not ticked, and ticking it again, leaves the ticks exactly as
/// they were.
pub proof fn law_space_twice_gives_back_the_ticks(chosen: Seq<i64>, id: i64)
    requires
        !chosen.contains(id),
    ensures
        toggled(toggled(chosen, id), id) == chosen,
{
    lemma_first_where(chosen, is_tick(id));
    if tick_at(chosen, id) < chosen.len() {
        assert(chosen[tick_at(chosen, id)] == id);
    }
    let pushed = chosen.push(id);
    assert(pushed.drop_last() =~= chosen);
    assert(tick_at(pushed, id) == chosen.len());
    assert(pushed.remove(chosen.len() as int) =~= chosen);
}

/// A reload rewrites what a held label says and never which label it is.
pub proof fn law_a_refresh_keeps_every_id(held: LabelView, known: Seq<LabelView>)
    ensures
        refreshed(held, known).id == held.id,
{
    lemma_first_where(known, with_id(held.id));
}

/// The label form never sends a label without a title, nor a colour that is not six hex
/// digits or empty; and the colour it sends has no `#` in front.
pub proof fn law_the_label_form_sends_what_the_server_takes(
    before: LabelEditState,
    key: Key,
    after: LabelEditState,
    o: OutcomeView,
)
    requires
        label_edit_step(before, key, after, o),
    ensures
        match o {
            OutcomeView::Submit(SubmissionView::EditedLabel { title, hex_color, .. }) => {
                &&& title.len() > 0
                &&& colour_valid(hex_color)
                &&& hex_color.len() > 0 ==> hex_color[0] != '#'
            },
            _ => true,
        },
{
}

/// Tab twice, or S-Tab twice, comes back to the field it started on.
pub proof fn law_tab_swaps_the_two_fields(f: LabelField)
    ensures
        other_field(other_field(f)) == f,
        other_field(f) != f,
{
}

/// Whether a label of a reload has nothing left to do to a form: its id is held, or no
/// title the form waits for matches its title.
pub open spec fn settled(h: Held, l: LabelView) -> bool {
    ||| exists|k: int| 0 <= k < h.labels.len() && #[trigger] h.labels[k].id == l.id
    ||| forall|k: int| 0 <= k < h.awaiting.len() ==> !eq_fold(#[trigger] h.awaiting[k], l.title)
}

proof fn lemma_settled_is_still(h: Held, l: LabelView)
    requires
        settled(h, l),
    ensures
        absorb_one(h, l) == h,
{
    lemma_first_where(h.labels, with_id(l.id));
    lemma_first_where(h.awaiting, same_title(l.title));
    if exists|k: int| 0 <= k < h.labels.len() && #[trigger] h.labels[k].id == l.id {
        let k = choose|k: int| 0 <= k < h.labels.len() && #[trigger] h.labels[k].id == l.id;
        assert(k >= id_at(h.labels, l.id));
    } else {
        lemma_first_where_is(h.awaiting, same_title(l.title), h.awaiting.len() as int);
    }
}

/// Taking in one label only adds labels after the ones held, only takes titles off the
/// awaited list, and settles the label it took in; what was settled stays settled.
proof fn lemma_absorb_one_settles(h: Held, l: LabelView)
    ensures
        settled(absorb_one(h, l), l),
        forall|m: LabelView| settled(h, m) ==> #[trigger] settled(absorb_one(h, l), m),
{
    let x = absorb_one(h, l);
    lemma_first_where(h.labels, with_id(l.id));
    lemma_first_where(h.awaiting, same_title(l.title));
    if id_at(h.labels, l.id) < h.labels.len() {
        assert(h.labels[id_at(h.labels, l.id)].id == l.id);
    } else if fold_match(h.awaiting, l.title) < h.awaiting.len() {
        let at = fold_match(h.awaiting, l.title);
        assert(x.labels[h.labels.len() as int].id == l.id);
        assert forall|m: LabelView| settled(h, m) implies #[trigger] settled(x, m) by {
            if exists|k: int| 0 <= k < h.labels.len() && #[trigger] h.labels[k].id == m.id {
                let k = choose|k: int| 0 <= k < h.labels.len() && #[trigger] h.labels[k].id == m.id;
                assert(x.labels[k].id == m.id);
            } else {
                assert forall|k: int| 0 <= k < x.awaiting.len() implies !eq_fold(
                    #[trigger] x.awaiting[k],
                    m.title,
                ) by {
                    if k < at {
                        assert(x.awaiting[k] == h.awaiting[k]);
                    } else {
                        assert(x.awaiting[k] == h.awaiting[k + 1]);
                    }
                }
            }
        }
    } else {
        assert forall|k: int| 0 <= k < h.awaiting.len() implies !eq_fold(
            #[trigger] h.awaiting[k],
            l.title,
        ) by {
            assert(!same_title(l.title)(h.awaiting[k]));
        }
    }
}

proof fn lemma_absorb_all_settles(h: Held, known: Seq<LabelView>)
    ensures
        forall|j: int| 0 <= j < known.len() ==> settled(absorb_all(h, known), #[trigger] known[j]),
    decreases known.len(),
{
    if known.len() > 0 {
        let rest = known.drop_last();
        lemma_absorb_all_settles(h, rest);
        lemma_absorb_one_settles(absorb_all(h, rest), known.last());
        assert forall|j: int| 0 <= j < known.len() implies settled(
            absorb_all(h, known),
            #[trigger] known[j],
        ) by {
            if j < known.len() - 1 {
                assert(known[j] == rest[j]);
            }
        }
    }
}

proof fn lemma_settled_reload_is_still(h: Held, known: Seq<LabelView>)
    requires
        forall|j: int| 0 <= j < known.len() ==> settled(h, #[trigger] known[j]),
    ensures
        absorb_all(h, known) == h,
    decreases known.len(),
{
    if known.len() > 0 {
        let rest = known.drop_last();
        assert forall|j: int| 0 <= j < rest.len() implies settled(h, #[trigger] rest[j]) by {
            assert(rest[j] == known[j]);
        }
        lemma_settled_reload_is_still(h, rest);
        lemma_settled_is_still(h, known.last());
    }
}

/// Taking in the same reload twice changes nothing the second time: a label is never
/// adopted twice, and a title stops being awaited once its label is taken.
pub proof fn law_a_reload_is_taken_in_once(h: Held, known: Seq<LabelView>)
    ensures
        absorb_all(absorb_all(h, known), known) == absorb_all(h, known),
{
    lemma_absorb_all_settles(h, known);
    lemma_settled_reload_is_still(absorb_all(h, known), known);
}

} // verus!
