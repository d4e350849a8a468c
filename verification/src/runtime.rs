//! The decisions the runtime makes between its outside work: which sync pass to run and
//! when, what colour depth a terminal has, and what to say about the projects on hand.
use crate::models::Project;
use crate::server::holds;
use crate::text::{chars_of, eq_fold, eq_ignore_case, push_all, string_of};
use vstd::prelude::*;

verus! {

/// Which halves of a sync to run.
#[derive(Debug, Clone, Copy, PartialEq, Eq, Structural)]
pub enum Pass {
    /// Send queued changes and nothing else.
    Push,
    /// Push, then pull only what the server says has changed.
    Delta,
    /// Push, then pull everything, removing what the server no longer has.
    Full,
}

/// Who asked for a pass, which decides whether it waits out a failed entry's backoff.
#[derive(Debug, Clone, Copy, PartialEq, Eq, Structural)]
pub enum Trigger {
    /// Startup, the timer, and the push that follows a write. Backoff stands.
    Scheduled,
    /// A keystroke. The user knows something the queue does not.
    Asked,
}

/// Nothing was asked for while a pass was running.
pub const NOTHING_AGAIN: u8 = 0;

/// A push was asked for while a pass was running.
pub const PUSH_AGAIN: u8 = 1;

/// An incremental pass was asked for while a pass was running.
pub const DELTA_AGAIN: u8 = 2;

/// A full pass was asked for while a pass was running. Ordered above the other two: the
/// larger code is kept, and each pass does everything the one below it does.
pub const FULL_AGAIN: u8 = 3;

/// The code a pass asked for mid-pass is remembered by.
pub open spec fn code_of(pass: Pass) -> u8 {
    match pass {
        Pass::Push => PUSH_AGAIN,
        Pass::Delta => DELTA_AGAIN,
        Pass::Full => FULL_AGAIN,
    }
}

/// The code a pass asked for mid-pass is remembered by.
pub fn again_code(pass: Pass) -> (c: u8)
    ensures
        c == code_of(pass),
{
    match pass {
        Pass::Push => PUSH_AGAIN,
        Pass::Delta => DELTA_AGAIN,
        Pass::Full => FULL_AGAIN,
    }
}

/// The pass a remembered code asks for, when it asks for one.
pub open spec fn pass_of(code: u8) -> Option<Pass> {
    if code == PUSH_AGAIN {
        Some(Pass::Push)
    } else if code == DELTA_AGAIN {
        Some(Pass::Delta)
    } else if code == FULL_AGAIN {
        Some(Pass::Full)
    } else {
        None
    }
}

/// What the sync engine is asked to do.
#[derive(Debug, Clone, Copy, PartialEq, Eq, Structural)]
pub enum Run {
    /// Push only.
    Push,
    /// A scheduled incremental pass.
    Delta,
    /// A scheduled full pass.
    Once,
    /// An incremental pass a person asked for, which does not wait out backoff.
    AskedIncremental,
    /// A full pass a person asked for.
    AskedFull,
}

/// What the engine is asked to do for a pass: a push is a push whoever asked, since a
/// write's own push is not a person asking; the pulls run as asked for or as scheduled.
pub open spec fn run_of(pass: Pass, trigger: Trigger) -> Run {
    match (pass, trigger) {
        (Pass::Push, _) => Run::Push,
        (Pass::Delta, Trigger::Scheduled) => Run::Delta,
        (Pass::Full, Trigger::Scheduled) => Run::Once,
        (Pass::Delta, Trigger::Asked) => Run::AskedIncremental,
        (Pass::Full, Trigger::Asked) => Run::AskedFull,
    }
}

/// What the engine is asked to do for a pass.
pub fn run_for(pass: Pass, trigger: Trigger) -> (r: Run)
    ensures
        r == run_of(pass, trigger),
{
    match (pass, trigger) {
        (Pass::Push, _) => Run::Push,
        (Pass::Delta, Trigger::Scheduled) => Run::Delta,
        (Pass::Full, Trigger::Scheduled) => Run::Once,
        (Pass::Delta, Trigger::Asked) => Run::AskedIncremental,
        (Pass::Full, Trigger::Asked) => Run::AskedFull,
    }
}

/// One pass at a time, and what was asked for while one ran.
#[derive(Debug, Clone, Copy, PartialEq, Eq, Structural)]
pub struct SyncGate {
    /// Whether a pass is running.
    pub running: bool,
    /// The most thorough pass asked for while it ran, as a code.
    pub again: u8,
    /// Whether any of what was asked for while it ran was asked for by a person.
    pub again_asked: bool,
}

/// What the runtime does next.
#[derive(Debug, Clone, Copy, PartialEq, Eq, Structural)]
pub enum Launch {
    /// Start this pass now.
    Start(Pass, Trigger),
    /// Nothing now.
    Wait,
}

/// A pass asked for: started when none is running, and otherwise remembered, keeping the
/// most thorough of what was asked and whether a person asked.
pub open spec fn requested(g: SyncGate, pass: Pass, trigger: Trigger) -> (SyncGate, Launch) {
    if g.running {
        (
            SyncGate {
                running: true,
                again: if code_of(pass) > g.again {
                    code_of(pass)
                } else {
                    g.again
                },
                again_asked: g.again_asked || trigger == Trigger::Asked,
            },
            Launch::Wait,
        )
    } else {
        (SyncGate { running: true, ..g }, Launch::Start(pass, trigger))
    }
}

/// A pass finished: what was asked for while it ran starts now, as asked for by a person
/// when any of it was, and is then forgotten.
pub open spec fn finishing(g: SyncGate) -> (SyncGate, Launch) {
    let trigger = if g.again_asked {
        Trigger::Asked
    } else {
        Trigger::Scheduled
    };
    let idle = SyncGate { running: false, again: NOTHING_AGAIN, again_asked: false };
    match pass_of(g.again) {
        Some(pass) => requested(idle, pass, trigger),
        None => (idle, Launch::Wait),
    }
}

impl SyncGate {
    /// No pass running and nothing asked for.
    pub fn new() -> (g: Self)
        ensures
            g == (SyncGate { running: false, again: NOTHING_AGAIN, again_asked: false }),
    {
        SyncGate { running: false, again: NOTHING_AGAIN, again_asked: false }
    }

    /// Ask for a pass.
    pub fn request(&mut self, pass: Pass, trigger: Trigger) -> (l: Launch)
        ensures
            (*final(self), l) == requested(*old(self), pass, trigger),
    {
        if self.running {
            let code = again_code(pass);
            if code > self.again {
                self.again = code;
            }
            if trigger == Trigger::Asked {
                self.again_asked = true;
            }
            Launch::Wait
        } else {
            self.running = true;
            Launch::Start(pass, trigger)
        }
    }

    /// The running pass finished.
    pub fn finished(&mut self) -> (l: Launch)
        ensures
            (*final(self), l) == finishing(*old(self)),
    {
        let trigger = if self.again_asked { Trigger::Asked } else { Trigger::Scheduled };
        let code = self.again;
        self.running = false;
        self.again = NOTHING_AGAIN;
        self.again_asked = false;
        if code == PUSH_AGAIN {
            self.request(Pass::Push, trigger)
        } else if code == DELTA_AGAIN {
            self.request(Pass::Delta, trigger)
        } else if code == FULL_AGAIN {
            self.request(Pass::Full, trigger)
        } else {
            Launch::Wait
        }
    }
}

/// A more thorough pass has a larger code: a full pass outranks an incremental one,
/// which outranks a push, which outranks nothing.
pub proof fn law_a_full_pass_outranks_a_push()
    ensures
        code_of(Pass::Full) > code_of(Pass::Delta),
        code_of(Pass::Delta) > code_of(Pass::Push),
        code_of(Pass::Push) > NOTHING_AGAIN,
        forall|p: Pass| pass_of(#[trigger] code_of(p)) == Some(p),
{
}

/// While a pass runs, no other starts: asking only remembers.
pub proof fn law_one_pass_at_a_time(g: SyncGate, pass: Pass, trigger: Trigger)
    requires
        g.running,
    ensures
        requested(g, pass, trigger).1 == Launch::Wait,
        requested(g, pass, trigger).0.running,
{
}

/// Nothing asked for while a pass runs is lost: when it finishes, a pass at least as
/// thorough starts, and it starts as a person's when a person asked.
pub proof fn law_a_pass_asked_for_mid_pass_still_runs(g: SyncGate, pass: Pass, trigger: Trigger)
    requires
        g.running,
        g.again <= FULL_AGAIN,
    ensures
        ({
            let after = finishing(requested(g, pass, trigger).0);
            &&& after.1 matches Launch::Start(p, t) && code_of(p) >= code_of(pass) && (
            trigger == Trigger::Asked ==> t == Trigger::Asked)
            &&& after.0.running
            &&& after.0.again == NOTHING_AGAIN
        }),
{
    let mid = requested(g, pass, trigger).0;
    assert(mid.again >= code_of(pass));
    assert(1 <= mid.again <= 3);
}

/// How much colour a terminal can show, from what its environment says: nothing when
/// `NO_COLOR` is set, truecolor when `COLORTERM` says so, 256 colours for a `TERM` that
/// names them or a terminal known to have them, nothing for no `TERM` or a dumb one, and
/// otherwise the sixteen.
pub open spec fn depth_of(no_color: bool, colorterm: Seq<char>, term: Seq<char>) -> crate::theme::ColorDepth {
    if no_color {
        crate::theme::ColorDepth::NoColor
    } else if holds(colorterm, "truecolor"@) || holds(colorterm, "24bit"@) {
        crate::theme::ColorDepth::TrueColor
    } else if holds(term, "256"@) || holds(term, "kitty"@) || holds(term, "alacritty"@) {
        crate::theme::ColorDepth::Ansi256
    } else if term.len() == 0 || term == "dumb"@ {
        crate::theme::ColorDepth::NoColor
    } else {
        crate::theme::ColorDepth::Ansi16
    }
}

fn has(s: &[char], needle: &str) -> (r: bool)
    ensures
        r == holds(s@, needle@),
{
    let n = chars_of(needle);
    crate::server::holds_text(s, n.as_slice())
}

/// How much colour a terminal can show, from what its environment says.
pub fn depth_from(no_color: bool, colorterm: &str, term: &str) -> (d: crate::theme::ColorDepth)
    ensures
        d == depth_of(no_color, colorterm@, term@),
{
    if no_color {
        return crate::theme::ColorDepth::NoColor;
    }
    let ct = chars_of(colorterm);
    if has(ct.as_slice(), "truecolor") || has(ct.as_slice(), "24bit") {
        return crate::theme::ColorDepth::TrueColor;
    }
    let t = chars_of(term);
    if has(t.as_slice(), "256") || has(t.as_slice(), "kitty") || has(t.as_slice(), "alacritty") {
        return crate::theme::ColorDepth::Ansi256;
    }
    let dumb = chars_of("dumb");
    if t.len() == 0 || crate::server::same_chars(t.as_slice(), dumb.as_slice()) {
        return crate::theme::ColorDepth::NoColor;
    }
    crate::theme::ColorDepth::Ansi16
}

/// The first word of a title, when it has one.
pub open spec fn first_word(title: Seq<char>) -> Option<Seq<char>> {
    if crate::rows::words(title).len() > 0 {
        Some(crate::rows::words(title)[0])
    } else {
        None
    }
}

/// Whether a project's title carries on past `name`: a real project, not archived, whose
/// first word is `name` and whose whole title is not, ignoring ASCII case.
pub open spec fn extends_name(p: Project, name: Seq<char>) -> bool {
    &&& p.id > 0
    &&& !p.is_archived
    &&& (first_word(p.title@) matches Some(w) && eq_fold(w, name))
    &&& !eq_fold(p.title@, name)
}

/// The positions of the projects whose titles carry on past `name`, in order.
pub open spec fn extenders(projects: Seq<Project>, name: Seq<char>) -> Seq<int>
    decreases projects.len(),
{
    if projects.len() == 0 {
        Seq::empty()
    } else if extends_name(projects.last(), name) {
        extenders(projects.drop_last(), name).push(projects.len() - 1)
    } else {
        extenders(projects.drop_last(), name)
    }
}

/// The whole title a truncated project name stood for: offered only when exactly one
/// project's title carries on past it, because two would make it a guess.
pub open spec fn suggestion(projects: Seq<Project>, name: Seq<char>) -> Option<Seq<char>> {
    let e = extenders(projects, name);
    if e.len() == 1 {
        Some(projects[e[0]].title@)
    } else {
        None
    }
}

proof fn lemma_extenders_in(projects: Seq<Project>, name: Seq<char>)
    ensures
        forall|k: int|
            0 <= k < extenders(projects, name).len() ==> 0 <= #[trigger] extenders(projects, name)[k]
                < projects.len(),
    decreases projects.len(),
{
    if projects.len() > 0 {
        let rest = extenders(projects.drop_last(), name);
        lemma_extenders_in(projects.drop_last(), name);
        assert forall|k: int| 0 <= k < extenders(projects, name).len() implies 0
            <= #[trigger] extenders(projects, name)[k] < projects.len() by {
            if k < rest.len() {
                assert(extenders(projects, name)[k] == rest[k]);
            }
        }
    }
}

fn extends_now(p: &Project, name: &[char]) -> (r: bool)
    ensures
        r == extends_name(*p, name@),
{
    if p.id <= 0 || p.is_archived {
        return false;
    }
    let title = chars_of(p.title.as_str());
    let words = crate::rows::words_of(title.as_slice());
    if words.len() == 0 {
        return false;
    }
    proof {
        assert(crate::rows::char_rows(words@)[0] == words@[0]@);
    }
    eq_ignore_case(words[0].as_slice(), name) && !eq_ignore_case(title.as_slice(), name)
}

/// A project whose title begins with `name` and carries on, if exactly one does.
///
/// The first word has to match, not merely a prefix, so `Din` does not offer
/// `Dinner Places` for a project that simply does not exist.
pub fn longer_project(projects: &Vec<Project>, name: &str) -> (r: Option<String>)
    ensures
        match r {
            Some(t) => suggestion(projects@, name@) == Some(t@),
            None => suggestion(projects@, name@) is None,
        },
{
    let n = chars_of(name);
    let mut found: Option<usize> = None;
    let mut count: usize = 0;
    let mut i: usize = 0;
    while i < projects.len()
        invariant
            i <= projects@.len(),
            n@ == name@,
            count == extenders(projects@.take(i as int), name@).len(),
            count <= i,
            count >= 1 ==> found == Some(extenders(projects@.take(i as int), name@)[0] as usize),
            count == 0 ==> found is None,
        decreases projects.len() - i,
    {
        proof {
            assert(projects@.take(i + 1).drop_last() =~= projects@.take(i as int));
            if count >= 1 {
                let e = extenders(projects@.take(i as int), name@);
                lemma_extenders_in(projects@.take(i as int), name@);
                assert(e[0] < i);
                assert(extenders(projects@.take(i + 1), name@)[0] == e[0]) by {
                    if extends_name(projects@[i as int], name@) {
                        assert(extenders(projects@.take(i + 1), name@) == e.push(i as int));
                    }
                }
            }
        }
        if extends_now(&projects[i], n.as_slice()) {
            if count == 0 {
                found = Some(i);
            }
            count += 1;
        }
        i += 1;
    }
    proof {
        assert(projects@.take(i as int) =~= projects@);
        lemma_extenders_in(projects@, name@);
    }
    if count == 1 {
        match found {
            Some(k) => Some(projects[k].title.clone()),
            None => None,
        }
    } else {
        None
    }
}

/// How many real projects there are: those with a positive id.
pub open spec fn real_count(projects: Seq<Project>) -> nat
    decreases projects.len(),
{
    if projects.len() == 0 {
        0
    } else {
        real_count(projects.drop_last()) + if projects.last().id > 0 {
            1nat
        } else {
            0nat
        }
    }
}

/// What the local cache holds, for an error message that says what to do next.
pub open spec fn description_of(projects: Seq<Project>) -> Seq<char> {
    if real_count(projects) == 0 {
        "no projects at all; run tui-do once to sync, or check the server is reachable"@
    } else {
        crate::text::decimal(real_count(projects)) + " projects; run tui-do to refresh the list"@
    }
}

/// What the local cache holds, for an error message that says what to do next.
pub fn describe(projects: &Vec<Project>) -> (s: String)
    ensures
        s@ == description_of(projects@),
{
    let mut counted: u64 = 0;
    let mut i: usize = 0;
    while i < projects.len()
        invariant
            i <= projects@.len(),
            counted == real_count(projects@.take(i as int)),
            counted <= i,
        decreases projects.len() - i,
    {
        proof {
            assert(projects@.take(i + 1).drop_last() =~= projects@.take(i as int));
        }
        if projects[i].id > 0 {
            counted += 1;
        }
        i += 1;
    }
    proof {
        assert(projects@.take(i as int) =~= projects@);
    }
    if counted == 0 {
        return String::from_str("no projects at all; run tui-do once to sync, or check the server is reachable");
    }
    let mut out = crate::text::decimal_of(counted);
    let rest = chars_of(" projects; run tui-do to refresh the list");
    push_all(&mut out, rest.as_slice());
    string_of(out.as_slice())
}

} // verus!
