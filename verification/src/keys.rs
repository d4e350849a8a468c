//! Routing a key press: through the open form when there is one, and otherwise through
//! the keymap to an action.
use crate::actions::{act, acted, on_submit, roomy, submitted};
use crate::keymap::{no_mods, resolution, resolve, Key, KeyCode, Modifiers, Resolved};
use crate::modal::{modal_ready, modal_step, Modal, Outcome, OutcomeView, Submission, SubmissionView};
use crate::model::{focus_context, Model};
use crate::update::{effect_views, quit, stacks_dated, steady_in, Effect, EffectView, Geometry};
use vstd::prelude::*;

verus! {

/// What a key press came to.
pub enum KeyOutcome {
    /// Done, asking for these effects.
    Done(Vec<Effect>),
    /// A form submitted text that only the quick-add parser can read: a task in quick-add
    /// syntax, the edit form, or the due-date form. The form is closed; the submission is
    /// the caller's to carry out with the parser's answer.
    Unhandled(Submission),
}

/// A key outcome as a value.
pub enum KeyOutcomeView {
    Done(Seq<EffectView>),
    Unhandled(SubmissionView),
}

impl View for KeyOutcome {
    type V = KeyOutcomeView;

    open spec fn view(&self) -> KeyOutcomeView {
        match self {
            KeyOutcome::Done(es) => KeyOutcomeView::Done(effect_views(es@)),
            KeyOutcome::Unhandled(s) => KeyOutcomeView::Unhandled(s@),
        }
    }
}

/// Whether a submission is text only the quick-add parser can read.
pub open spec fn needs_parser(s: SubmissionView) -> bool {
    s is Add || s is Edited || s is Due
}

/// Whether a submission needs the parser.
fn parser_text(s: &Submission) -> (r: bool)
    ensures
        r == needs_parser(s@),
{
    match s {
        Submission::Add(_) | Submission::Edited(_) | Submission::Due(_) => true,
        _ => false,
    }
}

/// Whether `after` and `r` answer what form submitted `sub` over `before`.
pub open spec fn submission_answered(
    before: Model,
    after: Model,
    r: KeyOutcomeView,
    sub: SubmissionView,
    g: Geometry,
    offset: i32,
) -> bool {
    if needs_parser(sub) {
        after == before && r == KeyOutcomeView::Unhandled(sub)
    } else {
        r matches KeyOutcomeView::Done(es) && submitted(before, after, Some(es), sub, g, offset)
    }
}

/// Whether `after` and `r` answer key `key` pressed over `before`.
///
/// Ctrl-C quits, through any form. Otherwise the form on top takes the key, and only it:
/// a form not fit to take one is closed; what it does with the key is its own step; it
/// closes when it says so, and what it submits is carried out, with it closed first when it
/// asked to be. With no form open, the key extends a chord, ends one with nothing bound, or
/// completes a binding whose action is performed.
pub open spec fn keyed(before: Model, after: Model, r: KeyOutcomeView, key: Key, g: Geometry, offset: i32) -> bool {
    if key == quit_key() {
        after == (Model { running: false, ..before }) && r == KeyOutcomeView::Done(seq![EffectView::Quit])
    } else if before.modals@.len() > 0 {
        form_keyed(before, after, r, key, g, offset)
    } else {
        map_keyed(before, after, r, key, g, offset)
    }
}

/// Whether `after` and `r` answer key `key` taken by the form on top of `before`.
pub open spec fn form_keyed(before: Model, after: Model, r: KeyOutcomeView, key: Key, g: Geometry, offset: i32) -> bool {
    let top = before.modals@.last();
    let below = before.modals@.drop_last();
    if !modal_ready(top) {
        after.modals@ == below && after == (Model { modals: after.modals, ..before })
            && r == KeyOutcomeView::Done(Seq::empty())
    } else {
        exists|stepped: Modal, o: OutcomeView|
            #[trigger] modal_step(top, key, stepped, o) && match o {
                OutcomeView::Consumed => after.modals@ == below.push(stepped) && after == (Model {
                    modals: after.modals,
                    ..before
                }) && r == KeyOutcomeView::Done(Seq::empty()),
                OutcomeView::Dismiss => after.modals@ == below && after == (Model {
                    modals: after.modals,
                    ..before
                }) && r == KeyOutcomeView::Done(Seq::empty()),
                OutcomeView::Submit(sub) => exists|mid: Model|
                    #[trigger] submission_answered(mid, after, r, sub, g, offset) && mid.modals@ == below
                        && mid == (Model { modals: mid.modals, ..before }),
                OutcomeView::Update(sub) => exists|mid: Model|
                    #[trigger] submission_answered(mid, after, r, sub, g, offset) && mid.modals@
                        == below.push(stepped) && mid == (Model { modals: mid.modals, ..before }),
            }
    }
}

/// Whether `after` and `es` are `before` with its chord cleared and then action `a`
/// performed.
pub open spec fn action_answered(
    before: Model,
    after: Model,
    es: Seq<EffectView>,
    a: crate::keymap::Action,
    g: Geometry,
    offset: i32,
) -> bool {
    exists|mid: Model|
        #[trigger] acted(mid, after, es, a, g, offset) && mid.pending@.len() == 0 && mid == (Model {
            pending: mid.pending,
            ..before
        })
}

/// Whether `after` and `r` answer key `key` resolved through the keymap, with no form open.
pub open spec fn map_keyed(before: Model, after: Model, r: KeyOutcomeView, key: Key, g: Geometry, offset: i32) -> bool {
    match resolution(before.pending@, key, focus_context(before.focus)) {
        Resolved::Pending => after.pending@ == before.pending@.push(key) && after == (Model {
            pending: after.pending,
            ..before
        }) && r == KeyOutcomeView::Done(Seq::empty()),
        Resolved::Unbound => after.pending@.len() == 0 && after == (Model {
            pending: after.pending,
            ..before
        }) && r == KeyOutcomeView::Done(Seq::empty()),
        Resolved::Action(a) => match r {
            KeyOutcomeView::Done(es) => action_answered(before, after, es, a, g, offset),
            KeyOutcomeView::Unhandled(_) => false,
        },
    }
}

/// Ctrl-C, the key that quits from anywhere.
pub open spec fn quit_key() -> Key {
    Key { code: KeyCode::Char('c'), mods: Modifiers { control: true, ..no_mods() } }
}

/// Carry out what a form submitted, unless it needs the quick-add parser.
fn answer(model: &mut Model, sub: Submission, geometry: &Geometry, offset: i32) -> (r: KeyOutcome)
    requires
        steady_in(*old(model), *geometry, offset),
        roomy(*old(model)),
        stacks_dated(*old(model)),
    ensures
        submission_answered(*old(model), *final(model), r@, sub@, *geometry, offset),
{
    if parser_text(&sub) {
        return KeyOutcome::Unhandled(sub);
    }
    match on_submit(model, sub, geometry, offset) {
        Some(es) => KeyOutcome::Done(es),
        None => KeyOutcome::Done(Vec::new()),
    }
}

/// Hand a key to the form on top.
fn form_key(model: &mut Model, key: Key, geometry: &Geometry, offset: i32) -> (r: KeyOutcome)
    requires
        old(model).modals@.len() > 0,
        steady_in(*old(model), *geometry, offset),
        roomy(*old(model)),
        stacks_dated(*old(model)),
    ensures
        form_keyed(*old(model), *final(model), r@, key, *geometry, offset),
{
    let ghost below = model.modals@.drop_last();
    let popped = model.modals.pop();
    let mut top = match popped {
        Some(m) => m,
        None => {
            return KeyOutcome::Done(Vec::new());
        },
    };
    let none: Vec<Effect> = Vec::new();
    proof {
        assert(model.modals@ == below);
        assert(effect_views(none@) =~= Seq::<EffectView>::empty());
    }
    if !top.is_ready() {
        return KeyOutcome::Done(none);
    }
    let ghost top0 = top;
    let o = top.handle(key);
    let ghost stepped = top;
    let ghost ov = o@;
    proof {
        assert(modal_step(top0, key, stepped, ov));
    }
    match o {
        Outcome::Consumed => {
            model.modals.push(top);
            KeyOutcome::Done(none)
        },
        Outcome::Dismiss => KeyOutcome::Done(none),
        Outcome::Submit(sub) => {
            let ghost mid = *model;
            let r = answer(model, sub, geometry, offset);
            proof {
                assert(submission_answered(mid, *model, r@, sub@, *geometry, offset));
            }
            r
        },
        Outcome::Update(sub) => {
            model.modals.push(top);
            let ghost mid = *model;
            let r = answer(model, sub, geometry, offset);
            proof {
                assert(submission_answered(mid, *model, r@, sub@, *geometry, offset));
            }
            r
        },
    }
}

/// A key that completes a binding is answered by its action.
proof fn lemma_action_keyed(
    before: Model,
    after: Model,
    r: KeyOutcomeView,
    key: Key,
    g: Geometry,
    offset: i32,
    mid: Model,
    a: crate::keymap::Action,
    es: Seq<EffectView>,
)
    requires
        resolution(before.pending@, key, focus_context(before.focus)) == Resolved::Action(a),
        r == KeyOutcomeView::Done(es),
        acted(mid, after, es, a, g, offset),
        mid.pending@.len() == 0,
        mid == (Model { pending: mid.pending, ..before }),
    ensures
        map_keyed(before, after, r, key, g, offset),
{
    assert(action_answered(before, after, es, a, g, offset));
}

/// Resolve a key through the keymap.
#[verifier::spinoff_prover]
fn map_key(model: &mut Model, key: Key, geometry: &Geometry, offset: i32) -> (r: KeyOutcome)
    requires
        steady_in(*old(model), *geometry, offset),
        roomy(*old(model)),
        stacks_dated(*old(model)),
    ensures
        map_keyed(*old(model), *final(model), r@, key, *geometry, offset),
{
    let none: Vec<Effect> = Vec::new();
    proof {
        assert(effect_views(none@) =~= Seq::<EffectView>::empty());
    }
    let context = model.context();
    let pending = model.pending.as_slice();
    proof {
        assert(pending@ == model.pending@);
    }
    let resolved = resolve(pending, key, context);
    proof {
        assert(resolved == resolution(old(model).pending@, key, focus_context(old(model).focus)));
    }
    match resolved {
        Resolved::Pending => {
            let mut pend: Vec<Key> = Vec::new();
            std::mem::swap(&mut pend, &mut model.pending);
            pend.push(key);
            model.pending = pend;
            proof {
                assert(model.pending@ == old(model).pending@.push(key));
                assert(*model == (Model { pending: model.pending, ..*old(model) }));
            }
            let r = KeyOutcome::Done(none);
            proof {
                assert(resolution(old(model).pending@, key, focus_context(old(model).focus)) is Pending);
                assert(r@ == KeyOutcomeView::Done(Seq::empty()));
                assert(map_keyed(*old(model), *model, r@, key, *geometry, offset));
            }
            r
        },
        Resolved::Unbound => {
            model.pending.clear();
            let r = KeyOutcome::Done(none);
            proof {
                assert(map_keyed(*old(model), *model, r@, key, *geometry, offset));
            }
            r
        },
        Resolved::Action(a) => {
            model.pending.clear();
            let ghost mid = *model;
            proof {
                assert(mid.pending@.len() == 0);
                assert(mid == (Model { pending: mid.pending, ..*old(model) }));
            }
            let es = act(model, a, geometry, offset);
            proof {
                assert(acted(mid, *model, effect_views(es@), a, *geometry, offset));
            }
            let ghost esv = effect_views(es@);
            let r = KeyOutcome::Done(es);
            proof {
                lemma_action_keyed(*old(model), *model, r@, key, *geometry, offset, mid, a, esv);
            }
            r
        },
    }
}

/// Route a key press.
pub fn on_key(model: &mut Model, key: Key, geometry: &Geometry, offset: i32) -> (r: KeyOutcome)
    requires
        steady_in(*old(model), *geometry, offset),
        roomy(*old(model)),
        stacks_dated(*old(model)),
    ensures
        keyed(*old(model), *final(model), r@, key, *geometry, offset),
{
    if key == Key::ctrl('c') {
        let effects = quit(model);
        return KeyOutcome::Done(effects);
    }
    if model.modals.len() > 0 {
        form_key(model, key, geometry, offset)
    } else {
        map_key(model, key, geometry, offset)
    }
}

/// Route a key press when the model is one [`on_key`] can be asked for, and otherwise
/// leave it as it is and answer `None`.
pub fn try_on_key(model: &mut Model, key: Key, geometry: &Geometry, offset: i32) -> (r: Option<KeyOutcome>)
    ensures
        match r {
            Some(outcome) => steady_in(*old(model), *geometry, offset) && roomy(*old(model)) && stacks_dated(
                *old(model),
            ) && keyed(*old(model), *final(model), outcome@, key, *geometry, offset),
            None => !(steady_in(*old(model), *geometry, offset) && roomy(*old(model)) && stacks_dated(*old(model)))
                && *final(model) == *old(model),
        },
{
    if crate::actions::can_act(model, geometry, offset) {
        Some(on_key(model, key, geometry, offset))
    } else {
        None
    }
}

} // verus!
