//! Renaming and recolouring a label: finding the label a list names, opening the form
//! over it, and queuing the change the form asks for.
use crate::actions::{open, pushed};
use crate::editing::same_text;
use crate::label_forms::{first_where, label_views, lemma_first_where, lemma_first_where_is, LabelEditState};
use crate::modal::Modal;
use crate::model::{toast_view, Level, Model, Toast, TOAST_LIFETIME};
use crate::models::{Label, LabelView, Task};
use crate::mutation::{Mutation, MutationView};
use crate::text::chars_of;
use crate::update::{
    edit, edited, effect_views, has_label_id, label_index, push_effect, steady_in, told, toasted,
    Effect, EffectView, Geometry,
};
use vstd::prelude::*;

verus! {

/// Whether a task carries a label with id `id`.
pub open spec fn carries(id: i64) -> spec_fn(Task) -> bool {
    |t: Task| first_where(label_views(t.labels@), has_label_id(id)) < t.labels@.len()
}

/// The label with id `id` that the model knows of: the pool's, or else the one the first
/// task carrying it has. A pull stores labels and tasks in separate passes, so a task can
/// carry a label the pool has not caught up with yet.
pub open spec fn known_label(m: Model, id: i64) -> Option<LabelView> {
    let pool = label_views(m.data.labels@);
    let k = first_where(pool, has_label_id(id));
    if k < pool.len() {
        Some(pool[k])
    } else {
        let ts = m.data.tasks@;
        let i = first_where(ts, carries(id));
        if i < ts.len() {
            let held = label_views(ts[i].labels@);
            Some(held[first_where(held, has_label_id(id))])
        } else {
            None
        }
    }
}

/// The label with id `id` that the model knows of.
pub fn find_label(model: &Model, id: i64) -> (r: Option<Label>)
    ensures
        match r {
            Some(l) => known_label(*model, id) == Some(l@),
            None => known_label(*model, id) is None,
        },
{
    let k = label_index(&model.data.labels, id);
    if k < model.data.labels.len() {
        proof {
            lemma_first_where(label_views(model.data.labels@), has_label_id(id));
        }
        return Some(model.data.labels[k].duplicate());
    }
    let ghost ts = model.data.tasks@;
    let mut i: usize = 0;
    while i < model.data.tasks.len()
        invariant
            i <= ts.len(),
            ts == model.data.tasks@,
            first_where(label_views(model.data.labels@), has_label_id(id)) >= model.data.labels@.len(),
            forall|j: int| 0 <= j < i ==> !carries(id)(#[trigger] ts[j]),
        decreases model.data.tasks.len() - i,
    {
        let held = &model.data.tasks[i].labels;
        let at = label_index(held, id);
        if at < held.len() {
            proof {
                lemma_first_where_is(ts, carries(id), i as int);
                lemma_first_where(label_views(held@), has_label_id(id));
            }
            return Some(held[at].duplicate());
        }
        i += 1;
    }
    proof {
        lemma_first_where_is(ts, carries(id), i as int);
    }
    None
}

/// Whether `after` and `es` answer a request for the label form over label `id`: the form
/// opened over the label the model knows by that id, filled in from it with the title
/// focused; or, when no label has that id any more, a word that it is gone. A label whose
/// title or colour could not be counted in the numbers the form counts with is not opened.
pub open spec fn label_form_opened(before: Model, after: Model, es: Seq<EffectView>, id: i64) -> bool {
    &&& es.len() == 0
    &&& match known_label(before, id) {
        None => told(before, after, "That label is no longer here"@, Level::Info),
        Some(l) => if l.title.len() < usize::MAX && l.hex_color.len() < usize::MAX {
            &&& pushed(before, after)
            &&& after.modals@.last() matches Modal::LabelEdit(s) && {
                &&& s.label@ == l
                &&& s.title@.value == l.title
                &&& s.title@.cursor == l.title.len()
                &&& s.hex@.value == l.hex_color
                &&& s.hex@.cursor == l.hex_color.len()
                &&& s.field == crate::label_forms::LabelField::Title
                &&& s.error is None
            }
        } else {
            after == before
        },
    }
}

/// Open the label form over label `id`, from whichever list asked.
pub fn open_label_form(model: &mut Model, id: i64) -> (effects: Vec<Effect>)
    ensures
        label_form_opened(*old(model), *final(model), effect_views(effects@), id),
{
    proof {
        reveal_strlit("That label is no longer here");
    }
    let none: Vec<Effect> = Vec::new();
    proof {
        assert(effect_views(none@) =~= Seq::<EffectView>::empty());
    }
    match find_label(model, id) {
        None => {
            model.toast(Toast::info(String::from_str("That label is no longer here")));
            none
        },
        Some(label) => {
            let title_len = chars_of(label.title.as_str()).len();
            let hex_len = chars_of(label.hex_color.as_str()).len();
            if title_len < usize::MAX && hex_len < usize::MAX {
                let form = LabelEditState::new(label);
                open(model, Modal::LabelEdit(form));
            }
            none
        },
    }
}

/// The label as the form asks for it: the new title and colour, the same id.
pub open spec fn relabelled(l: LabelView, title: Seq<char>, hex_color: Seq<char>) -> LabelView {
    LabelView { title, hex_color, ..l }
}

/// Whether `after` and `es` answer the label form's request to give the label `l` the
/// title `title` and the colour `hex_color`: one change carrying both, said, and the
/// labels read again; nothing when neither moved; and a word that the label is gone when
/// no label has its id any more.
pub open spec fn label_renamed(
    before: Model,
    after: Model,
    es: Seq<EffectView>,
    l: LabelView,
    title: Seq<char>,
    hex_color: Seq<char>,
    g: Geometry,
    offset: i32,
) -> bool {
    let renamed = relabelled(l, title, hex_color);
    if known_label(before, l.id) is None {
        told(before, after, "That label is no longer here"@, Level::Info) && es.len() == 0
    } else if renamed == l {
        after == before && es.len() == 0
    } else {
        &&& es.len() == 3
        &&& edited(
            before,
            toasted(after, before.status.toast),
            es.take(2),
            MutationView::UpdateLabel { before: l, after: renamed },
            g,
            offset,
        )
        &&& toast_view(after.status.toast) == Some(
            ("Saved label "@ + crate::rows::truncated(title, 40), Level::Info, TOAST_LIFETIME),
        )
        &&& es[2] == EffectView::LoadLabels
    }
}

/// Queue the rename and recolour the label form asked for, as one change: the request
/// carries the whole label either way, so two changes would be two writes that each undo
/// half of the other. `before` is the form's own copy of the label, what the user started
/// from. Nothing is queued when neither field moved.
pub fn rename_label(
    model: &mut Model,
    before: Label,
    title: String,
    hex_color: String,
    geometry: &Geometry,
    offset: i32,
) -> (effects: Vec<Effect>)
    requires
        steady_in(*old(model), *geometry, offset),
    ensures
        label_renamed(
            *old(model),
            *final(model),
            effect_views(effects@),
            before@,
            title@,
            hex_color@,
            *geometry,
            offset,
        ),
{
    proof {
        reveal_strlit("That label is no longer here");
        reveal_strlit("Saved label ");
    }
    let mut effects: Vec<Effect> = Vec::new();
    proof {
        assert(effect_views(effects@) =~= Seq::<EffectView>::empty());
    }
    match find_label(model, before.id) {
        None => {
            model.toast(Toast::info(String::from_str("That label is no longer here")));
            return effects;
        },
        Some(_) => {},
    }
    let same = same_text(title.as_str(), before.title.as_str()) && same_text(
        hex_color.as_str(),
        before.hex_color.as_str(),
    );
    let ghost l = before@;
    let ghost renamed = relabelled(l, title@, hex_color@);
    proof {
        if same {
            assert(renamed == l);
        } else {
            assert(renamed != l);
        }
    }
    if same {
        return effects;
    }
    let mut words = chars_of("Saved label ");
    let cut = crate::resolve::truncated(title.as_str());
    crate::text::push_all(&mut words, chars_of(cut.as_str()).as_slice());
    let words = crate::text::string_of(words.as_slice());
    let after = Label { id: before.id, title, hex_color };
    proof {
        assert(after@ == renamed);
        assert(words@ =~= "Saved label "@ + crate::rows::truncated(renamed.title, 40));
    }
    effects = edit(model, Mutation::UpdateLabel { before, after }, geometry, offset);
    let ghost edited_model = *model;
    let ghost two = effect_views(effects@);
    model.toast(Toast::info(words));
    push_effect(&mut effects, Effect::LoadLabels);
    proof {
        assert(effect_views(effects@).take(2) =~= two);
        assert(toasted(*model, old(model).status.toast) == edited_model);
    }
    effects
}

} // verus!
