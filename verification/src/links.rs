//! Following a link in the selected task: opening it where there is a display to open it
//! on, and copying it where there is not.
use crate::model::{Level, Model, Toast};
use crate::rows::{truncate, truncated};
use crate::text::{chars_of, push_all, string_of};
use crate::update::{effect_views, nothing_selected, selection_of, told, Effect, EffectView};
use crate::urls::{extract, extracted, Link, LinkView};
use vstd::prelude::*;

verus! {

/// What `o` does with a link on this machine, decided once at startup by what the
/// machine has to open links onto.
#[derive(Debug, Clone, Copy, PartialEq, Eq, Structural)]
pub enum UrlAction {
    /// Open it in the browser.
    Open,
    /// Put it on the clipboard: there is no display here, as over SSH.
    Copy,
}

/// What following a link says, with the address cut to 60 cells: a real address runs to
/// hundreds of characters, and the toast needs only enough of it to recognise.
pub open spec fn followed_words(url: Seq<char>, how: UrlAction) -> Seq<char> {
    match how {
        UrlAction::Open => "Opening "@ + truncated(url, 60),
        UrlAction::Copy => "Copied "@ + truncated(url, 60) + " \u{2014} no display on this box"@,
    }
}

/// The effect that follows a link.
pub open spec fn follow_effect(url: Seq<char>, how: UrlAction) -> EffectView {
    match how {
        UrlAction::Open => EffectView::OpenUrl(url),
        UrlAction::Copy => EffectView::CopyToClipboard(url),
    }
}

/// Open `url`, or copy it when this machine has nowhere to open it, and say which.
pub fn follow_link(model: &mut Model, url: String, how: UrlAction) -> (effects: Vec<Effect>)
    ensures
        told(*old(model), *final(model), followed_words(url@, how), Level::Info),
        effect_views(effects@) == seq![follow_effect(url@, how)],
{
    proof {
        reveal_strlit("Opening ");
        reveal_strlit("Copied ");
        reveal_strlit(" \u{2014} no display on this box");
    }
    let shown = truncate(url.as_str(), 60);
    let mut words: Vec<char> = match how {
        UrlAction::Open => chars_of("Opening "),
        UrlAction::Copy => chars_of("Copied "),
    };
    push_all(&mut words, chars_of(shown.as_str()).as_slice());
    match how {
        UrlAction::Open => {},
        UrlAction::Copy => push_all(&mut words, chars_of(" \u{2014} no display on this box").as_slice()),
    }
    let text = string_of(words.as_slice());
    proof {
        assert(text@ =~= followed_words(url@, how));
    }
    model.toast(Toast::info(text));
    let effect = match how {
        UrlAction::Open => Effect::OpenUrl(url),
        UrlAction::Copy => Effect::CopyToClipboard(url),
    };
    let effects = vec![effect];
    proof {
        assert(effect_views(effects@) =~= seq![follow_effect(url@, how)]);
    }
    effects
}

/// Whether `after` and `r` answer `o`: with no task selected, a word that none is; with no
/// link in the selected task, a word that there is none; with one, that link followed;
/// with several, nothing changed and the links handed back, title first and then down the
/// description, for the user to choose one.
pub open spec fn link_opened(before: Model, after: Model, r: Result<Seq<EffectView>, Seq<LinkView>>, how: UrlAction) -> bool {
    match selection_of(before) {
        None => told(before, after, "No task selected"@, Level::Info) && r == Ok::<
            Seq<EffectView>,
            Seq<LinkView>,
        >(Seq::empty()),
        Some(k) => {
            let t = before.data.tasks@[k];
            let links = extracted(t.title@, t.description@);
            if links.len() == 0 {
                told(before, after, "No link in the selected task"@, Level::Info) && r == Ok::<
                    Seq<EffectView>,
                    Seq<LinkView>,
                >(Seq::empty())
            } else if links.len() == 1 {
                &&& told(before, after, followed_words(links[0].url, how), Level::Info)
                &&& r == Ok::<Seq<EffectView>, Seq<LinkView>>(seq![follow_effect(links[0].url, how)])
            } else {
                after == before && r == Err::<Seq<EffectView>, Seq<LinkView>>(links)
            }
        },
    }
}

/// The links a choice is offered between, as values.
pub open spec fn links_view(r: Result<Vec<Effect>, Vec<Link>>) -> Result<Seq<EffectView>, Seq<LinkView>> {
    match r {
        Ok(es) => Ok(effect_views(es@)),
        Err(links) => Err(links@.map_values(|l: Link| l@)),
    }
}

/// Follow the link in the selected task: `o`.
pub fn open_link(model: &mut Model, how: UrlAction) -> (r: Result<Vec<Effect>, Vec<Link>>)
    ensures
        link_opened(*old(model), *final(model), links_view(r), how),
{
    proof {
        reveal_strlit("No link in the selected task");
        if let Some(id) = model.list.selected {
            crate::label_forms::lemma_first_where(model.data.tasks@, crate::model::task_with_id(id));
        }
    }
    let found = match model.selected_task() {
        Some(task) => Some(extract(task)),
        None => None,
    };
    match found {
        None => {
            let effects = nothing_selected(model);
            proof {
                assert(effect_views(effects@) =~= Seq::<EffectView>::empty());
            }
            Ok(effects)
        },
        Some(links) => {
            if links.len() == 0 {
                model.toast(Toast::info(String::from_str("No link in the selected task")));
                let none: Vec<Effect> = Vec::new();
                proof {
                    assert(effect_views(none@) =~= Seq::<EffectView>::empty());
                }
                Ok(none)
            } else if links.len() == 1 {
                let url = links[0].url.clone();
                Ok(follow_link(model, url, how))
            } else {
                Err(links)
            }
        },
    }
}

} // verus!
