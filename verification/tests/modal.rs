use tui_do_ui::keymap::{Context, Key, KeyCode};
use tui_do_ui::modal::{
    Candidate, DueState, HelpState, LabelEditState, LabelField, LabelsState, Modal, Outcome,
    Pick, PickerKind, PickerState, PriorityState, QuickActionsState, SearchState, Submission,
    TextInput,
};
use tui_do_ui::models::Label;

fn key(c: char) -> Key {
    Key::char(c)
}

fn code(code: KeyCode) -> Key {
    Key::plain(code)
}

#[test]
fn typing_and_editing_move_the_cursor_by_characters_not_bytes() {
    let mut input = TextInput::default();
    for c in "café".chars() {
        input.press(Key::char(c));
    }
    assert_eq!(input.value(), "café");
    assert_eq!(input.cursor(), 4);

    input.press(code(KeyCode::Left));
    input.press(code(KeyCode::Backspace));
    assert_eq!(input.value(), "caé");
}

#[test]
fn a_picker_orders_by_match_quality_and_submits_the_highlighted_one() {
    let mut picker = PickerState::new(
        PickerKind::Project,
        vec![
            Candidate::new(Pick::Project(1), "Personal".to_string()),
            Candidate::new(Pick::Project(2), "Work".to_string()),
            Candidate::new(Pick::Project(3), "Weekend work".to_string()),
        ],
    );
    picker.handle(key('w'));
    picker.handle(key('o'));
    assert_eq!(picker.current().unwrap().title, "Work");

    let outcome = picker.handle(code(KeyCode::Enter));
    assert_eq!(outcome, Outcome::Submit(Submission::Picked(Pick::Project(2))));
}

#[test]
fn a_picker_with_no_matches_does_not_submit_something_arbitrary() {
    let mut picker = PickerState::new(
        PickerKind::Label,
        vec![Candidate::new(Pick::Label(7), "urgent".to_string())],
    );
    for c in "zzz".chars() {
        picker.handle(key(c));
    }
    assert!(picker.current().is_none());
    assert_eq!(picker.handle(code(KeyCode::Enter)), Outcome::Consumed);
}

#[test]
fn picker_selection_wraps_in_both_directions() {
    let mut picker = PickerState::new(
        PickerKind::Project,
        vec![
            Candidate::new(Pick::Project(1), "one".to_string()),
            Candidate::new(Pick::Project(2), "two".to_string()),
        ],
    );
    picker.handle(code(KeyCode::Up));
    assert_eq!(picker.current().unwrap().pick, Pick::Project(2));
    picker.handle(code(KeyCode::Down));
    assert_eq!(picker.current().unwrap().pick, Pick::Project(1));
}

#[test]
fn a_search_filters_as_it_is_typed_and_enter_only_puts_the_prompt_away() {
    let mut modal = Modal::Search(SearchState::new(None));
    assert_eq!(
        modal.handle(key('b')),
        Outcome::Update(Submission::Search("b".to_string()))
    );
    assert_eq!(
        modal.handle(key('u')),
        Outcome::Update(Submission::Search("bu".to_string()))
    );
    assert_eq!(modal.handle(code(KeyCode::Enter)), Outcome::Dismiss);
}

#[test]
fn abandoning_a_search_restores_the_filter_it_opened_over() {
    let mut modal = Modal::Search(SearchState::new(Some("urgent".to_string())));
    modal.handle(code(KeyCode::Backspace));
    assert_eq!(
        modal.handle(code(KeyCode::Esc)),
        Outcome::Submit(Submission::Search("urgent".to_string()))
    );

    let mut fresh = Modal::Search(SearchState::new(None));
    fresh.handle(key('x'));
    assert_eq!(
        fresh.handle(code(KeyCode::Esc)),
        Outcome::Submit(Submission::Search(String::new())),
        "an empty string clears the filter"
    );
}

fn a_label(id: i64, title: &str) -> Label {
    Label {
        id,
        title: title.to_string(),
        ..Label::default()
    }
}

#[test]
fn space_toggles_a_label_and_a_title_with_a_space_in_it_is_still_reachable() {
    let mut form = LabelsState::new(
        vec![a_label(1, "urgent"), a_label(2, "in progress")],
        vec![],
    );
    for c in "inprog".chars() {
        form.handle(key(c));
    }
    assert_eq!(form.current().unwrap().title, "in progress");

    form.handle(key(' '));
    assert!(form.is_chosen(2));
    assert_eq!(form.input.value(), "inprog", "the space did not type itself");

    form.handle(key(' '));
    assert!(!form.is_chosen(2), "and it toggles back off");

    assert_eq!(
        form.handle(code(KeyCode::Enter)),
        Outcome::Submit(Submission::Labels(Vec::new()))
    );
}

#[test]
fn toggling_with_nothing_matched_changes_nothing_rather_than_panicking() {
    let mut form = LabelsState::new(vec![a_label(1, "urgent")], vec![]);
    for c in "zzz".chars() {
        form.handle(key(c));
    }
    assert!(form.current().is_none());
    form.handle(key(' '));
    assert!(form.chosen.is_empty());
}

#[test]
fn a_label_form_with_no_match_offers_to_create_what_was_typed() {
    let mut form = LabelsState::new(vec![a_label(1, "urgent")], vec![]);
    for c in "next".chars() {
        form.handle(key(c));
    }
    assert!(form.matches.is_empty());
    assert_eq!(form.creatable(), Some("next".to_string()));

    assert_eq!(
        form.handle(Key::ctrl('n')),
        Outcome::Update(Submission::CreateLabel("next".to_string())),
        "the form stays open: the user is still deciding the task's labels"
    );
    assert_eq!(
        form.handle(code(KeyCode::Enter)),
        Outcome::Submit(Submission::Labels(Vec::new())),
        "and Enter still means 'apply the ticks I made'"
    );
}

#[test]
fn a_form_does_not_offer_to_create_a_label_that_exists() {
    let mut form = LabelsState::new(vec![a_label(1, "urgent")], vec![]);
    for c in "urgent".chars() {
        form.handle(key(c));
    }
    assert_eq!(form.creatable(), None);
    assert_eq!(
        form.handle(Key::ctrl('n')),
        Outcome::Consumed,
        "the key does nothing rather than making the global pool worse"
    );
}

#[test]
fn a_form_does_not_offer_twice_while_the_first_create_is_still_in_flight() {
    let mut form = LabelsState::new(vec![a_label(1, "urgent")], vec![]);
    for c in "next".chars() {
        form.handle(key(c));
    }
    assert!(matches!(form.handle(Key::ctrl('n')), Outcome::Update(_)));
    assert_eq!(form.creatable(), None);
    assert_eq!(form.handle(Key::ctrl('n')), Outcome::Consumed);
}

#[test]
fn an_empty_box_offers_nothing_and_a_created_label_comes_back_ticked() {
    let mut form = LabelsState::new(Vec::new(), Vec::new());
    assert_eq!(form.creatable(), None, "there is nothing to create yet");
    assert_eq!(form.handle(Key::ctrl('n')), Outcome::Consumed);

    for c in "next".chars() {
        form.handle(key(c));
    }
    assert!(matches!(form.handle(Key::ctrl('n')), Outcome::Update(_)));

    form.absorb_created(&vec![a_label(-1, "next"), a_label(7, "other")]);
    assert_eq!(form.labels, vec![a_label(-1, "next")]);
    assert_eq!(form.chosen, vec![-1]);
    assert_eq!(form.current().map(|l| l.title.as_str()), Some("next"));

    assert_eq!(form.creatable(), None);
    form.absorb_created(&vec![a_label(-1, "next")]);
    assert_eq!(form.labels.len(), 1);
}

fn a_coloured_label(id: i64, title: &str, hex: &str) -> Label {
    Label {
        id,
        title: title.to_string(),
        hex_color: hex.to_string(),
    }
}

#[test]
fn the_label_form_starts_from_what_the_label_is_now() {
    let state = LabelEditState::new(a_coloured_label(41, "next", "4287f5"));
    assert_eq!(state.title.value(), "next");
    assert_eq!(state.hex.value(), "4287f5");
    assert_eq!(state.field, LabelField::Title);
    assert!(state.error.is_none());
}

#[test]
fn submitting_the_label_form_carries_both_fields() {
    let mut form = Modal::LabelEdit(LabelEditState::new(a_coloured_label(41, "next", "4287f5")));
    for _ in 0.."next".len() {
        form.handle(code(KeyCode::Backspace));
    }
    for c in "next up".chars() {
        form.handle(key(c));
    }
    assert_eq!(
        form.handle(code(KeyCode::Enter)),
        Outcome::Submit(Submission::EditedLabel {
            before: Box::new(a_coloured_label(41, "next", "4287f5")),
            title: "next up".to_string(),
            hex_color: "4287f5".to_string(),
        })
    );
}

#[test]
fn tab_moves_between_the_two_fields_and_esc_abandons_both() {
    let mut form = LabelEditState::new(a_coloured_label(41, "next", "4287f5"));
    assert_eq!(form.handle(code(KeyCode::Tab)), Outcome::Consumed);
    assert_eq!(form.field, LabelField::Colour);
    for _ in 0.."4287f5".len() {
        form.handle(code(KeyCode::Backspace));
    }
    for c in "e8384f".chars() {
        form.handle(key(c));
    }
    assert_eq!(form.title.value(), "next", "the title field is untouched");
    assert_eq!(form.handle(code(KeyCode::BackTab)), Outcome::Consumed);
    assert_eq!(form.field, LabelField::Title);
    assert_eq!(
        form.handle(code(KeyCode::Enter)),
        Outcome::Submit(Submission::EditedLabel {
            before: Box::new(a_coloured_label(41, "next", "4287f5")),
            title: "next".to_string(),
            hex_color: "e8384f".to_string(),
        })
    );

    let mut abandoned = LabelEditState::new(a_coloured_label(41, "next", "4287f5"));
    abandoned.handle(key('x'));
    assert_eq!(abandoned.handle(code(KeyCode::Esc)), Outcome::Dismiss);
}

#[test]
fn a_colour_that_is_not_six_hex_digits_is_refused_in_the_form() {
    let mut form = LabelEditState::new(a_coloured_label(41, "next", ""));
    form.handle(code(KeyCode::Tab));
    for c in "nope".chars() {
        form.handle(key(c));
    }
    assert_eq!(form.handle(code(KeyCode::Enter)), Outcome::Consumed);
    assert!(
        form.error.as_deref().is_some_and(|why| why.contains("hex")),
        "the form says why: {:?}",
        form.error
    );

    form.handle(code(KeyCode::Tab));
    for c in "!".chars() {
        form.handle(key(c));
    }
    assert!(
        form.error.is_some(),
        "the title has nothing to do with the colour"
    );

    form.handle(code(KeyCode::Tab));
    form.handle(Key::ctrl('u'));
    for c in "e8384f".chars() {
        form.handle(key(c));
    }
    assert!(form.error.is_none());
}

#[test]
fn an_empty_colour_is_a_colour_and_a_leading_hash_is_taken_off() {
    let mut cleared = LabelEditState::new(a_coloured_label(41, "next", "4287f5"));
    cleared.handle(code(KeyCode::Tab));
    cleared.handle(Key::ctrl('u'));
    assert_eq!(cleared.hex.value(), "");
    assert_eq!(
        cleared.handle(code(KeyCode::Enter)),
        Outcome::Submit(Submission::EditedLabel {
            before: Box::new(a_coloured_label(41, "next", "4287f5")),
            title: "next".to_string(),
            hex_color: String::new(),
        })
    );

    let mut hashed = LabelEditState::new(a_coloured_label(41, "next", "#4287f5"));
    assert_eq!(
        hashed.handle(code(KeyCode::Enter)),
        Outcome::Submit(Submission::EditedLabel {
            before: Box::new(a_coloured_label(41, "next", "#4287f5")),
            title: "next".to_string(),
            hex_color: "4287f5".to_string(),
        })
    );
}

#[test]
fn a_label_cannot_be_renamed_to_nothing() {
    let mut form = LabelEditState::new(a_coloured_label(41, "next", "4287f5"));
    for _ in 0.."next".len() {
        form.handle(code(KeyCode::Backspace));
    }
    assert_eq!(form.handle(code(KeyCode::Enter)), Outcome::Consumed);
    assert!(form.error.is_some());
}

#[test]
fn both_lists_of_labels_open_the_same_form_on_the_highlighted_one() {
    let mut ticks = LabelsState::new(vec![a_label(1, "urgent"), a_label(2, "next")], vec![]);
    ticks.handle(code(KeyCode::Down));
    assert_eq!(
        ticks.handle(Key::ctrl('e')),
        Outcome::Update(Submission::EditLabel(2))
    );

    let mut picker = PickerState::new(
        PickerKind::Label,
        vec![
            Candidate::new(Pick::Label(1), "urgent".to_string()),
            Candidate::new(Pick::Label(2), "next".to_string()),
        ],
    );
    picker.handle(code(KeyCode::Down));
    assert_eq!(
        picker.handle(Key::ctrl('e')),
        Outcome::Update(Submission::EditLabel(2))
    );

    let mut projects = PickerState::new(
        PickerKind::Project,
        vec![Candidate::new(Pick::Project(1), "Work".to_string())],
    );
    assert_eq!(projects.handle(Key::ctrl('e')), Outcome::Consumed);
}

#[test]
fn editing_nothing_does_nothing_rather_than_panicking() {
    let mut ticks = LabelsState::new(vec![a_label(1, "urgent")], vec![]);
    for c in "zzz".chars() {
        ticks.handle(key(c));
    }
    assert!(ticks.current().is_none());
    assert_eq!(ticks.handle(Key::ctrl('e')), Outcome::Consumed);

    let mut picker = PickerState::new(
        PickerKind::Label,
        vec![Candidate::new(Pick::Label(1), "urgent".to_string())],
    );
    for c in "zzz".chars() {
        picker.handle(key(c));
    }
    assert_eq!(picker.handle(Key::ctrl('e')), Outcome::Consumed);
}

#[test]
fn the_due_field_submits_an_empty_value_but_esc_still_abandons() {
    let mut modal = Modal::Due(DueState::new("24/12/2026"));
    for _ in 0..10 {
        modal.handle(code(KeyCode::Backspace));
    }
    assert_eq!(
        modal.handle(code(KeyCode::Enter)),
        Outcome::Submit(Submission::Due(String::new()))
    );

    let mut abandoned = Modal::Due(DueState::new("24/12/2026"));
    abandoned.handle(key('x'));
    assert_eq!(abandoned.handle(code(KeyCode::Esc)), Outcome::Dismiss);
}

#[test]
fn help_scrolls_but_any_other_key_closes_it() {
    let mut modal = Modal::Help(HelpState::default());
    assert_eq!(modal.handle(key('j')), Outcome::Consumed);
    assert_eq!(modal.handle(key('x')), Outcome::Dismiss);
}

#[test]
fn a_reload_renames_the_labels_the_form_holds_and_adds_none() {
    let mut form = LabelsState::new(vec![a_label(1, "urgent"), a_label(2, "next")], vec![2]);
    form.refresh(&vec![a_label(2, "next up"), a_label(9, "other")]);
    assert_eq!(form.labels, vec![a_label(1, "urgent"), a_label(2, "next up")]);
    assert_eq!(form.chosen, vec![2]);
}

#[test]
fn every_modal_names_itself_in_its_border() {
    assert_eq!(Modal::Help(HelpState::new(Context::List)).title(), "Keys");
    assert_eq!(Modal::Add(TextInput::default()).title(), "Add a task");
    assert_eq!(
        Modal::Labels(LabelsState::new(Vec::new(), Vec::new())).title(),
        "Labels  —  Space toggles, Enter applies, Esc cancels"
    );
    assert_eq!(
        Modal::Priority(PriorityState::new(3)).title(),
        "Set priority  —  0 to 5"
    );
    assert_eq!(
        Modal::QuickActions(QuickActionsState::new(vec![('a', "Archive".to_string())])).title(),
        "Quick actions"
    );
}

#[test]
fn a_quick_action_key_submits_its_row_and_space_closes_the_menu() {
    let mut modal = Modal::QuickActions(QuickActionsState::new(vec![
        ('a', "Archive".to_string()),
        ('b', "Backlog".to_string()),
    ]));
    assert_eq!(
        modal.handle(key('b')),
        Outcome::Submit(Submission::QuickAction(1))
    );
    assert_eq!(modal.handle(key('z')), Outcome::Consumed);
    assert_eq!(modal.handle(key(' ')), Outcome::Dismiss);
}

#[test]
fn a_priority_typed_past_five_is_refused() {
    let mut modal = Modal::Priority(PriorityState::new(2));
    assert_eq!(modal.handle(key('9')), Outcome::Consumed);
    assert_eq!(
        modal.handle(code(KeyCode::Enter)),
        Outcome::Submit(Submission::Priority(2))
    );
    assert_eq!(modal.handle(key('4')), Outcome::Consumed);
    assert_eq!(
        modal.handle(code(KeyCode::Enter)),
        Outcome::Submit(Submission::Priority(4))
    );
}
