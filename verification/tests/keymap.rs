use tui_do_ui::keymap::{
    bindings_in, help_rows, keymap, resolve, Action, Context, Group, HelpRow, Key, KeyCode,
    KeyEvent, KeyEventKind, Modifiers, Resolved,
};

fn press(c: char) -> Key {
    Key::char(c)
}

#[test]
fn a_plain_key_resolves_to_its_action() {
    assert_eq!(
        resolve(&[], press('j'), Context::List),
        Resolved::Action(Action::MoveDown)
    );
}

#[test]
fn a_prefix_waits_for_the_rest_of_the_chord() {
    assert_eq!(resolve(&[], press('g'), Context::List), Resolved::Pending);
    assert_eq!(
        resolve(&[press('g')], press('g'), Context::List),
        Resolved::Action(Action::Top)
    );
    assert_eq!(
        resolve(&[press('g')], press('p'), Context::List),
        Resolved::Action(Action::GotoProject)
    );
}

#[test]
fn an_unbound_second_key_cancels_the_chord_rather_than_doing_something_else() {
    assert_eq!(
        resolve(&[press('g')], press('j'), Context::List),
        Resolved::Unbound
    );
}

#[test]
fn enter_means_different_things_in_different_panes() {
    let enter = Key::plain(KeyCode::Enter);
    assert_eq!(
        resolve(&[], enter, Context::List),
        Resolved::Action(Action::OpenTask)
    );
    assert_eq!(
        resolve(&[], enter, Context::Sidebar),
        Resolved::Action(Action::ExpandOrOpen)
    );
}

#[test]
fn a_sidebar_binding_is_invisible_from_the_list() {
    assert_eq!(resolve(&[], press('h'), Context::List), Resolved::Unbound);
    assert_eq!(
        resolve(&[], press('h'), Context::Sidebar),
        Resolved::Action(Action::CollapseOrParent)
    );
}

#[test]
fn shift_h_is_the_layout_key_not_the_vim_one() {
    assert_eq!(
        resolve(&[], press('H'), Context::List),
        Resolved::Action(Action::PreviousLayout)
    );
}

#[test]
fn an_uppercase_press_drops_the_redundant_shift_modifier() {
    let event = KeyEvent::new(KeyCode::Char('H'), Modifiers::shift());
    let key = Key::from_event(event).unwrap();
    assert_eq!(key, Key::char('H'));
    assert_eq!(
        resolve(&[], key, Context::List),
        Resolved::Action(Action::PreviousLayout)
    );
}

#[test]
fn a_key_release_is_not_a_key_press() {
    let event =
        KeyEvent::new_with_kind(KeyCode::Char('j'), Modifiers::none(), KeyEventKind::Release);
    assert!(Key::from_event(event).is_none());
}

#[test]
fn every_binding_is_reachable_and_no_two_share_a_chord_in_one_context() {
    let table = keymap();
    for (index, binding) in table.iter().enumerate() {
        assert!(
            !binding.keys.is_empty(),
            "{:?} binds nothing",
            binding.action
        );
        for chord in &binding.keys {
            assert!(!chord.is_empty(), "{:?} has an empty chord", binding.action);
            for other in table.iter().skip(index + 1) {
                let overlaps = binding.context == other.context
                    || binding.context == Context::Global
                    || other.context == Context::Global;
                if overlaps {
                    assert!(
                        !other.keys.contains(chord),
                        "{:?} and {:?} both bind {}",
                        binding.action,
                        other.action,
                        binding.keys_display()
                    );
                }
            }
        }
    }
}

#[test]
fn help_renders_a_chord_as_a_sequence_and_alternatives_with_a_slash() {
    let table = keymap();
    let top = table
        .iter()
        .find(|binding| binding.action == Action::Top)
        .unwrap();
    assert_eq!(top.keys_display(), "g g / Home");

    let down = table
        .iter()
        .find(|binding| binding.action == Action::MoveDown)
        .unwrap();
    assert_eq!(down.keys_display(), "j / ↓");
}

#[test]
fn the_palette_offers_commands_and_not_motions() {
    let offered: Vec<Action> = keymap()
        .iter()
        .map(|binding| binding.action)
        .filter(|action| action.is_command())
        .collect();
    assert!(offered.contains(&Action::ToggleSidebar));
    assert!(offered.contains(&Action::SyncNow));
    assert!(!offered.contains(&Action::MoveDown));
    assert!(
        !offered.contains(&Action::CommandPalette),
        "the palette must not offer itself"
    );
}

#[test]
fn the_palette_key_is_bound_and_free_of_conflicts() {
    assert_eq!(
        resolve(&[], press(':'), Context::List),
        Resolved::Action(Action::CommandPalette)
    );
}

#[test]
fn every_group_has_something_in_it() {
    for group in Group::all() {
        assert!(
            !bindings_in(group, Context::List).is_empty(),
            "{} is empty",
            group.heading()
        );
    }
}

#[test]
fn a_control_chord_and_a_named_key_print_the_way_help_shows_them() {
    assert_eq!(Key::ctrl('d').text(), "C-d");
    assert_eq!(Key::char(' ').text(), "Space");
    assert_eq!(Key::plain(KeyCode::BackTab).text(), "S-Tab");
    assert_eq!(Key::plain(KeyCode::F(12)).text(), "F(12)");
    let alt = Key { code: KeyCode::Char('x'), mods: Modifiers::alt() };
    assert_eq!(alt.text(), "M-x");
}

#[test]
fn help_lists_every_group_with_a_blank_between_and_none_trailing() {
    let rows = help_rows(Context::List);
    let headings: Vec<&str> = rows
        .iter()
        .filter_map(|row| match row {
            HelpRow::Heading(text) => Some(*text),
            _ => None,
        })
        .collect();
    assert_eq!(headings, vec!["Navigation", "Tasks", "View", "Application"]);
    let blanks = rows.iter().filter(|row| matches!(row, HelpRow::Blank)).count();
    assert_eq!(blanks, 3);
    assert!(!matches!(rows.last(), Some(HelpRow::Blank)));
    // The sidebar's `h` is not listed for the list, and the list's `Enter` is.
    let docs: Vec<&str> = rows
        .iter()
        .filter_map(|row| match row {
            HelpRow::Binding(binding) => Some(binding.doc),
            _ => None,
        })
        .collect();
    assert!(docs.contains(&"Open the selected task"));
    assert!(!docs.contains(&"Collapse, or move to the parent"));
}
