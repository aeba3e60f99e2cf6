use herdr_hunks::tui::keys::{
    help_panel, keys, lookup, KeyAction, KeyCode, KeyEvent, KeyEventKind, KeyModifiers,
};

#[test]
fn navigation_aliases_require_no_modifiers_and_do_not_extend_the_sheet() {
    for (code, action) in [
        (KeyCode::Down, KeyAction::LineDown),
        (KeyCode::Up, KeyAction::LineUp),
        (KeyCode::Left, KeyAction::SideDeletions),
        (KeyCode::Right, KeyAction::SideAdditions),
        (KeyCode::PageDown, KeyAction::HalfPageDown),
        (KeyCode::PageUp, KeyAction::HalfPageUp),
        (KeyCode::Home, KeyAction::First),
        (KeyCode::End, KeyAction::Last),
    ] {
        assert_eq!(lookup(&KeyEvent::new(code, KeyModifiers::none())), Some(action));
        for modifiers in [
            KeyModifiers::shift(),
            KeyModifiers::control(),
            KeyModifiers::alt(),
            KeyModifiers::super_key(),
        ] {
            assert_eq!(lookup(&KeyEvent::new(code, modifiers)), None);
        }
    }
    assert_eq!(keys().len(), 22);
    assert_eq!(help_panel(false).rows.len(), 22);
}

#[test]
fn modifiers_preserve_uppercase_and_keep_unbound_combinations_inert() {
    assert_eq!(
        lookup(&KeyEvent::new(KeyCode::Char('b'), KeyModifiers::none())),
        Some(KeyAction::ToggleScope)
    );
    assert_eq!(
        lookup(&KeyEvent::new(KeyCode::Char('E'), KeyModifiers::shift())),
        Some(KeyAction::PinFiles)
    );
    assert_eq!(
        lookup(&KeyEvent::new(KeyCode::Char('e'), KeyModifiers::none())),
        Some(KeyAction::ToggleFiles)
    );
    assert_eq!(
        lookup(&KeyEvent::new(KeyCode::Char('d'), KeyModifiers::control())),
        Some(KeyAction::HalfPageDown)
    );
    assert_eq!(lookup(&KeyEvent::new(KeyCode::Char('d'), KeyModifiers::none())), None);
    for modifiers in [
        KeyModifiers::alt(),
        KeyModifiers::super_key(),
        KeyModifiers::hyper(),
        KeyModifiers::meta(),
        KeyModifiers::control(),
    ] {
        assert_eq!(lookup(&KeyEvent::new(KeyCode::Char('q'), modifiers)), None);
    }
    assert_eq!(
        lookup(&KeyEvent::new_with_kind(KeyCode::Char('q'), KeyModifiers::none(), KeyEventKind::Release)),
        None
    );
    assert_eq!(lookup(&KeyEvent::new(KeyCode::Enter, KeyModifiers::none())), None);
}
