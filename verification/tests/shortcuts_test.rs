use slate::shortcuts::{
    conflict_message, Action, KeyBinding, ShortcutManager, ALT_MASK, CONTROL_MASK,
    KEY_B_LOWER, KEY_E_LOWER, KEY_F_LOWER, KEY_S, KEY_S_LOWER, SHIFT_MASK,
};

const KEY_A_LOWER: u32 = 0x0061;

#[test]
fn test_shortcut_binding_matches() {
    let binding = KeyBinding::new(KEY_S_LOWER, KEY_S_LOWER, true, false, false);
    assert!(binding.matches(KEY_S_LOWER, KEY_S_LOWER, CONTROL_MASK));
    assert!(binding.matches(KEY_S, KEY_S_LOWER, CONTROL_MASK));
    assert!(!binding.matches(KEY_S_LOWER, KEY_S_LOWER, SHIFT_MASK));
    assert!(!binding.matches(KEY_A_LOWER, KEY_A_LOWER, CONTROL_MASK));
}

#[test]
fn test_shortcut_manager_defaults() {
    let mgr = ShortcutManager::new();

    assert_eq!(
        mgr.match_action(KEY_S_LOWER, KEY_S_LOWER, CONTROL_MASK),
        Some(Action::Save)
    );

    assert_eq!(
        mgr.match_action(KEY_B_LOWER, KEY_B_LOWER, CONTROL_MASK),
        Some(Action::FormatBold)
    );

    assert_eq!(
        mgr.match_action(KEY_E_LOWER, KEY_E_LOWER, CONTROL_MASK),
        Some(Action::TogglePreview)
    );

    assert_eq!(
        mgr.match_action(KEY_F_LOWER, KEY_F_LOWER, CONTROL_MASK),
        Some(Action::Search)
    );
}

#[test]
fn test_shortcut_no_conflicts_in_defaults() {
    let mgr = ShortcutManager::new();
    let conflicts = mgr.check_conflicts();
    assert!(
        conflicts.is_empty(),
        "Unexpected conflicts in defaults: {:?}",
        conflicts
    );
}

#[test]
fn shortcut_modifiers_must_match_exactly() {
    let mgr = ShortcutManager::new();
    assert_eq!(mgr.match_action(KEY_S, KEY_S_LOWER, CONTROL_MASK | SHIFT_MASK), Some(Action::SaveAs));
    assert_eq!(mgr.match_action(KEY_S_LOWER, KEY_S_LOWER, CONTROL_MASK | ALT_MASK), None);
    assert_eq!(mgr.match_action(KEY_S_LOWER, KEY_S_LOWER, 0), None);
    assert_eq!(mgr.match_action(KEY_S_LOWER, KEY_S_LOWER, CONTROL_MASK | 0x10), Some(Action::Save));
}

#[test]
fn rebinding_replaces_action() {
    let mut mgr = ShortcutManager::new();
    mgr.bind(KEY_S_LOWER, KEY_S_LOWER, true, false, false, Action::Quit);
    assert_eq!(mgr.match_action(KEY_S_LOWER, KEY_S_LOWER, CONTROL_MASK), Some(Action::Quit));
    assert!(mgr.check_conflicts().is_empty());
    mgr.bind(KEY_A_LOWER, KEY_A_LOWER, false, false, true, Action::ZoomReset);
    assert_eq!(mgr.match_action(KEY_A_LOWER, KEY_A_LOWER, ALT_MASK), Some(Action::ZoomReset));
    let d = ShortcutManager::default();
    assert_eq!(d.match_action(KEY_S_LOWER, KEY_S_LOWER, CONTROL_MASK), Some(Action::Save));
}

#[test]
fn action_names_and_conflict_text() {
    assert_eq!(Action::FormatBold.name(), "FormatBold");
    assert_eq!(
        conflict_message(Action::Save, Action::Quit),
        "Conflit entre Save et Quit"
    );
}
