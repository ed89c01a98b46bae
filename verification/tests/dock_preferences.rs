use binder::dock_preferences::DockPreferences;

#[test]
fn default_pins_files_before_terminal() {
    assert_eq!(
        DockPreferences::default().pinned(),
        ["org.mochios.files", "org.mochios.terminal"]
    );
}

#[test]
fn parse_rejects_invalid_and_duplicate_ids() {
    let preferences = DockPreferences::parse(
        "org.mochios.files\n../escape\norg.mochios.files\norg.mochios.terminal\n",
    );
    assert_eq!(
        preferences.pinned(),
        ["org.mochios.files", "org.mochios.terminal"]
    );
}

#[test]
fn pin_unpin_and_reorder_are_stable() {
    let mut preferences = DockPreferences::default();
    assert!(preferences.pin("org.mochios.viewkit-test"));
    assert!(preferences.move_pin(2, 0));
    assert!(preferences.move_pin_bundle("org.mochios.viewkit-test", "org.mochios.files"));
    assert!(preferences.unpin("org.mochios.terminal"));
    assert_eq!(
        preferences.pinned(),
        ["org.mochios.files", "org.mochios.viewkit-test"]
    );
}

#[test]
fn pin_then_unpin_restores_the_pins() {
    let mut preferences = DockPreferences::default();
    assert!(preferences.pin("org.example.editor"));
    assert!(preferences.unpin("org.example.editor"));
    assert_eq!(
        preferences.pinned(),
        ["org.mochios.files", "org.mochios.terminal"]
    );
}

#[test]
fn pinning_twice_or_an_invalid_id_changes_nothing() {
    let mut preferences = DockPreferences::default();
    assert!(!preferences.pin("org.mochios.files"));
    assert!(!preferences.pin("Not Valid"));
    assert!(!preferences.unpin("org.example.absent"));
    assert!(!preferences.move_pin(0, 0));
    assert!(!preferences.move_pin(0, 5));
    assert_eq!(
        preferences.pinned(),
        ["org.mochios.files", "org.mochios.terminal"]
    );
}

#[test]
fn saved_pins_load_back() {
    let mut preferences = DockPreferences::default();
    assert!(preferences.pin("org.example.editor"));
    let text = preferences.serialize();
    assert_eq!(
        text,
        "org.mochios.files\norg.mochios.terminal\norg.example.editor\n"
    );
    let loaded = DockPreferences::parse(&text);
    assert_eq!(loaded.pinned(), preferences.pinned());
}

#[test]
fn parse_trims_lines() {
    let preferences = DockPreferences::parse("  org.example.one  \n\n\torg.example.two\n");
    assert_eq!(preferences.pinned(), ["org.example.one", "org.example.two"]);
}
