use binder::dock::{
    activation_for, apply_menu_action, dock_items, dock_shown, edge_hover_after, has_menu, menu_unpins, pinned_visible_count,
    DockActivation, DockItem, DockMenuAction, DockPointer, DockRelease,
};
use binder::dock_preferences::DockPreferences;
use binder::platform::AppInfo;

fn app(bundle_id: &str) -> AppInfo {
    AppInfo {
        root: String::new(),
        name: bundle_id.to_owned(),
        bundle_id: bundle_id.to_owned(),
        version: String::from("1.0.0"),
        developer: String::from("mochiOS"),
        entry: String::from("entry.elf"),
        description: String::new(),
        icon: None,
        resources: Vec::new(),
    }
}

fn catalogue() -> Vec<AppInfo> {
    vec![app("org.mochios.terminal"), app("org.example.editor"), app("org.mochios.files")]
}

#[test]
fn dock_shows_pins_then_running_apps_then_the_library() {
    let apps = catalogue();
    let preferences = DockPreferences::default();
    let running = vec![
        String::from("org.mochios.files"),
        String::from("org.example.editor"),
        String::from("org.example.unknown"),
    ];
    let items = dock_items(&apps, &preferences, &running);
    assert_eq!(
        items,
        vec![DockItem::App(2), DockItem::App(0), DockItem::App(1), DockItem::AppLibrary]
    );
    assert_eq!(pinned_visible_count(&apps, &preferences), 2);
}

#[test]
fn uninstalled_pins_are_not_shown() {
    let apps = vec![app("org.mochios.terminal")];
    let preferences = DockPreferences::default();
    assert_eq!(dock_items(&apps, &preferences, &[]), vec![DockItem::App(0), DockItem::AppLibrary]);
    assert_eq!(pinned_visible_count(&apps, &preferences), 1);
}

#[test]
fn menus_pin_and_unpin() {
    let apps = catalogue();
    let mut preferences = DockPreferences::default();
    let items = dock_items(&apps, &preferences, &[String::from("org.example.editor")]);
    assert!(has_menu(&apps, &items, 0));
    assert!(!has_menu(&apps, &items, 3));
    assert!(menu_unpins(&apps, &items, &preferences, 0));
    assert!(!menu_unpins(&apps, &items, &preferences, 2));
    assert_eq!(apply_menu_action(DockMenuAction::Pin, 2, &apps, &items, &mut preferences), None);
    assert_eq!(
        preferences.pinned(),
        ["org.mochios.files", "org.mochios.terminal", "org.example.editor"]
    );
    assert_eq!(apply_menu_action(DockMenuAction::Unpin, 0, &apps, &items, &mut preferences), None);
    assert_eq!(preferences.pinned(), ["org.mochios.terminal", "org.example.editor"]);
    assert_eq!(apply_menu_action(DockMenuAction::Open, 1, &apps, &items, &mut preferences), Some(1));
}

#[test]
fn activating_the_library_toggles_it() {
    let apps = catalogue();
    let preferences = DockPreferences::default();
    let items = dock_items(&apps, &preferences, &[]);
    assert_eq!(activation_for(&apps, &items, 0), Some(DockActivation::Application(2)));
    assert_eq!(activation_for(&apps, &items, 2), Some(DockActivation::ToggleAppLibrary));
    assert_eq!(activation_for(&apps, &items, 3), None);
}

#[test]
fn a_click_activates_and_a_drag_reorders() {
    let apps = catalogue();
    let mut preferences = DockPreferences::default();
    let items = dock_items(&apps, &preferences, &[]);
    let mut pointer = DockPointer::new();
    assert!(pointer.hover(Some(1)));
    assert!(!pointer.hover(Some(1)));
    pointer.press(Some(1), 2);
    assert_eq!(pointer.release(Some(1)), DockRelease::Released { activate: Some(1) });
    assert_eq!(pointer.release(Some(1)), DockRelease::NotPressed);

    pointer.press(Some(0), 2);
    assert!(pointer.drag_over(Some(1), &apps, &items, &mut preferences));
    assert_eq!(preferences.pinned(), ["org.mochios.terminal", "org.mochios.files"]);
    assert_eq!(pointer.pressed_item(), Some(1));
    assert_eq!(pointer.release(Some(1)), DockRelease::Released { activate: None });

    pointer.press(Some(2), 2);
    assert!(!pointer.drag_over(Some(0), &apps, &items, &mut preferences));
    assert!(pointer.leave());
    assert_eq!(pointer.hovered_item(), None);
    pointer.open_menu(1);
    assert_eq!(pointer.menu_item(), Some(1));
    pointer.close_menu();
    assert_eq!(pointer.menu_item(), None);
}

#[test]
fn the_dock_hides_under_covering_windows_until_the_pointer_calls_it() {
    assert!(dock_shown(false, false, false));
    assert!(!dock_shown(true, false, false));
    assert!(dock_shown(true, true, false));
    assert!(dock_shown(true, false, true));
}

#[test]
fn edge_hover_follows_the_pointer() {
    assert!(edge_hover_after(Some((true, false)), false, false));
    assert!(!edge_hover_after(Some((false, true)), false, false));
    assert!(edge_hover_after(Some((false, true)), true, false));
    assert!(edge_hover_after(Some((false, true)), false, true));
    assert!(!edge_hover_after(Some((false, false)), true, true));
    assert!(!edge_hover_after(None, true, true));
}
