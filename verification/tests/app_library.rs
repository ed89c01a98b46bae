use binder::app_library::{
    adjacent_selection, app_matches_lowered, matching_app_indices, page_count, AppLibrary, PAGE_SIZE,
};
use binder::platform::AppInfo;

fn app(name: &str, bundle_id: &str, developer: &str) -> AppInfo {
    AppInfo {
        root: String::new(),
        name: name.to_owned(),
        bundle_id: bundle_id.to_owned(),
        version: String::from("1.0.0"),
        developer: developer.to_owned(),
        entry: String::from("entry.elf"),
        description: String::new(),
        icon: None,
        resources: Vec::new(),
    }
}

fn catalogue(count: usize) -> Vec<AppInfo> {
    (0..count)
        .map(|index| app(&format!("App {index}"), &format!("org.test.app{index}"), "Tester"))
        .collect()
}

#[test]
fn search_matches_name_bundle_and_developer_case_insensitively() {
    let apps = vec![
        app("Files", "org.mochios.files", "mochiOS"),
        app("Terminal", "org.mochios.terminal", "System Team"),
    ];
    assert_eq!(matching_app_indices(&apps, "FILE"), vec![0]);
    assert_eq!(matching_app_indices(&apps, "terminal"), vec![1]);
    assert_eq!(matching_app_indices(&apps, "system team"), vec![1]);
    assert_eq!(matching_app_indices(&apps, "missing"), Vec::<usize>::new());
}

#[test]
fn page_count_keeps_an_empty_page_and_rounds_up() {
    assert_eq!(page_count(0), 1);
    assert_eq!(page_count(PAGE_SIZE), 1);
    assert_eq!(page_count(PAGE_SIZE + 1), 2);
}

#[test]
fn selection_navigation_uses_filtered_app_indices() {
    let filtered = vec![2, 5, 9];
    assert_eq!(adjacent_selection(&filtered, None, 1), Some(2));
    assert_eq!(adjacent_selection(&filtered, Some(5), 1), Some(9));
    assert_eq!(adjacent_selection(&filtered, Some(5), -1), Some(2));
    assert_eq!(adjacent_selection(&filtered, Some(9), 1), Some(9));
    assert_eq!(adjacent_selection(&[], None, 1), None);
}

#[test]
fn blank_query_matches_everything_and_is_trimmed() {
    let apps = catalogue(3);
    assert_eq!(matching_app_indices(&apps, "   "), vec![0, 1, 2]);
    assert_eq!(matching_app_indices(&apps, "  app1 "), vec![1]);
    assert!(app_matches_lowered("files", "org.files", "me", ""));
    assert!(!app_matches_lowered("files", "org.files", "me", "z"));
}

#[test]
fn selection_far_away_is_held_at_the_ends() {
    let filtered = vec![2, 5, 9];
    assert_eq!(adjacent_selection(&filtered, Some(9), isize::MIN), Some(2));
    assert_eq!(adjacent_selection(&filtered, Some(2), isize::MAX), Some(9));
    assert_eq!(adjacent_selection(&filtered, Some(4), 1), Some(2));
}

#[test]
fn opening_starts_a_session_with_nothing_selected() {
    let apps = catalogue(20);
    let mut library = AppLibrary::new();
    library.ensure_open_session(&apps);
    assert_eq!(library.selection(), None);
    assert_eq!(library.page_index(), 0);
    library.move_selection(&apps, 1);
    assert_eq!(library.selection(), Some(0));
    library.move_selection(&apps, 16);
    assert_eq!(library.selection(), Some(16));
    assert_eq!(library.page_index(), 1);
    library.ensure_open_session(&apps);
    assert_eq!(library.selection(), Some(16));
    library.close();
    library.ensure_open_session(&apps);
    assert_eq!(library.selection(), None);
}

#[test]
fn pages_are_held_at_the_last_and_select_their_first_app() {
    let apps = catalogue(20);
    let mut library = AppLibrary::new();
    library.select_page(&apps, 7);
    assert_eq!(library.page_index(), 1);
    assert_eq!(library.selection(), Some(15));
    assert_eq!(library.visible_indices(&apps), vec![15, 16, 17, 18, 19]);
    library.previous_page(&apps);
    assert_eq!(library.page_index(), 0);
    assert_eq!(library.visible_indices(&apps).len(), PAGE_SIZE);
    library.next_page(&apps);
    library.next_page(&apps);
    assert_eq!(library.page_index(), 1);
}

#[test]
fn typing_filters_and_return_opens_the_selection() {
    let apps = vec![
        app("Files", "org.mochios.files", "mochiOS"),
        app("Terminal", "org.mochios.terminal", "System Team"),
    ];
    let mut library = AppLibrary::new();
    assert_eq!(library.type_text(&apps, "term\u{7}"), None);
    assert_eq!(library.query_text(), "term");
    assert_eq!(library.selection(), Some(1));
    assert_eq!(library.type_text(&apps, "\n"), Some(1));
    library.backspace(&apps);
    assert_eq!(library.query_text(), "ter");
    assert_eq!(library.type_text(&apps, &"x".repeat(100)), None);
    assert_eq!(library.query_text().chars().count(), 64);
    assert_eq!(library.selection(), None);
}

#[test]
fn clicking_opens_the_app_released_over() {
    let apps = catalogue(3);
    let mut library = AppLibrary::new();
    library.press(Some(2));
    assert_eq!(library.selection(), Some(2));
    assert_eq!(library.release(&apps, Some(2)), Some(2));
    library.press(Some(1));
    assert_eq!(library.release(&apps, Some(2)), None);
    assert_eq!(library.release(&apps, None), None);
    library.open_menu(1);
    assert_eq!(library.menu_item(), Some(1));
    library.close_menu();
    assert_eq!(library.menu_item(), None);
    library.hover(Some(0));
    assert_eq!(library.hovered_item(), Some(0));
}
