use binder::catalog::{catalog_from_bundles, is_app_bundle_name, is_listed_bundle, sort_catalog, BundleSource};
use binder::launch_failure::LaunchFailureText;
use binder::mochios::{
    parse_session_id, session_action_for, session_reply_outcome, MochiOsPlatform, SessionAction,
};
use binder::platform::{AppInfo, PlatformError, ProcessId, SystemAction};
use binder::session::{current_user_label, user_label_from_arguments};
use binder::top_bar::active_application_name;

fn app(name: &str, bundle_id: &str) -> AppInfo {
    AppInfo {
        root: format!("/applications/{name}.app"),
        name: name.to_owned(),
        bundle_id: bundle_id.to_owned(),
        version: String::new(),
        developer: String::new(),
        entry: String::from("entry.elf"),
        description: String::new(),
        icon: None,
        resources: Vec::new(),
    }
}

#[test]
fn launch_failures_explain_the_reason() {
    let blocked = LaunchFailureText::new("Files", PlatformError::ProcessLaunchRejected { errno: 1 });
    assert_eq!(blocked.app_name, "Files");
    assert_eq!(blocked.message, "mochiOS blocked this app.");
    assert_eq!(blocked.detail, "Capability policy rejected the launch (error 1).");
    let denied = LaunchFailureText::new("Files", PlatformError::PermissionDenied);
    assert_eq!(denied.guidance, "Its requested capabilities are not permitted by system policy.");
    let missing = LaunchFailureText::new("Files", PlatformError::ProcessLaunchRejected { errno: 2 });
    assert_eq!(missing.message, "mochiOS could not find a required file.");
    let other = LaunchFailureText::new("Files", PlatformError::ProcessLaunchRejected { errno: 1234 });
    assert_eq!(other.detail, "Capability policy rejected the launch (error 1234).");
    assert_eq!(other.guidance, "Check the app's capabilities or ask an administrator.");
    let failed = LaunchFailureText::new("Files", PlatformError::TransportFailure);
    assert_eq!(failed.message, "The app could not be started.");
    assert_eq!(failed.detail, "Application launch failed.");
    let default = LaunchFailureText::default();
    assert_eq!(default.app_name, "Application");
    assert_eq!(default.detail, "Application launch failed.");
}

#[test]
fn the_session_user_comes_from_the_command_line() {
    let arguments = vec![
        String::from("binder"),
        String::from("--session-user="),
        String::from("--session-user=alice"),
        String::from("--session-user=bob"),
    ];
    assert_eq!(user_label_from_arguments(&arguments), Some(String::from("alice")));
    assert_eq!(current_user_label(&arguments, String::from("Unknown User")), "alice");
    assert_eq!(current_user_label(&arguments[..2], String::from("Unknown User")), "Unknown User");
}

#[test]
fn only_app_directories_are_bundles() {
    assert!(is_app_bundle_name("Files.app"));
    assert!(is_app_bundle_name("a.b.app"));
    assert!(!is_app_bundle_name(".app"));
    assert!(!is_app_bundle_name("Files.apps"));
    assert!(!is_app_bundle_name("Files"));
    assert!(is_listed_bundle("Files.app", &app("Files", "org.mochios.files")));
    assert!(!is_listed_bundle("Binder.app", &app("Files", "org.mochios.files")));
    assert!(!is_listed_bundle("Other.app", &app("Binder", "org.mochios.binder")));
}

#[test]
fn catalogue_is_ordered_by_name_then_bundle() {
    let sorted = sort_catalog(vec![
        app("Zeta", "org.test.zeta"),
        app("Alpha", "org.test.b"),
        app("Alpha", "org.test.a"),
        app("Ärger", "org.test.umlaut"),
        app("Beta", "org.test.beta"),
    ]);
    let names: Vec<(&str, &str)> = sorted.iter().map(|app| (app.name.as_str(), app.bundle_id.as_str())).collect();
    assert_eq!(
        names,
        vec![
            ("Alpha", "org.test.a"),
            ("Alpha", "org.test.b"),
            ("Beta", "org.test.beta"),
            ("Zeta", "org.test.zeta"),
            ("Ärger", "org.test.umlaut"),
        ]
    );
}

#[test]
fn session_actions_and_replies() {
    assert_eq!(session_action_for(SystemAction::LockScreen), Ok(SessionAction::Lock));
    assert_eq!(session_action_for(SystemAction::LogOut), Ok(SessionAction::LogOut));
    assert_eq!(session_action_for(SystemAction::Sleep), Err(PlatformError::UnsupportedOperation));
    assert_eq!(parse_session_id("42"), Ok(42));
    assert_eq!(parse_session_id("+7"), Ok(7));
    assert_eq!(parse_session_id("0"), Err(PlatformError::InvalidResponse));
    assert_eq!(parse_session_id(""), Err(PlatformError::InvalidResponse));
    assert_eq!(parse_session_id("4x"), Err(PlatformError::InvalidResponse));
    assert_eq!(parse_session_id("18446744073709551615"), Ok(u64::MAX));
    assert_eq!(parse_session_id("18446744073709551616"), Err(PlatformError::InvalidResponse));
    let asked = (SessionAction::Lock, 9);
    assert_eq!(session_reply_outcome(16, 16, asked, Some((SessionAction::Lock, 9, 0))), Ok(()));
    assert_eq!(
        session_reply_outcome(16, 16, asked, Some((SessionAction::Lock, 9, 1))),
        Err(PlatformError::PermissionDenied)
    );
    assert_eq!(
        session_reply_outcome(16, 16, asked, Some((SessionAction::LogOut, 9, 0))),
        Err(PlatformError::InvalidResponse)
    );
    assert_eq!(session_reply_outcome(15, 16, asked, None), Err(PlatformError::InvalidResponse));
}

#[test]
fn applications_are_read_again_at_most_once_a_second() {
    let mut platform = MochiOsPlatform::new(Vec::new());
    assert!(platform.app_scan_due(5_000));
    assert!(!platform.app_scan_due(5_999));
    assert!(platform.app_scan_due(6_000));
}

#[test]
fn the_system_bar_names_the_application_in_front() {
    let apps = vec![app("Files", "org.test.files"), app("Notes", "org.test.notes"), app("Notes 2", "org.test.notes2")];
    let processes = vec![Some(ProcessId(3)), Some(ProcessId(7)), Some(ProcessId(7))];
    assert_eq!(active_application_name(&apps, &processes, Some(ProcessId(7))), "Notes");
    assert_eq!(active_application_name(&apps, &processes, Some(ProcessId(3))), "Files");
    assert_eq!(active_application_name(&apps, &processes, Some(ProcessId(9))), "Binder");
    assert_eq!(active_application_name(&apps, &processes, None), "Binder");
}

fn bundle(directory: &str, manifest: Option<&str>) -> BundleSource {
    BundleSource {
        directory: directory.to_owned(),
        root: format!("/applications/{directory}"),
        manifest: manifest.map(str::to_owned),
    }
}

#[test]
fn installed_bundles_make_the_catalogue_in_stable_order() {
    let sources = vec![
        bundle("Zeta.app", Some("name = \"Zeta\"\nbundle_id = \"org.test.zeta\"\nentry = \"internal:test\"\n")),
        bundle("Broken.app", Some("name = \"Broken\"\nbundle_id = \"org.test.broken\"\n")),
        bundle(
            "Alpha.app",
            Some("name = \"Alpha\"\nbundle_id = \"org.test.alpha\"\nentry = \"entry.elf\"\nicon = \"icon.png\"\n"),
        ),
        bundle("Binder.app", Some("name = \"Binder\"\nbundle_id = \"org.test.other\"\nentry = \"entry.elf\"\n")),
        bundle("Self.app", Some("name = \"Self\"\nbundle_id = \"org.mochios.binder\"\nentry = \"entry.elf\"\n")),
        bundle("Unreadable.app", None),
        bundle("notes.txt", Some("name = \"Notes\"\nbundle_id = \"org.test.notes\"\nentry = \"entry.elf\"\n")),
    ];
    let apps = catalog_from_bundles(&sources, true);
    assert_eq!(apps.len(), 2);
    assert_eq!(apps[0].name, "Alpha");
    assert_eq!(apps[0].icon, Some(String::from("/applications/Alpha.app/icon.png")));
    assert_eq!(apps[1].name, "Zeta");
    assert_eq!(apps[1].entry, "internal:test");
    assert!(catalog_from_bundles(&[], true).is_empty());
    let linux = catalog_from_bundles(&sources, false);
    let names: Vec<&str> = linux.iter().map(|app| app.name.as_str()).collect();
    assert_eq!(names, vec!["Alpha", "Binder", "Self", "Zeta"]);
}
