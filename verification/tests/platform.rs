use binder::manifest::{parse_string_array_field, parse_string_field, parse_string_literals};
use binder::platform::{read_app_about, read_app_manifest, resolve_app_path, AppInfo};

#[test]
fn literals_are_read_with_escapes() {
    assert_eq!(
        parse_string_literals(r#"["a\"b", "c\\d", "e\n"]"#),
        vec![String::from("a\"b"), String::from("c\\d"), String::from("e\n")]
    );
    assert!(parse_string_literals("no strings").is_empty());
}

#[test]
fn fields_are_found_by_key() {
    let content = "name = \"Files\"\nbundle_id=\"org.mochios.files\"\nresources = [\n  \"a.png\",\n  \"b.png\"\n]\n";
    assert_eq!(parse_string_field(content, "name"), Some(String::from("Files")));
    assert_eq!(parse_string_field(content, "bundle_id"), Some(String::from("org.mochios.files")));
    assert_eq!(parse_string_field(content, "missing"), None);
    assert_eq!(
        parse_string_array_field(content, "resources"),
        vec![String::from("a.png"), String::from("b.png")]
    );
}

#[test]
fn paths_are_resolved_against_the_bundle() {
    assert_eq!(resolve_app_path("/applications/Files.app", "icon.png"), "/applications/Files.app/icon.png");
    assert_eq!(resolve_app_path("/applications/Files.app/", "icon.png"), "/applications/Files.app/icon.png");
    assert_eq!(resolve_app_path("/applications/Files.app", "/shared/icon.png"), "/shared/icon.png");
}

#[test]
fn manifests_describe_applications() {
    let content = "name = \"Alpha\"\nbundle-id = \"org.test.alpha\"\nentry = \"entry.elf\"\nicon = \"icon.png\"\n";
    let about = read_app_about("/applications/Alpha.app", content);
    let about: AppInfo = match about {
        Some(app) => app,
        None => panic!("described"),
    };
    assert_eq!(about.bundle_id, "org.test.alpha");
    assert_eq!(about.icon, Some(String::from("/applications/Alpha.app/icon.png")));
    assert_eq!(about.entry_path(), "/applications/Alpha.app/entry.elf");
    assert!(read_app_manifest("/applications/Alpha.app", content).is_none());
    assert!(read_app_about("/x", "name = \"Broken\"\nbundle_id = \"org.test.broken\"\n").is_none());
}
