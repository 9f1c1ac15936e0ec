use zr_proxy::apps::{applications_in, name_before, sorted_unique_applications};
use zr_proxy::config::{duplicate_apps, App, Config};

fn app(name: &str, path: &str) -> App {
    App { name: name.to_string(), path: path.to_string() }
}

#[test]
fn only_app_bundles_are_found() {
    let entries = vec![
        "/Applications/Safari.app".to_string(),
        "/Applications/.DS_Store".to_string(),
        "/Applications/Utilities".to_string(),
        "/Applications/Zoom.app".to_string(),
    ];
    assert_eq!(
        applications_in(&entries),
        vec![app("Safari", "/Applications/Safari.app"), app("Zoom", "/Applications/Zoom.app")]
    );
}

#[test]
fn names_order_by_code_point() {
    assert!(name_before("Alpha", "Beta"));
    assert!(name_before("Zed", "apple"));
    assert!(name_before("Ab", "Abc"));
    assert!(!name_before("Abc", "Ab"));
    assert!(!name_before("x", "x"));
}

#[test]
fn found_apps_are_sorted_and_repeats_dropped() {
    let found = vec![
        app("Zoom", "/Users/me/Applications/Zoom.app"),
        app("Notes", "/Applications/Notes.app"),
        app("Arc", "/Applications/Arc.app"),
        app("Notes", "/Applications/Notes.app/"),
        app("Notes", "/Users/me/Applications/Notes.app"),
    ];
    assert_eq!(
        sorted_unique_applications(found),
        vec![
            app("Arc", "/Applications/Arc.app"),
            app("Notes", "/Applications/Notes.app"),
            app("Notes", "/Users/me/Applications/Notes.app"),
            app("Zoom", "/Users/me/Applications/Zoom.app"),
        ]
    );
}

#[test]
fn equal_names_keep_their_order() {
    let found = vec![app("B", "/2"), app("A", "/1"), app("B", "/3"), app("B", "/2")];
    assert_eq!(
        sorted_unique_applications(found),
        vec![app("A", "/1"), app("B", "/2"), app("B", "/3"), app("B", "/2")]
    );
}

#[test]
fn default_configuration() {
    let c = Config::default();
    assert_eq!(c.proxy_url, "http://127.0.0.1:7890");
    assert_eq!(
        c.env_commands,
        vec![
            "HTTP_PROXY=http://127.0.0.1:7890".to_string(),
            "HTTPS_PROXY=http://127.0.0.1:7890".to_string(),
            "ALL_PROXY=http://127.0.0.1:7890".to_string(),
        ]
    );
    assert!(c.global_commands.is_empty());
    assert!(c.apps.is_empty());
}

#[test]
fn duplicates_are_equal_copies() {
    let v = vec![app("A", "/a"), app("B", "/b")];
    assert_eq!(duplicate_apps(&v), v);
    assert_eq!(v[0].duplicate(), v[0]);
}

#[test]
fn the_same_folder_scanned_twice_lists_each_path_once() {
    let first = vec![
        "/Applications/Zed.app".to_string(),
        "/Applications/Arc.app".to_string(),
        "/Applications/Notes.app".to_string(),
    ];
    let second = vec![
        "/Applications/Notes.app".to_string(),
        "/Applications/Zed.app".to_string(),
        "/Applications/Arc.app".to_string(),
    ];
    let mut found = applications_in(&first);
    found.extend(applications_in(&second));
    assert_eq!(
        sorted_unique_applications(found),
        vec![
            app("Arc", "/Applications/Arc.app"),
            app("Notes", "/Applications/Notes.app"),
            app("Zed", "/Applications/Zed.app"),
        ]
    );
}
