use zr_proxy::path::{app_bundle_name, file_name, paths_equal};

#[test]
fn file_name_is_the_last_named_component() {
    assert_eq!(file_name("/Applications/Safari.app"), Some("Safari.app".to_string()));
    assert_eq!(file_name("/Applications/Safari.app/"), Some("Safari.app".to_string()));
    assert_eq!(file_name("foo.txt/."), Some("foo.txt".to_string()));
    assert_eq!(file_name("foo.txt/.//"), Some("foo.txt".to_string()));
    assert_eq!(file_name("foo"), Some("foo".to_string()));
}

#[test]
fn file_name_is_absent_for_root_dots_and_parents() {
    assert_eq!(file_name("/"), None);
    assert_eq!(file_name(""), None);
    assert_eq!(file_name("."), None);
    assert_eq!(file_name("./"), None);
    assert_eq!(file_name("foo/.."), None);
    assert_eq!(file_name(".."), None);
}

#[test]
fn paths_compare_by_components() {
    assert!(paths_equal("/a/b", "/a/b/"));
    assert!(paths_equal("/a//b", "/a/./b"));
    assert!(paths_equal("a/b/.", "a/b"));
    assert!(!paths_equal("/a/b", "a/b"));
    assert!(!paths_equal("./a", "a"));
    assert!(!paths_equal("/a/b", "/a/c"));
    assert!(!paths_equal("/a/..", "/a"));
    assert!(paths_equal(".", "./"));
}

#[test]
fn bundle_names_drop_the_extension() {
    assert_eq!(app_bundle_name("/Applications/Slack.app"), Some("Slack".to_string()));
    assert_eq!(app_bundle_name("/Applications/a.b.app"), Some("a.b".to_string()));
    assert_eq!(app_bundle_name("/Applications/.app"), None);
    assert_eq!(app_bundle_name("/Applications/Slack.apps"), None);
    assert_eq!(app_bundle_name("/Applications/readme.txt"), None);
    assert_eq!(app_bundle_name("/Applications/app"), None);
    assert_eq!(app_bundle_name("/Applications/X.app/"), Some("X".to_string()));
}
