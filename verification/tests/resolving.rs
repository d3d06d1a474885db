use pathlinks::resolve::{
    absolutize, expand_home, home_or_empty, host_or_localhost, is_absolute, link_for,
    make_file_url, starts_with_home,
};

#[test]
fn home_marker_is_a_tilde_and_a_slash() {
    assert!(starts_with_home("~/"));
    assert!(starts_with_home("~/x"));
    assert!(!starts_with_home("~"));
    assert!(!starts_with_home("~x/"));
    assert!(!starts_with_home("/~/"));
    assert!(!starts_with_home(""));
}

#[test]
fn home_is_put_in_place_of_the_tilde() {
    assert_eq!(expand_home("~/documents/file.txt", "/home/user"), "/home/user/documents/file.txt");
    assert_eq!(expand_home("~/", "/home/user"), "/home/user/");
    assert_eq!(expand_home("~/é", ""), "/é");
    assert_eq!(expand_home("~", "/home/user"), "~");
    assert_eq!(expand_home("~user/x", "/home/user"), "~user/x");
    assert_eq!(expand_home("src/~/x", "/home/user"), "src/~/x");
}

#[test]
fn absolute_means_rooted() {
    assert!(is_absolute("/"));
    assert!(is_absolute("/tmp/test.txt"));
    assert!(!is_absolute(""));
    assert!(!is_absolute("src/main.rs"));
    assert!(!is_absolute("~/x"));
}

#[test]
fn absolute_path_is_kept() {
    assert_eq!(absolutize("/tmp/test.txt", "/work"), "/tmp/test.txt");
    assert_eq!(absolutize("/", ""), "/");
}

#[test]
fn relative_path_is_joined_to_the_working_directory() {
    assert_eq!(absolutize("src/main.rs", "/work"), "/work/src/main.rs");
    assert_eq!(absolutize("src/main.rs", "/work/"), "/work/src/main.rs");
    assert_eq!(absolutize("src/main.rs", "/"), "/src/main.rs");
    assert_eq!(absolutize("src/main.rs", ""), "src/main.rs");
    assert_eq!(absolutize("", "/work"), "/work/");
    assert_eq!(absolutize("../x/./y", "/work"), "/work/../x/./y");
    assert_eq!(absolutize("é", "/wörk"), "/wörk/é");
}

#[test]
fn url_is_scheme_host_and_path() {
    assert_eq!(make_file_url("host", "/tmp/test.txt"), "file://host/tmp/test.txt");
    assert_eq!(make_file_url("", "/a b"), "file:///a b");
}

#[test]
fn link_shows_the_match_and_points_to_the_resolved_path() {
    assert_eq!(
        link_for("/tmp/test.txt", "host", "/home/user", "/work"),
        "\x1b]8;;file://host/tmp/test.txt\x07/tmp/test.txt\x1b]8;;\x07"
    );
    assert_eq!(
        link_for("src/main.rs", "host", "/home/user", "/work"),
        "\x1b]8;;file://host/work/src/main.rs\x07src/main.rs\x1b]8;;\x07"
    );
    assert_eq!(
        link_for("~/documents/file.txt", "host", "/home/user", "/work"),
        "\x1b]8;;file://host/home/user/documents/file.txt\x07~/documents/file.txt\x1b]8;;\x07"
    );
    assert_eq!(
        link_for("~/x", "host", "", "/work"),
        "\x1b]8;;file://host/x\x07~/x\x1b]8;;\x07"
    );
    assert_eq!(
        link_for("~/x", "host", "rel", "/work"),
        "\x1b]8;;file://host/work/rel/x\x07~/x\x1b]8;;\x07"
    );
}

#[test]
fn host_falls_back_to_localhost() {
    assert_eq!(host_or_localhost(Some("box".to_string())), "box");
    assert_eq!(host_or_localhost(Some(String::new())), "");
    assert_eq!(host_or_localhost(None), "localhost");
}

#[test]
fn home_falls_back_to_the_empty_string() {
    assert_eq!(home_or_empty(Some("/home/user".to_string())), "/home/user");
    assert_eq!(home_or_empty(None), "");
}
