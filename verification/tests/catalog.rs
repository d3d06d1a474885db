use pathlinks::catalog::{build_pattern, get_prefixes};

#[test]
fn catalog_without_entries() {
    let prefixes = get_prefixes(&[]);
    assert_eq!(
        prefixes,
        vec![
            "/bin",
            "/boot",
            "/dev",
            "/etc",
            "/home",
            "/lib",
            "/lib64",
            "/lost\\+found",
            "/mnt",
            "/opt",
            "/proc",
            "/root",
            "/run",
            "/sbin",
            "/srv",
            "/sys",
            "/tmp",
            "/usr",
            "/var",
            "\\~",
        ]
    );
}

#[test]
fn catalog_holds_the_entries_before_the_home_marker() {
    let entries = vec!["src".to_string(), "a.b".to_string(), "c++ (old)".to_string()];
    let prefixes = get_prefixes(&entries);
    assert_eq!(prefixes.len(), 23);
    assert_eq!(prefixes[18], "/var");
    assert_eq!(prefixes[19], "src");
    assert_eq!(prefixes[20], "a\\.b");
    assert_eq!(prefixes[21], "c\\+\\+ \\(old\\)");
    assert_eq!(prefixes[22], "\\~");
}

#[test]
fn every_meta_character_is_escaped() {
    let entries = vec!["\\.+*?()|[]{}^$#&-~".to_string(), "plain_name/%!\"'é".to_string()];
    let prefixes = get_prefixes(&entries);
    assert_eq!(
        prefixes[19],
        "\\\\\\.\\+\\*\\?\\(\\)\\|\\[\\]\\{\\}\\^\\$\\#\\&\\-\\~"
    );
    assert_eq!(prefixes[20], "plain_name/%!\"'é");
}

#[test]
fn pattern_of_prefixes() {
    let prefixes = vec!["/tmp".to_string(), "src".to_string(), "\\~".to_string()];
    assert_eq!(
        build_pattern(&prefixes),
        "(?:/tmp|src|\\~)(?:/[^$\\s;~:\"\\x1b]+)?"
    );
}

#[test]
fn pattern_of_one_prefix_and_of_none() {
    assert_eq!(
        build_pattern(&["a".to_string()]),
        "(?:a)(?:/[^$\\s;~:\"\\x1b]+)?"
    );
    assert_eq!(build_pattern(&[]), "(?:)(?:/[^$\\s;~:\"\\x1b]+)?");
}
