use concord::kernel::{validate_text, KernelError};
use concord::text::{measure_text, trim_text, validate_logical_path};

#[test]
fn portable_names_reject_traversal_and_absolute_paths() {
    for path in [
        "",
        "/etc/passwd",
        "../data",
        "a/../b",
        "a\\b",
        "C:/data",
        "a//b",
        "a\n.csv",
    ] {
        assert!(validate_logical_path(path).is_err(), "{path:?}");
    }
    assert!(validate_logical_path("experiment 1/α.csv").is_ok());
}

#[test]
fn portable_names_reject_dot_segments_and_trailing_separators() {
    for path in [".", "..", "a/.", "a/./b", "data/", "./data", "a/..", "tab\there"] {
        assert!(validate_logical_path(path).is_err(), "{path:?}");
    }
    for path in ["a", ".hidden", "a/..b", "...", "dir/file.tar.gz", "a.b/c"] {
        assert!(validate_logical_path(path).is_ok(), "{path:?}");
    }
}

#[test]
fn trimming_drops_only_surrounding_whitespace() {
    assert_eq!(trim_text("  inner text \n"), "inner text");
    assert_eq!(trim_text("\t\n "), "");
    assert_eq!(trim_text("α β"), "α β");
}

#[test]
fn measuring_counts_characters_and_blankness() {
    assert_eq!(measure_text("αβγ"), (3, false));
    assert_eq!(measure_text(" \t"), (2, true));
    assert_eq!(measure_text(""), (0, true));
}

#[test]
fn validated_text_is_bounded_and_not_blank() {
    assert!(validate_text("name", "ok", 2).is_ok());
    assert!(matches!(
        validate_text("name", "too long", 3),
        Err(KernelError::Contract(_))
    ));
    assert!(matches!(
        validate_text("name", "   ", 10),
        Err(KernelError::Contract(_))
    ));
}
