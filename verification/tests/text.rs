//! Texts and paths.
use devc::cli::{asks_for_help, process_code, usage};
use devc::paths::{basename, parent, path_below, resolve_relative};
use devc::text::{decimal_text, join, split, split_once, trim, whitespace, CharClass};

fn list(items: &[&str]) -> Vec<String> {
    items.iter().map(|s| s.to_string()).collect()
}

#[test]
fn white_space_is_that_of_the_standard_library() {
    for n in 0..=0x10ffffu32 {
        if let Some(c) = char::from_u32(n) {
            assert_eq!(whitespace(c), c.is_whitespace(), "{n:x}");
        }
    }
}

#[test]
fn texts_are_taken_apart_as_by_the_standard_library() {
    for s in ["", "a", ",", "a,b", ",a,,b,", "é,😀"] {
        let expected: Vec<String> = s.split(',').map(|p| p.to_string()).collect();
        assert_eq!(split(s, ','), expected);
        assert_eq!(join(&expected, ","), s);
        let once = s.split_once(',').map(|(a, b)| (a.to_string(), b.to_string()));
        assert_eq!(split_once(s, ','), once);
    }
    for s in ["", " ", " a b\n", "\u{3000}x\t", "é"] {
        assert_eq!(trim(s, CharClass::Whitespace), s.trim());
    }
    for n in [0, 7, 10, 8080, u64::MAX] {
        assert_eq!(decimal_text(n), n.to_string());
    }
}

#[test]
fn base_names_are_those_of_paths() {
    for s in [
        "/", "/a", "/a/b", "/a/b/", "a", "", ".", "..", "/a/..", "/a/.", "/a/./", "a//b//", "./", "/.", "a.",
        "/a/b/.//.", "/a/.b", "..a", "/...", "/é/😀",
    ] {
        let path = std::path::Path::new(s);
        let expected = path.file_name().map_or(s, |n| n.to_str().unwrap());
        assert_eq!(basename(s), expected, "{s:?}");
    }
}

#[test]
fn relative_paths_are_resolved_as_by_paths() {
    for base in ["/", "/a", "/a/", "a", ""] {
        for rel in ["b", "/b", ".", "..", "", "b/c"] {
            let expected = std::path::Path::new(base).join(rel);
            assert_eq!(resolve_relative(base, rel), expected.to_str().unwrap());
        }
    }
}

#[test]
fn parents_of_normal_paths() {
    for s in ["/", "/a", "/a/b", "/a/b/c.d"] {
        let expected = std::path::Path::new(s).parent().map(|p| p.to_str().unwrap().to_string());
        assert_eq!(parent(s), expected);
    }
}

#[test]
fn the_way_down() {
    assert_eq!(path_below("/a", "/a"), "");
    assert_eq!(path_below("/a", "/a/b/c"), "b/c");
    assert_eq!(path_below("/", "/a/b"), "a/b");
    assert_eq!(resolve_relative("/a", &path_below("/a", "/a/b/c")), "/a/b/c");
}

#[test]
fn help_is_asked_for_alone() {
    assert!(asks_for_help(&list(&["-h"])));
    assert!(asks_for_help(&list(&["--help"])));
    assert!(!asks_for_help(&list(&[])));
    assert!(!asks_for_help(&list(&["./gradlew", "--help"])));
    assert!(!asks_for_help(&list(&["--help", "x"])));
    assert!(!asks_for_help(&list(&["help"])));
    assert!(usage().contains("Usage:"));
    assert!(usage().starts_with("devc — bring up"));
}

#[test]
fn exit_codes_are_clamped() {
    assert_eq!(process_code(-1), 0);
    assert_eq!(process_code(0), 0);
    assert_eq!(process_code(7), 7);
    assert_eq!(process_code(255), 255);
    assert_eq!(process_code(256), 255);
}
