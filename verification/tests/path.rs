use std::path::Path;

use screenshotter::path::{components, file_name, is_rooted, join, same_path, starts_with};

const PATHS: [&str; 14] = [
    "", "/", ".", "./a", "a", "a/", "a//b", "/a/b", "/a/./b", "/a/../b", "..", "a/.", "/a/b/c",
    "//a",
];

#[test]
fn paths_are_joined() {
    for a in PATHS {
        for b in PATHS {
            let expected = Path::new(a).join(b);
            assert_eq!(join(a, b), expected.to_str().unwrap(), "{a:?} {b:?}");
        }
    }
}

#[test]
fn paths_are_compared_by_component() {
    for a in PATHS {
        for b in PATHS {
            assert_eq!(same_path(a, b), Path::new(a) == Path::new(b), "{a:?} {b:?}");
            assert_eq!(
                starts_with(a, b),
                Path::new(a).starts_with(b),
                "{a:?} {b:?}"
            );
        }
    }
}

#[test]
fn file_names() {
    for p in PATHS {
        let expected = Path::new(p).file_name().map(|n| n.to_str().unwrap().to_string());
        assert_eq!(file_name(p), expected, "{p:?}");
    }
    assert_eq!(file_name("/usr/bin/vim"), Some("vim".to_string()));
}

#[test]
fn rooted_paths() {
    assert!(is_rooted("/a"));
    assert!(!is_rooted("a"));
    assert!(!is_rooted(""));
    assert_eq!(components("/a//b/./c"), vec!["a", "b", "c"]);
}
