use eso_addon_path::{path_join, path_parent, same_path_exec, PathStyle};
use std::path::Path;

/// The path syntax of the machine the tests run on.
fn host() -> PathStyle {
    if std::path::MAIN_SEPARATOR == '\\' {
        PathStyle::Windows
    } else {
        PathStyle::Unix
    }
}

const SAMPLES: [&str; 30] = [
    "", "/", "//", "a", "a/", "/a", "/a/", "a/b", "a//b", "a/./b", "a/../b", "./a", ".", "./",
    "..", "../a", "/a/b/", "//a//b//", "a/.", "a/..", "C:", "C:\\a", "C:/a/b", "c:\\a\\", "C:.",
    "\\\\server\\share\\x", "\\\\?\\C:\\a\\.", "a\\b", "/a\\b/c", "\\a",
];

#[test]
fn join_agrees_with_std() {
    for base in SAMPLES {
        for rel in SAMPLES {
            let expected = Path::new(base).join(rel);
            assert_eq!(
                path_join(host(), base, rel),
                expected.to_str().unwrap(),
                "joining {:?} onto {:?}",
                rel,
                base
            );
        }
    }
}

#[test]
fn parent_agrees_with_std() {
    for p in SAMPLES {
        let expected = Path::new(p).parent().map(|q| q.to_str().unwrap().to_string());
        assert_eq!(path_parent(host(), p), expected, "parent of {:?}", p);
    }
}

#[test]
fn same_path_agrees_with_std() {
    for a in SAMPLES {
        for b in SAMPLES {
            assert_eq!(
                same_path_exec(host(), a, b),
                Path::new(a) == Path::new(b),
                "comparing {:?} and {:?}",
                a,
                b
            );
        }
    }
}
