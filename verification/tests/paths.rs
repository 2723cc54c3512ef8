use std::path::{Component, Path, PathBuf};

use herdr_spreader::path::{
    holds_path, is_absolute, is_same_path, join_path, normalize_path, parent,
};

const PATHS: [&str; 40] = [
    "", "/", "//", ".", "..", "./", "../", "a", "a/", "a//", "/a", "/a/", "//a", "a/b", "a//b",
    "a/./b", "a/../b", "./a", "../a", "/./a", "/../a", "a/.", "a/..", "a/./", "/.", "/..", "./.",
    "././a", "a/./.", "a/b/c", "/a/b/", "/a//b/./c/", ".a", "a.", ".../a", "a/.b", "a/b.", "a/..b",
    "é/ü", "/tmp/x y/z",
];

fn normalized_by_components(path: &Path) -> PathBuf {
    let mut result = PathBuf::new();
    for component in path.components() {
        if component != Component::CurDir {
            result.push(component.as_os_str());
        }
    }
    result
}

#[test]
fn absolute_paths_are_told_apart_as_the_standard_library_does() {
    for path in PATHS {
        assert_eq!(is_absolute(path), Path::new(path).is_absolute(), "{path:?}");
    }
}

#[test]
fn paths_join_as_in_the_standard_library() {
    for base in PATHS {
        for path in PATHS {
            let expected = Path::new(base).join(path);
            assert_eq!(
                join_path(base, path),
                expected.to_str().unwrap(),
                "{base:?} {path:?}"
            );
        }
    }
}

#[test]
fn paths_normalize_as_their_components_do() {
    for path in PATHS {
        let expected = normalized_by_components(Path::new(path));
        assert_eq!(normalize_path(path), expected.to_str().unwrap(), "{path:?}");
    }
}

#[test]
fn normalizing_twice_changes_nothing() {
    for path in PATHS {
        let once = normalize_path(path);
        assert_eq!(normalize_path(&once), once, "{path:?}");
    }
}

#[test]
fn parents_are_those_of_the_standard_library() {
    for path in PATHS {
        let expected = Path::new(path).parent().map(|p| p.to_str().unwrap());
        assert_eq!(parent(path).as_deref(), expected, "{path:?}");
    }
}

#[test]
fn parents_of_absolute_paths_are_absolute() {
    for path in PATHS {
        if is_absolute(path) {
            if let Some(dir) = parent(path) {
                assert!(is_absolute(&dir), "{path:?}");
            }
        }
    }
}

#[test]
fn paths_are_equal_where_the_standard_library_says_so() {
    for a in PATHS {
        for b in PATHS {
            let expected = Path::new(a) == Path::new(b);
            assert_eq!(is_same_path(a, b), expected, "{a:?} {b:?}");
            let paths = vec!["/elsewhere".to_string(), a.to_string()];
            assert_eq!(holds_path(&paths, b), expected, "{a:?} {b:?}");
        }
    }
    assert!(is_same_path("/d//a.yaml", "/d/./a.yaml/"));
    assert!(!is_same_path("./a", "a"));
    assert!(!holds_path(&vec![], ""));
}

#[test]
fn parents_of_long_paths_are_found() {
    let name = "n".repeat(30_000);
    assert_eq!(parent(&format!("/dir/{name}")).as_deref(), Some("/dir"));
    assert_eq!(parent(&name).as_deref(), Some(""));
    let dots = "/.".repeat(15_000);
    assert_eq!(parent(&format!("/dir/a{dots}")).as_deref(), Some("/dir"));
}
