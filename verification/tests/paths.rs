//! Paths agree with `std::path` on every short spelling.
use cache_manager::path::{Comparison, PosixPath};
use std::cmp::Ordering;
use std::path::Path;

fn path(text: &str) -> PosixPath {
    PosixPath::from_text(text)
}

fn text(path: &PosixPath) -> String {
    String::from_utf8(path.as_bytes().to_vec()).expect("utf-8 path")
}

/// Every string of at most `len` letters of a small alphabet.
fn spellings(len: usize) -> Vec<String> {
    let mut all = vec![String::new()];
    let mut last = vec![String::new()];
    for _ in 0..len {
        let mut next = Vec::new();
        for prefix in &last {
            for letter in ["a", "b", ".", "/"] {
                next.push(format!("{prefix}{letter}"));
            }
        }
        all.extend(next.iter().cloned());
        last = next;
    }
    all
}

#[test]
fn absolute_paths_agree_with_std() {
    for s in spellings(6) {
        assert_eq!(path(&s).is_absolute(), Path::new(&s).is_absolute(), "{s:?}");
    }
}

#[test]
fn parents_agree_with_std() {
    for s in spellings(7) {
        let expected = Path::new(&s).parent().map(|p| p.to_str().expect("utf-8").to_string());
        assert_eq!(path(&s).parent().map(|p| text(&p)), expected, "{s:?}");
    }
}

#[test]
fn joins_agree_with_std() {
    let all = spellings(4);
    for a in &all {
        for b in &all {
            let expected = Path::new(a).join(b);
            assert_eq!(
                text(&path(a).join(&path(b))),
                expected.to_str().expect("utf-8"),
                "{a:?} {b:?}"
            );
        }
    }
}

#[test]
fn comparisons_agree_with_std() {
    let all = spellings(4);
    for a in &all {
        for b in &all {
            let expected = match Path::new(a).cmp(Path::new(b)) {
                Ordering::Less => Comparison::Before,
                Ordering::Equal => Comparison::Same,
                Ordering::Greater => Comparison::After,
            };
            assert_eq!(path(a).compare(&path(b)), expected, "{a:?} {b:?}");
            assert_eq!(path(a) == path(b), Path::new(a) == Path::new(b), "{a:?} {b:?}");
        }
    }
}

#[test]
fn comparison_is_by_component_not_by_byte() {
    assert_eq!(path("a/b").compare(&path("a.txt")), Comparison::Before);
    assert_eq!(path("a/b").compare(&path("a-b")), Comparison::Before);
    assert_eq!(path("a//b/").compare(&path("a/./b")), Comparison::Same);
    assert_eq!(path("../a").compare(&path("a")), Comparison::Before);
    assert_eq!(path("./a").compare(&path("../a")), Comparison::Before);
    assert_eq!(path("/a").compare(&path("./a")), Comparison::Before);
}

#[test]
fn bytes_that_are_no_text_are_kept() {
    let odd = PosixPath::from_bytes(vec![0xff, 0xfe]);
    assert_eq!(path("/cache").join(&odd).as_bytes(), b"/cache/\xff\xfe");
    assert_eq!(odd.compare(&path("z")), Comparison::After);
}

#[test]
fn joining_is_associative_on_concrete_paths() {
    for (a, b, c) in [("/r", "x", "y"), ("", "x/", "y"), ("/r/", "", "y"), ("/r", "x", "/y")] {
        let left = path(a).join(&path(b)).join(&path(c));
        let right = path(a).join(&path(b).join(&path(c)));
        assert_eq!(left.as_bytes(), right.as_bytes());
    }
    assert_eq!(text(&path("/r").join(&path("x")).join(&path("y"))), "/r/x/y");
}

#[test]
fn parent_drops_one_component() {
    assert_eq!(text(&path("/a//b/./").parent().expect("parent")), "/a");
    assert_eq!(text(&path("a").parent().expect("parent")), "");
    assert_eq!(text(&path(".").parent().expect("parent")), "");
    assert!(path("/").parent().is_none());
    assert!(path("").parent().is_none());
}

#[test]
fn clones_are_equal() {
    let p = path("/a/b");
    assert_eq!(p.clone().as_bytes(), p.as_bytes());
}
