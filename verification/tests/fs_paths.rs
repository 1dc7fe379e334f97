//! Paths as bytes, held against the paths of std.

use std::path::{Path, PathBuf};

use gongd::fs_path::FsPath;

const SAMPLES: [&str; 22] = [
    "", "/", ".", "./", "..", "a", "a/", "a/b", "a//b", "a/./b", "./a", "./a/b", "/a", "/a/",
    "/a/b", "/a/b/", "//a", "/./a", "/a/../b", "a.b", ".git", "/a/.git/HEAD",
];

fn path(text: &str) -> FsPath {
    FsPath::from_text(text)
}

fn text(path: &FsPath) -> String {
    path.text().unwrap()
}

#[test]
fn equality_and_prefixes_follow_std() {
    for a in SAMPLES {
        for b in SAMPLES {
            assert_eq!(path(a) == path(b), Path::new(a) == Path::new(b), "{a:?} == {b:?}");
            assert_eq!(
                path(a).starts_with(&path(b)),
                Path::new(a).starts_with(b),
                "{a:?} starts with {b:?}"
            );
            assert_eq!(
                path(a).strip_prefix(&path(b)).map(|rest| text(&rest)),
                Path::new(a).strip_prefix(b).ok().map(|rest| rest.to_str().unwrap().to_owned()),
                "{a:?} without {b:?}"
            );
        }
    }
}

#[test]
fn order_and_joins_follow_std() {
    for a in SAMPLES {
        for b in SAMPLES {
            assert_eq!(path(a).is_before(&path(b)), Path::new(a) < Path::new(b), "{a:?} < {b:?}");
            assert_eq!(
                text(&path(a).join(&path(b))),
                Path::new(a).join(b).to_str().unwrap(),
                "{a:?} with {b:?}"
            );
        }
    }
}

#[test]
fn parts_follow_std() {
    for a in SAMPLES {
        assert_eq!(path(a).is_absolute(), Path::new(a).is_absolute(), "{a:?}");
        assert_eq!(
            path(a).parent().map(|p| text(&p)),
            Path::new(a).parent().map(|p| p.to_str().unwrap().to_owned()),
            "parent of {a:?}"
        );
        assert_eq!(
            path(a).file_name().map(|n| text(&n)),
            Path::new(a).file_name().map(|n| n.to_str().unwrap().to_owned()),
            "name of {a:?}"
        );
        assert_eq!(
            text(&path(a).with_extension(&path("json.tmp"))),
            PathBuf::from(a).with_extension("json.tmp").to_str().unwrap(),
            "extension of {a:?}"
        );
        assert_eq!(
            path(a).component_list().len(),
            Path::new(a).components().count(),
            "components of {a:?}"
        );
    }
}

#[test]
fn stripping_and_joining_undo_each_other() {
    let root = path("/work/api");
    let rel = path("src/main.rs");
    let full = root.join(&rel);
    assert_eq!(text(&full), "/work/api/src/main.rs");
    assert!(full.strip_prefix(&root).unwrap().same_bytes(&rel));
    assert!(root.join(&full.strip_prefix(&root).unwrap()) == full);
}

#[test]
fn names_split_where_a_prefix_does_not() {
    assert!(!path("/work/api2").starts_with(&path("/work/api")));
    assert!(path("/work/api2").strip_prefix(&path("/work/api")).is_none());
}

#[test]
fn bytes_that_are_no_text_are_kept() {
    let raw = FsPath::from_bytes(vec![b'/', 0xff, b'/', b'x']);
    assert_eq!(raw.text(), None);
    assert_eq!(raw.display(), "/\u{fffd}/x");
    assert_eq!(raw.file_name().unwrap().text().as_deref(), Some("x"));
    assert!(raw.starts_with(&FsPath::from_bytes(vec![b'/', 0xff])));
    assert!(!raw.same_bytes(&path("/\u{fffd}/x")));
}

#[test]
fn text_and_display_agree_on_text() {
    let p = path("/\u{e9}/\u{4e2d}");
    assert_eq!(p.text().unwrap(), "/\u{e9}/\u{4e2d}");
    assert_eq!(p.display(), "/\u{e9}/\u{4e2d}");
}

#[test]
fn listing_order_is_total_and_transitive_on_samples() {
    for a in SAMPLES {
        for b in SAMPLES {
            let both = path(a).is_before(&path(b)) && path(b).is_before(&path(a));
            assert!(!both);
            if !(path(a) == path(b)) {
                assert!(path(a).is_before(&path(b)) || path(b).is_before(&path(a)));
            }
        }
    }
}
