//! Paths by the side of those of the standard library.

use std::path::Path;

use notify_poll::path::FilePath;
use notify_poll::path_map::PathMap;

const TEXTS: [&str; 34] = [
    "",
    "/",
    "//",
    "///a",
    ".",
    "..",
    "./",
    "./.",
    "./a",
    "../a",
    "/.",
    "/..",
    "/./a",
    "/a",
    "/a/",
    "/a//",
    "/a/.",
    "/a/./",
    "/a/b",
    "/a//b",
    "/a/./b",
    "/a/../b",
    "/a/b/",
    "/a/b/c",
    "/ab",
    "/a/bc",
    "a",
    "a/",
    "a/b",
    "a/./b/.",
    "a//b",
    "a/..",
    "b",
    "a b/\u{e9}",
];

fn path(text: &str) -> FilePath {
    FilePath::new(text.as_bytes().to_vec())
}

fn text(path: &FilePath) -> String {
    String::from_utf8(path.as_bytes().to_vec()).unwrap()
}

#[test]
fn absoluteness_agrees_with_std() {
    for a in TEXTS {
        assert_eq!(path(a).is_absolute(), Path::new(a).is_absolute(), "{a:?}");
    }
}

#[test]
fn component_counts_agree_with_std() {
    for a in TEXTS {
        assert_eq!(path(a).component_count(), Path::new(a).components().count(), "{a:?}");
    }
}

#[test]
fn equality_agrees_with_std() {
    for a in TEXTS {
        for b in TEXTS {
            assert_eq!(path(a) == path(b), Path::new(a) == Path::new(b), "{a:?} and {b:?}");
            assert_eq!(path(a).same_as(&path(b)), Path::new(a) == Path::new(b));
        }
    }
}

#[test]
fn starts_with_agrees_with_std() {
    for a in TEXTS {
        for b in TEXTS {
            assert_eq!(
                path(a).starts_with(&path(b)),
                Path::new(a).starts_with(b),
                "{a:?} below {b:?}"
            );
        }
    }
}

#[test]
fn strip_prefix_agrees_with_std() {
    for a in TEXTS {
        for b in TEXTS {
            let ours = path(a).strip_prefix(&path(b)).map(|p| text(&p));
            let theirs = Path::new(a).strip_prefix(b).ok().map(|p| p.to_str().unwrap().to_string());
            assert_eq!(ours, theirs, "{a:?} without {b:?}");
        }
    }
}

#[test]
fn join_agrees_with_std() {
    for a in TEXTS {
        for b in TEXTS {
            let theirs = Path::new(a).join(b);
            assert_eq!(text(&path(a).join(&path(b))), theirs.to_str().unwrap(), "{a:?} and {b:?}");
        }
    }
}

#[test]
fn heads_agree_with_the_ancestors_of_std() {
    for a in TEXTS {
        let whole = path(a);
        let mut count = whole.component_count();
        for ancestor in Path::new(a).ancestors().skip(1) {
            count -= 1;
            assert_eq!(text(&whole.head(count)), ancestor.to_str().unwrap(), "{a:?}");
        }
        // What is left is nothing, or the root.
        assert_eq!(count, usize::from(whole.is_absolute()), "{a:?}");
    }
}

#[test]
fn clones_keep_the_text() {
    for a in TEXTS {
        assert_eq!(text(&path(a).clone()), a);
    }
}

#[test]
fn equal_paths_bear_equal_marks() {
    for a in TEXTS {
        for b in TEXTS {
            assert_eq!(path(a).mark() == path(b).mark(), path(a) == path(b), "{a:?} and {b:?}");
        }
    }
}

#[test]
fn large_maps_find_every_path() {
    let name = |i: usize| path(&format!("/dir{}/file{i}", i % 7));
    let mut map: PathMap<usize> = PathMap::new();
    for i in 0..2000 {
        assert_eq!(map.insert(name(i), i), None);
    }
    for i in (0..2000).step_by(3) {
        assert_eq!(map.remove(&name(i)), Some(i));
    }
    for i in 0..2000 {
        assert_eq!(map.get(&name(i)).copied(), if i % 3 == 0 { None } else { Some(i) });
    }
    while map.len() > 0 {
        let (at, i) = map.remove_at(map.len() / 2);
        assert!(at == name(i));
        assert_eq!(map.get(&at), None);
    }
}

#[test]
fn map_keys_are_compared_by_components() {
    let mut map: PathMap<u32> = PathMap::new();
    assert_eq!(map.insert(path("/a/b"), 1), None);
    assert_eq!(map.insert(path("/a/c"), 2), None);
    assert_eq!(map.insert(path("/a//b/"), 3), Some(1));
    assert_eq!(map.len(), 2);
    assert_eq!(map.get(&path("/a/./b")), Some(&3));
    assert_eq!(map.get(&path("/a")), None);
    // The text under which the path was entered first is kept.
    assert_eq!(text(&map.entry(0).0), "/a/b");
    assert_eq!(map.entry(0).1, 3);
    *map.value_mut(1) += 10;
    assert_eq!(map.get(&path("/a/c")), Some(&12));
    assert_eq!(map.remove(&path("/a/x")), None);
    assert_eq!(map.remove(&path("/a/b/.")), Some(3));
    assert_eq!(map.remove(&path("/a/b")), None);
    let (at, value) = map.remove_at(0);
    assert_eq!((text(&at), value), ("/a/c".to_string(), 12));
    assert_eq!(map.len(), 0);
}
