use std::cmp::Ordering;
use std::path::PathBuf;

use fang::path::{Order, SysPath};
use fang::path_map::PathMap;

const PATHS: [&str; 26] = [
    "",
    "/",
    "//",
    ".",
    "./",
    "./a",
    "a",
    "a/",
    "a/.",
    "a/./b",
    "a//b",
    "a/b",
    "..",
    "../a",
    "a/..",
    "/..",
    "/.",
    "/a",
    "/a/b",
    "/a.b",
    "/a-b",
    "/a/b/c",
    "...",
    ".a",
    "/sys/devices/pci0000:00/usb1/1-4",
    "/sys/devices//pci0000:00/./usb1/1-4/",
];

fn path(text: &str) -> SysPath {
    SysPath::new(text.as_bytes())
}

#[test]
fn paths_compare_as_in_the_file_system() {
    for a in PATHS {
        for b in PATHS {
            let expected = match PathBuf::from(a).cmp(&PathBuf::from(b)) {
                Ordering::Less => Order::Less,
                Ordering::Equal => Order::Equal,
                Ordering::Greater => Order::Greater,
            };
            assert_eq!(path(a).compare(&path(b)), expected, "{a:?} and {b:?}");
        }
    }
}

#[test]
fn names_need_not_be_text() {
    let a = SysPath::new(&[47, 255, 1]);
    let b = SysPath::new(&[47, 255, 2]);
    assert_eq!(a.compare(&b), Order::Less);
    assert_eq!(b.compare(&a), Order::Greater);
    assert_eq!(a.compare(&SysPath::new(&[47, 47, 255, 1, 47])), Order::Equal);
}

#[test]
fn order_is_strict_and_passes_on() {
    for a in PATHS {
        assert_eq!(path(a).compare(&path(a)), Order::Equal);
        for b in PATHS {
            for c in PATHS {
                if path(a).compare(&path(b)) == Order::Less
                    && path(b).compare(&path(c)) == Order::Less
                {
                    assert_eq!(path(a).compare(&path(c)), Order::Less);
                }
            }
        }
    }
}

#[test]
fn paths_keep_how_they_are_written() {
    for a in PATHS {
        assert_eq!(path(a).as_bytes(), a.as_bytes());
        assert_eq!(path(a).duplicate().as_bytes(), a.as_bytes());
    }
}

#[test]
fn copies_are_equal() {
    for a in PATHS {
        assert_eq!(path(a).duplicate().compare(&path(a)), Order::Equal);
    }
}

#[test]
fn map_is_walked_in_the_order_of_the_paths() {
    let mut one = PathMap::new();
    let mut other = PathMap::new();
    for (text, value) in [("/a/b", 2), ("/a-b", 3), ("/a", 1), ("b", 4)] {
        assert_eq!(one.insert(path(text), value), None);
    }
    for (text, value) in [("b", 4), ("/a", 1), ("/a-b", 3), ("/a/b", 2)] {
        assert_eq!(other.insert(path(text), value), None);
    }
    assert_eq!(one.len(), 4);
    for i in 0..4 {
        assert_eq!(*one.value_at(i), i + 1);
        assert_eq!(*other.value_at(i), i + 1);
    }
}

#[test]
fn map_finds_what_was_put_in() {
    let mut map = PathMap::new();
    assert_eq!(map.insert(path("/a"), 1), None);
    assert_eq!(map.insert(path("/b"), 2), None);
    assert_eq!(map.insert(path("//a/"), 3), Some(1));
    assert_eq!(map.len(), 2);
    assert_eq!(map.get(&path("/a")), Some(&3));
    assert!(map.contains_key(&path("/b/.")));
    assert_eq!(map.get(&path("/c")), None);
    assert_eq!(map.remove(&path("/c")), None);
    assert_eq!(map.remove(&path("/a")), Some(3));
    assert_eq!(map.remove(&path("/a")), None);
    assert!(!map.contains_key(&path("/a")));
    assert_eq!(map.len(), 1);
}
