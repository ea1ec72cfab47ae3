use fang::object_path::{create_object_path, create_region_path, InvalidObjectPath, ObjectPath};
use fang::text::push_decimal;

const TEXTS: [&str; 22] = [
    "",
    "/",
    "//",
    "a",
    "/a",
    "/a/",
    "/a//b",
    "/a/b",
    "//a",
    "/A_z0/9",
    "/a b",
    "/a-b",
    "/a.b",
    "/\u{e9}",
    "/a\u{0}",
    "/_",
    "/dev/hasali/Fang",
    "/dev/hasali/Fang/5426_164_31",
    " /a",
    "/a\n",
    "/@",
    "/[",
];

#[test]
fn object_paths_are_those_of_the_bus() {
    for text in TEXTS {
        let accepted = zbus::zvariant::ObjectPath::try_from(text).is_ok();
        assert_eq!(ObjectPath::new(text.to_owned()).is_ok(), accepted, "{text:?}");
    }
}

#[test]
fn valid_object_paths_keep_their_text() {
    for text in ["/", "/a", "/A_z0/9", "/_", "/dev/hasali/Fang"] {
        assert_eq!(ObjectPath::new(text.to_owned()).unwrap().as_str(), text);
    }
}

#[test]
fn invalid_object_paths_are_refused() {
    for text in ["", "a", "//", "/a/", "/a//b", "/a-b", "/\u{e9}"] {
        assert_eq!(ObjectPath::new(text.to_owned()).unwrap_err(), InvalidObjectPath);
    }
}

#[test]
fn path_of_a_device() {
    let path = create_object_path(0x1532, 0x00a4, b"1-4.2").unwrap();
    assert_eq!(path.as_str(), "/dev/hasali/Fang/5426_164_312d342e32");
    assert_eq!(path.duplicate().as_str(), path.as_str());
    let path = create_object_path(0, 65535, b"").unwrap();
    assert_eq!(path.as_str(), "/dev/hasali/Fang/0_65535_");
    let path = create_object_path(10, 9, &[0x00, 0xff, 0x0a]).unwrap();
    assert_eq!(path.as_str(), "/dev/hasali/Fang/10_9_00ff0a");
}

#[test]
fn every_name_gives_an_object_path() {
    let all: Vec<u8> = (0..=255).collect();
    let path = create_object_path(1, 2, &all).unwrap();
    assert!(zbus::zvariant::ObjectPath::try_from(path.as_str()).is_ok());
    assert_eq!(path.as_str().len(), "/dev/hasali/Fang/1_2_".len() + 512);
}

#[test]
fn devices_that_differ_have_different_paths() {
    let names: [&[u8]; 4] = [b"", b"1", b"11", b"1-1"];
    let mut paths = Vec::new();
    for vid in [1, 11, 111] {
        for pid in [1, 11, 111] {
            for name in names {
                paths.push(create_object_path(vid, pid, name).unwrap().as_str().to_owned());
            }
        }
    }
    for i in 0..paths.len() {
        for j in 0..i {
            assert_ne!(paths[i], paths[j]);
        }
    }
}

#[test]
fn path_of_a_region() {
    let device = create_object_path(0x1532, 0xa4, b"1").unwrap();
    let region = create_region_path(&device, 5).unwrap();
    assert_eq!(region.as_str(), "/dev/hasali/Fang/5426_164_31/light5");
    let region = create_region_path(&device, 255).unwrap();
    assert_eq!(region.as_str(), "/dev/hasali/Fang/5426_164_31/light255");
}

#[test]
fn regions_that_differ_have_different_paths() {
    let device = create_object_path(0x1532, 0xa4, b"1").unwrap();
    let paths: Vec<String> =
        (0..=255).map(|id| create_region_path(&device, id).unwrap().as_str().to_owned()).collect();
    for i in 0..paths.len() {
        assert_ne!(paths[i], device.as_str());
        for j in 0..i {
            assert_ne!(paths[i], paths[j]);
        }
    }
}

#[test]
fn root_has_no_regions() {
    let root = ObjectPath::new("/".to_owned()).unwrap();
    assert_eq!(create_region_path(&root, 1).unwrap_err(), InvalidObjectPath);
}

#[test]
fn numbers_in_base_ten() {
    for n in [0, 7, 9, 10, 99, 100, 5426, 10000, 65535] {
        let mut text = "n".to_owned();
        push_decimal(&mut text, n);
        assert_eq!(text, format!("n{n}"));
    }
}
