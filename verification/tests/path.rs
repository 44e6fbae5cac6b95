use rustup::path::{copy_range, same_bytes, UnixPath};

fn path(text: &str) -> UnixPath {
    UnixPath::new(text.as_bytes().to_vec())
}

fn parts(text: &str) -> Vec<String> {
    path(text)
        .components()
        .into_iter()
        .map(|part| String::from_utf8(part).unwrap())
        .collect()
}

/// The same with the standard library's paths.
fn std_parts(text: &str) -> Vec<String> {
    std::path::Path::new(text)
        .components()
        .map(|part| part.as_os_str().to_str().unwrap().to_string())
        .collect()
}

const SAMPLES: [&str; 22] = [
    "", "/", "//", ".", "./", "..", "a", "a/", "/a", "./a", "a/.", "a/./b", "a//b", "a/b//",
    "/.", "/./a", "../a", "a/..", "/a/b/c", "a/b/.c", "./.", "a/b/./",
];

#[test]
fn components_skip_filler() {
    assert_eq!(parts("/a//b/./c/"), vec!["/", "a", "b", "c"]);
    assert_eq!(parts("./a/.."), vec![".", "a", ".."]);
    for sample in SAMPLES {
        assert_eq!(parts(sample), std_parts(sample), "{}", sample);
    }
}

#[test]
fn parents_agree_with_the_standard_library() {
    for sample in SAMPLES {
        let parent = path(sample)
            .parent()
            .map(|parent| String::from_utf8(parent.bytes).unwrap());
        let expected = std::path::Path::new(sample)
            .parent()
            .map(|parent| parent.to_str().unwrap().to_string());
        assert_eq!(parent, expected, "{}", sample);
    }
    assert_eq!(path("/etc/profile").parent(), Some(path("/etc")));
    assert_eq!(path("/").parent(), None);
    assert_eq!(path("").parent(), None);
}

#[test]
fn joins_agree_with_the_standard_library() {
    for base in SAMPLES {
        for addition in SAMPLES {
            let joined = path(base).join(addition.as_bytes());
            let expected = std::path::Path::new(base).join(addition);
            assert_eq!(
                String::from_utf8(joined.bytes).unwrap(),
                expected.to_str().unwrap()
            );
        }
    }
    assert_eq!(path("/a").join(b"b"), path("/a/b"));
    assert_eq!(path("/a/").join(b"b"), path("/a/b"));
    assert_eq!(path("/a").join(b"/b"), path("/b"));
}

#[test]
fn spellings_of_one_path_are_the_same() {
    for one in SAMPLES {
        for other in SAMPLES {
            assert_eq!(
                path(one).same_path(&path(other)),
                std::path::Path::new(one) == std::path::Path::new(other)
            );
        }
        assert_eq!(
            path(one).is_absolute(),
            std::path::Path::new(one).is_absolute()
        );
    }
}

#[test]
fn bytes_are_copied_and_compared() {
    assert_eq!(copy_range(b"abcdef", 2, 4), b"cd".to_vec());
    assert_eq!(copy_range(b"abcdef", 6, 6), Vec::<u8>::new());
    assert!(same_bytes(b"abc", b"abc"));
    assert!(!same_bytes(b"abc", b"abd"));
    assert!(!same_bytes(b"abc", b"ab"));
}
