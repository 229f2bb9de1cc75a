use hurry_cargo::path::{file_name, is_absolute, join, last_of, names, AbsFilePath};
use hurry_cargo::text::{
    contains, dashes_to_underscores, duplicate_list, ends_with, lines, rsplit_once, same,
    split_once, starts_with, strip_prefix,
};

const SAMPLES: [&str; 12] = [
    "", "-", "a", "a-", "-a", "a-b", "a-b-c", "é-ü-ö", "--", "..", "x.y.z", "no dash",
];

#[test]
fn texts_are_split_as_str_does() {
    for sample in SAMPLES {
        for c in ['-', '.', 'é'] {
            assert_eq!(split_once(sample, c), sample.split_once(c));
            assert_eq!(rsplit_once(sample, c), sample.rsplit_once(c));
        }
        assert_eq!(dashes_to_underscores(sample), sample.replace('-', "_"));
    }
}

#[test]
fn texts_are_searched_as_str_does() {
    for sample in SAMPLES {
        for other in SAMPLES {
            assert_eq!(contains(sample, other), sample.contains(other));
            assert_eq!(starts_with(sample, other), sample.starts_with(other));
            assert_eq!(ends_with(sample, other), sample.ends_with(other));
            assert_eq!(strip_prefix(sample, other), sample.strip_prefix(other));
            assert_eq!(same(sample, other), sample == other);
        }
    }
    assert!(contains("aab", "ab"));
    assert!(!contains("aa", "ab"));
}

#[test]
fn lines_end_as_str_lines_does() {
    for sample in [
        "", "a", "a\n", "a\nb", "a\n\nb\n", "\n", "\r\n", "a\r\nb\r", "a\r\n", "\r", "\n\r", "é\nü",
    ] {
        assert_eq!(lines(sample), sample.lines().collect::<Vec<&str>>());
    }
}

#[test]
fn lists_are_duplicated() {
    let list = vec![String::from("a"), String::new(), String::from("ü")];
    assert_eq!(duplicate_list(&list), list);
    assert!(duplicate_list(&vec![]).is_empty());
}

#[test]
fn paths_are_taken_apart_as_std_does() {
    for sample in [
        "", "/", "//", "a", "a/b", "/a", "/a/", "/a/b", "/a/./b", "/a/b/.", "/a/..", "..", ".",
        "/..", "./a", "a/./", "/a//b//", "/./.", "/x/../y", "a/..",
    ] {
        let path = std::path::Path::new(sample);
        assert_eq!(is_absolute(sample), path.is_absolute(), "{sample}");
        let expected = path.file_name().map(|name| name.to_str().unwrap());
        assert_eq!(file_name(sample), expected, "{sample}");
        let parent = path.parent().and_then(|parent| parent.file_name());
        let parts = names(sample);
        if is_absolute(sample) && !parts.is_empty() {
            assert_eq!(
                last_of(&parts, parts.len() - 1),
                parent.map(|name| name.to_str().unwrap()),
                "{sample}"
            );
        }
        if is_absolute(sample) {
            assert_eq!(parts.is_empty(), path.parent().is_none(), "{sample}");
        }
        for base in ["/cargo_home", "/cargo_home/", "x", ""] {
            let joined = std::path::Path::new(base).join(sample);
            assert_eq!(join(base, sample), joined.to_str().unwrap(), "{base} {sample}");
        }
    }
}

#[test]
fn file_paths_are_absolute() {
    assert_eq!(AbsFilePath::try_from_str("/a/b").unwrap().as_str(), "/a/b");
    assert!(AbsFilePath::try_from_str("a/b").is_none());
    assert!(AbsFilePath::try_from_str("").is_none());
}
