use catenary_router::path::UnixPath;
use catenary_router::text::{
    contains_text, decimal_text, insert_sorted, join_lines_text, starts_with, strip_prefix,
    text_eq, trim,
};

fn p(text: &str) -> UnixPath {
    UnixPath::new(text)
}

#[test]
fn paths_agree_with_the_standard_library() {
    let texts = [
        "", "/", "//", ".", "./a", "a", "a/", "a//b", "a/./b", "/a", "/a/", "/a/b", "/a/.", "..",
        "/..", "/a/../b", "../a", "./", "/./a", "a.b", ".a", "/a/b c",
    ];
    for x in texts {
        for y in texts {
            let (px, py) = (std::path::Path::new(x), std::path::Path::new(y));
            assert_eq!(p(x) == p(y), px == py, "equality of {x:?} and {y:?}");
            assert_eq!(p(x).starts_with(&p(y)), px.starts_with(py), "{x:?} starts with {y:?}");
            assert_eq!(p(x).precedes(&p(y)), px < py, "{x:?} before {y:?}");
            assert_eq!(
                p(x).join(y).as_str(),
                px.join(py).to_str().expect("utf8"),
                "{x:?} joined with {y:?}"
            );
        }
        assert_eq!(p(x).is_absolute(), std::path::Path::new(x).is_absolute());
        assert_eq!(
            p(x).file_name(),
            std::path::Path::new(x).file_name().map(|n| n.to_str().expect("utf8").to_string()),
            "file name of {x:?}"
        );
    }
}

#[test]
fn a_joined_path_lies_below() {
    assert!(p("/a/b").join("c/d").starts_with(&p("/a/b")));
    assert!(!p("/a/b").join("/c").starts_with(&p("/a/b")));
}

#[test]
fn text_helpers_agree_with_the_standard_library() {
    for n in [0u64, 7, 10, 99, 100, 12345, u64::MAX] {
        assert_eq!(decimal_text(n), n.to_string());
    }
    for s in ["", " ", " a ", "\t\n x \u{3000}", "a b", "\u{85}y\u{2028}"] {
        assert_eq!(trim(s), s.trim());
    }
    assert!(text_eq("abc", "abc") && !text_eq("abc", "abd") && !text_eq("a", "ab"));
    assert!(starts_with("worktree:x", "worktree:") && !starts_with("work", "worktree:"));
    assert_eq!(strip_prefix("file:///a", "file://"), Some("/a"));
    assert_eq!(strip_prefix("/a", "file://"), None);
    assert_eq!(
        join_lines_text(&vec!["a".to_string(), "".to_string(), "b".to_string()]),
        "a\n\nb"
    );
    assert_eq!(join_lines_text(&Vec::new()), "");
    let mut v = Vec::new();
    for s in ["b", "a", "b", "\u{e9}", "z"] {
        insert_sorted(&mut v, s.to_string());
    }
    assert_eq!(v, vec!["a", "b", "z", "\u{e9}"]);
    assert!(contains_text(&v, "z") && !contains_text(&v, "y"));
}
