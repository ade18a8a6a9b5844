use typst_docs_convert::paths::{path_depth, strip_extension};

#[test]
fn path_components_are_counted_as_on_unix() {
    assert_eq!(path_depth("reference/foo.md"), 2);
    assert_eq!(path_depth("./a/b"), 3);
    assert_eq!(path_depth("/a/b"), 3);
    assert_eq!(path_depth("a//b/./"), 2);
    assert_eq!(path_depth("a/../b"), 3);
    assert_eq!(path_depth(""), 0);
    for p in ["reference/foo.md", "./a/b", "/a/b", "a//b/./", "a/../b", "", "x"] {
        assert_eq!(path_depth(p), std::path::Path::new(p).components().count(), "{p}");
    }
}

#[test]
fn extension_is_removed_as_on_unix() {
    assert_eq!(strip_extension("guides/intro.md"), "guides/intro");
    assert_eq!(strip_extension("a/b.tar.gz"), "a/b.tar");
    assert_eq!(strip_extension("a/.bashrc"), "a/.bashrc");
    assert_eq!(strip_extension("a/b/"), "a/b");
    assert_eq!(strip_extension("a/.."), "a/..");
    assert_eq!(strip_extension("/"), "/");
    for p in ["guides/intro.md", "a/b.tar.gz", "a/.bashrc", "a/b/", "a/..", "/", "a.", "x", "./y.md", "a/b.md/.", ""] {
        let std_form = std::path::Path::new(p).with_extension("").to_string_lossy().into_owned();
        assert_eq!(strip_extension(p), std_form, "{p}");
    }
}
