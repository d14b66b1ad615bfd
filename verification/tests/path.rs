use xcode_tools::path::{
    extension, file_name, file_stem, is_absolute, join, lexical_normalize, parent, path_eq,
    path_starts_with,
};

#[test]
fn parent_and_file_name_follow_std() {
    assert_eq!(parent("/a/b/c").as_deref(), Some("/a/b"));
    assert_eq!(parent("/a").as_deref(), Some("/"));
    assert_eq!(parent("/"), None);
    assert_eq!(parent(""), None);
    assert_eq!(parent("a").as_deref(), Some(""));
    assert_eq!(parent("a/b//").as_deref(), Some("a"));
    assert_eq!(parent("a/./b").as_deref(), Some("a"));
    assert_eq!(parent("./a").as_deref(), Some("."));
    assert_eq!(file_name("a/b/").as_deref(), Some("b"));
    assert_eq!(file_name("a/b/.").as_deref(), Some("b"));
    assert_eq!(file_name("a/.."), None);
    assert_eq!(file_name("/"), None);
}

#[test]
fn extension_and_stem_follow_std() {
    assert_eq!(extension("/p/A.m").as_deref(), Some("m"));
    assert_eq!(extension("/p/.bashrc"), None);
    assert_eq!(extension("/p/a.tar.gz").as_deref(), Some("gz"));
    assert_eq!(extension("/p/a.").as_deref(), Some(""));
    assert_eq!(file_stem("/ws/App.xcodeproj").as_deref(), Some("App"));
    assert_eq!(file_stem("/ws/.hidden").as_deref(), Some(".hidden"));
}

#[test]
fn join_and_absolute() {
    assert_eq!(join("/a", "b"), "/a/b");
    assert_eq!(join("/a/", "b"), "/a/b");
    assert_eq!(join("", "b"), "b");
    assert_eq!(join("/a", "/b"), "/b");
    assert!(is_absolute("/x"));
    assert!(!is_absolute("x/y"));
}

#[test]
fn component_equality_and_prefix() {
    assert!(path_eq("a//b/", "a/b"));
    assert!(path_eq("a/./b", "a/b"));
    assert!(!path_eq("./a", "a"));
    assert!(path_starts_with("/ws/A/x.m", "/ws/A"));
    assert!(!path_starts_with("/ws/AB/x.m", "/ws/A"));
}

#[test]
fn lexical_normalize_folds_dots() {
    assert_eq!(lexical_normalize("/proj/App/../App/./sub/main.m"), "/proj/App/sub/main.m");
    assert_eq!(lexical_normalize("/.."), "/");
    assert_eq!(lexical_normalize("../x"), "x");
    assert_eq!(lexical_normalize("a/b/.."), "a");
    assert_eq!(lexical_normalize("a//b/"), "a/b");
}
