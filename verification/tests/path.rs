use cargo_sandbox::path::{file_name, find_ancestor_named, parent};

fn name(p: &str) -> Option<String> {
    file_name(p.as_bytes()).map(|v| String::from_utf8(v).unwrap())
}

fn par(p: &str) -> Option<String> {
    parent(p.as_bytes()).map(|v| String::from_utf8(v).unwrap())
}

#[test]
fn file_name_of_plain_paths() {
    assert_eq!(name("/a/b/build-script-build").as_deref(), Some("build-script-build"));
    assert_eq!(name("rustc").as_deref(), Some("rustc"));
    assert_eq!(name("a/b/").as_deref(), Some("b"));
    assert_eq!(name("foo/.").as_deref(), Some("foo"));
    assert_eq!(name("a//b").as_deref(), Some("b"));
}

#[test]
fn file_name_absent() {
    assert_eq!(name("/"), None);
    assert_eq!(name(""), None);
    assert_eq!(name("foo/.."), None);
    assert_eq!(name("."), None);
    assert_eq!(name("./"), None);
}

#[test]
fn parent_of_paths() {
    assert_eq!(par("/a/b").as_deref(), Some("/a"));
    assert_eq!(par("/a/b/").as_deref(), Some("/a"));
    assert_eq!(par("/a").as_deref(), Some("/"));
    assert_eq!(par("/"), None);
    assert_eq!(par(""), None);
    assert_eq!(par("a").as_deref(), Some(""));
    assert_eq!(par("./a").as_deref(), Some("."));
    assert_eq!(par(".").as_deref(), Some(""));
    assert_eq!(par("a//b").as_deref(), Some("a"));
    assert_eq!(par("a/./b").as_deref(), Some("a"));
    assert_eq!(par("a/b/..").as_deref(), Some("a/b"));
}

#[test]
fn parent_matches_std() {
    for p in ["/a/b", "/a/b/", "/a", "/", "", "a", "./a", ".", "a//b", "a/./b", "a/b/..", "//x//y/", "./", "../x", ".x/y", "x/.y"] {
        let expected = std::path::Path::new(p).parent().map(|q| q.to_str().unwrap().to_string());
        assert_eq!(par(p), expected, "parent of {p:?}");
        let expected_name = std::path::Path::new(p).file_name().map(|q| q.to_str().unwrap().to_string());
        assert_eq!(name(p), expected_name, "file name of {p:?}");
    }
}

#[test]
fn ancestor_named_target() {
    let bin = b"/home/u/proj/target/debug/build/foo-1234/build-script-build";
    let found = find_ancestor_named(bin, b"target").unwrap();
    assert_eq!(found, b"/home/u/proj/target".to_vec());
    assert_eq!(find_ancestor_named(b"/home/u/proj/src/main.rs", b"target"), None);
    assert_eq!(find_ancestor_named(b"target", b"target"), Some(b"target".to_vec()));
}
