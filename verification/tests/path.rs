use litfile::path::{extension, file_name, join, parent, SEPARATOR};
use std::path::Path;

fn some(s: &str) -> Option<String> {
    Some(s.to_string())
}

#[test]
fn separator_is_a_slash() {
    assert_eq!(SEPARATOR, '/');
}

#[test]
fn file_name_is_the_final_segment() {
    assert_eq!(file_name("/a/b/foo.txt"), some("foo.txt"));
    assert_eq!(file_name("/foo.txt"), some("foo.txt"));
    assert_eq!(file_name("foo.txt"), some("foo.txt"));
    assert_eq!(file_name("a/b"), some("b"));
    assert_eq!(file_name("/a/.hidden"), some(".hidden"));
    assert_eq!(file_name("/a/..."), some("..."));
}

#[test]
fn file_name_is_missing_for_a_root_a_directory_mark_and_dots() {
    assert_eq!(file_name("/"), None);
    assert_eq!(file_name(""), None);
    assert_eq!(file_name("/a/"), None);
    assert_eq!(file_name("/a/."), None);
    assert_eq!(file_name("/a/.."), None);
    assert_eq!(file_name("."), None);
    assert_eq!(file_name(".."), None);
}

#[test]
fn parent_is_what_stands_before_the_last_separator() {
    assert_eq!(parent("/a/b/foo.txt"), "/a/b");
    assert_eq!(parent("a/b"), "a");
    assert_eq!(parent("/a/b/"), "/a/b");
}

#[test]
fn parent_of_a_file_in_the_root_is_the_root() {
    assert_eq!(parent("/foo.txt"), "/");
    assert_eq!(parent("/"), "/");
}

#[test]
fn parent_of_a_bare_name_is_empty() {
    assert_eq!(parent("foo.txt"), "");
    assert_eq!(parent(""), "");
}

#[test]
fn join_puts_one_separator_between_directory_and_name() {
    assert_eq!(join("/a/b", "c"), "/a/b/c");
    assert_eq!(join("a", "c.txt"), "a/c.txt");
}

#[test]
fn join_adds_no_separator_to_a_root_or_an_empty_directory() {
    assert_eq!(join("/", "c"), "/c");
    assert_eq!(join("a/", "c"), "a/c");
    assert_eq!(join("", "c"), "c");
}

#[test]
fn join_restores_a_path_taken_apart() {
    for path in ["/a/b/foo.txt", "/foo.txt", "foo.txt", "a/b", "/a/b c/d.e.f"] {
        let name = file_name(path).unwrap();
        assert_eq!(join(&parent(path), &name), path);
    }
}

#[test]
fn extension_is_what_follows_the_last_dot() {
    assert_eq!(extension("foo.txt"), some("txt"));
    assert_eq!(extension("a.b.c"), some("c"));
    assert_eq!(extension("archive.tar.gz"), some("gz"));
    assert_eq!(extension("..a"), some("a"));
    assert_eq!(extension(".a.b"), some("b"));
}

#[test]
fn extension_after_a_final_dot_is_empty() {
    assert_eq!(extension("foo."), some(""));
    assert_eq!(extension("..."), some(""));
}

#[test]
fn extension_is_missing_without_a_dot_within_the_name() {
    assert_eq!(extension("foo"), None);
    assert_eq!(extension(""), None);
    assert_eq!(extension(".bashrc"), None);
    assert_eq!(extension("."), None);
    assert_eq!(extension(".."), None);
}

#[test]
fn path_functions_agree_with_the_standard_library_on_resolved_paths() {
    let resolved =
        ["/a/b/foo.txt", "/foo.txt", "/a/.hidden", "/a/b.c/d", "/x/y.tar.gz", "/a/foo.", "/"];
    for text in resolved {
        let path = Path::new(text);
        let name = path.file_name().map(|n| n.to_str().unwrap().to_string());
        assert_eq!(file_name(text), name, "{}", text);
        if let Some(name) = name {
            let ext = path.extension().map(|e| e.to_str().unwrap().to_string());
            assert_eq!(extension(&name), ext, "{}", text);
            let dir = path.parent().unwrap();
            assert_eq!(parent(text), dir.to_str().unwrap(), "{}", text);
            let joined = dir.join(&name);
            assert_eq!(join(&parent(text), &name), joined.to_str().unwrap(), "{}", text);
        }
    }
}
