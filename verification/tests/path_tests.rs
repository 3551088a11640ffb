use fim::path::{join_path, path_components, path_starts_with};

fn comps(s: &str) -> Vec<String> {
    path_components(s).iter().map(|c| c.iter().collect::<String>()).collect()
}

#[test]
fn components_of_rooted_path() {
    assert_eq!(comps("/etc/passwd"), vec!["/", "etc", "passwd"]);
}

#[test]
fn components_normalise_separators_and_dots() {
    assert_eq!(comps("a//b/./c/"), vec!["a", "b", "c"]);
    assert_eq!(comps("./a"), vec![".", "a"]);
    assert_eq!(comps("."), vec!["."]);
    assert_eq!(comps(".hidden/x"), vec![".hidden", "x"]);
    assert_eq!(comps("a/../b"), vec!["a", "..", "b"]);
    assert_eq!(comps(""), Vec::<String>::new());
    assert_eq!(comps("//"), vec!["/"]);
}

#[test]
fn components_agree_with_std() {
    let samples = [
        "/etc/passwd", "a//b/./c/", "./a", ".", "..", "./", "/./a", "a/.", "x/./", "", "/",
        ".hidden", "a/b/../c", "//a//b", "save/abc/log",
    ];
    for s in samples {
        let std_comps: Vec<String> = std::path::Path::new(s)
            .components()
            .map(|c| match c {
                std::path::Component::RootDir => "/".to_string(),
                std::path::Component::CurDir => ".".to_string(),
                other => other.as_os_str().to_string_lossy().to_string(),
            })
            .collect();
        assert_eq!(comps(s), std_comps, "components of {:?}", s);
    }
}

#[test]
fn starts_with_whole_components() {
    assert!(path_starts_with("/etc/passwd", "/etc"));
    assert!(path_starts_with("/etc/passwd", "/etc/"));
    assert!(path_starts_with("/etc/passwd", "/etc/passwd"));
    assert!(!path_starts_with("/etc/passwd", "/e"));
    assert!(!path_starts_with("/etc/foo.rs", "/etc/foo"));
    assert!(path_starts_with("a/./b/c", "a/b"));
    assert!(!path_starts_with("./a", "a"));
    assert!(!path_starts_with("/a", "a"));
    assert!(path_starts_with("anything", ""));
    assert!(!path_starts_with("/a", "/a/b"));
}

#[test]
fn starts_with_agrees_with_std() {
    let samples = ["/etc/passwd", "/etc", "/etc/", "/e", "a/./b", "a/b", "./a", "a", "", "/", "a/b/c", "."];
    for p in samples {
        for b in samples {
            assert_eq!(
                path_starts_with(p, b),
                std::path::Path::new(p).starts_with(b),
                "{:?} starts with {:?}",
                p,
                b
            );
        }
    }
}

#[test]
fn join_inserts_one_separator() {
    assert_eq!(join_path("save/", "abc"), "save/abc");
    assert_eq!(join_path("a", "b"), "a/b");
    assert_eq!(join_path("", "x"), "x");
    assert_eq!(join_path("a", ""), "a/");
}

#[test]
fn join_with_absolute_name_replaces() {
    assert_eq!(join_path("a/b", "/c"), "/c");
}

#[test]
fn join_agrees_with_std() {
    let samples = ["", "a", "a/", "/", "/x/y", "save/", "./d"];
    let names = ["b", "", "/abs", "c/d", ".e"];
    for b in samples {
        for n in names {
            let std_join = std::path::Path::new(b).join(n).to_string_lossy().to_string();
            assert_eq!(join_path(b, n), std_join, "{:?} joined with {:?}", b, n);
        }
    }
}

#[test]
fn joined_child_lies_below_parent() {
    for parent in ["/watched", "w/", ".", "", "/"] {
        let child = join_path(parent, "sub");
        assert!(path_starts_with(&child, parent));
    }
}
