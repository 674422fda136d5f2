use crev::path::{join_path, parent_dir};
use crev::repo::{find_project_root_dir, RootSearch};

#[test]
fn join_puts_one_separator_between() {
    assert_eq!(join_path("/home/me/project", ".crev"), "/home/me/project/.crev");
    assert_eq!(join_path("/home/me/project/", ".crev"), "/home/me/project/.crev");
    assert_eq!(join_path("/", ".crev"), "/.crev");
    assert_eq!(join_path("proofs", "a/b"), "proofs/a/b");
    assert_eq!(join_path("a", ""), "a/");
}

#[test]
fn join_with_empty_base_or_absolute_path() {
    assert_eq!(join_path("", ".crev"), ".crev");
    assert_eq!(join_path("", ""), "");
    assert_eq!(join_path("/a", "/b"), "/b");
    assert_eq!(join_path("", "/b"), "/b");
}

#[test]
fn join_agrees_with_the_platform() {
    let cases = [("/a/b", "c"), ("/a/b/", "c"), ("/", "c"), ("", "c"), ("a", "b/c"), ("/a", "/b")];
    for (base, rel) in cases.iter() {
        let expected = std::path::Path::new(base).join(rel);
        assert_eq!(join_path(base, rel), expected.to_str().unwrap());
    }
}

#[test]
fn parent_of_a_path() {
    assert_eq!(parent_dir("/home/me/project"), Some("/home/me".to_string()));
    assert_eq!(parent_dir("/home"), Some("/".to_string()));
    assert_eq!(parent_dir("/"), None);
    assert_eq!(parent_dir(""), None);
    assert_eq!(parent_dir("name"), Some(String::new()));
    assert_eq!(parent_dir("a/b"), Some("a".to_string()));
    assert_eq!(parent_dir("/\u{e9}t\u{e9}/\u{65e5}\u{672c}"), Some("/\u{e9}t\u{e9}".to_string()));
}

#[test]
fn parent_agrees_with_the_platform_on_canonical_paths() {
    let cases = ["/", "/a", "/a/b", "/a/b/c.d", "/a b/c"];
    for path in cases.iter() {
        let expected = std::path::Path::new(path).parent().map(|p| p.to_str().unwrap().to_string());
        assert_eq!(parent_dir(path), expected);
    }
}

#[test]
fn root_search_stops_at_the_repository() {
    match find_project_root_dir("/home/me/project".to_string(), true) {
        RootSearch::Found(root) => assert_eq!(root, "/home/me/project"),
        other => panic!("{:?}", other),
    }
}

#[test]
fn root_search_goes_up_and_ends() {
    let marked = ["/home/me"];
    let mut dir = "/home/me/project/src/deep".to_string();
    let mut looked_at = vec![dir.clone()];
    let found = loop {
        match find_project_root_dir(dir.clone(), marked.contains(&dir.as_str())) {
            RootSearch::Found(root) => break Some(root),
            RootSearch::Ascend(parent) => {
                assert!(parent.len() < dir.len());
                dir = parent;
                looked_at.push(dir.clone());
            }
            RootSearch::NotFound => break None,
        }
    };
    assert_eq!(found, Some("/home/me".to_string()));
    assert_eq!(
        looked_at,
        vec!["/home/me/project/src/deep", "/home/me/project/src", "/home/me/project", "/home/me"]
    );
}

#[test]
fn root_search_fails_at_the_root() {
    assert!(matches!(find_project_root_dir("/".to_string(), false), RootSearch::NotFound));
    match find_project_root_dir("/home".to_string(), false) {
        RootSearch::Ascend(parent) => assert_eq!(parent, "/"),
        other => panic!("{:?}", other),
    }
    let mut dir = "/a/b".to_string();
    let mut steps = 0;
    loop {
        match find_project_root_dir(dir, false) {
            RootSearch::Ascend(parent) => dir = parent,
            RootSearch::NotFound => break,
            RootSearch::Found(_) => unreachable!(),
        }
        steps += 1;
    }
    assert_eq!(steps, 2);
}
