use file_gateway::error::GatewayError;
use file_gateway::path::{
    file_name_of, is_relative, join_path, parent_of, relative_to, RootContext,
};

fn context(root: &str) -> RootContext {
    RootContext::new(root).unwrap()
}

#[test]
fn join_path_follows_the_base() {
    assert_eq!(join_path("/srv", "a/b"), "/srv/a/b");
    assert_eq!(join_path("/srv/", "a"), "/srv/a");
    assert_eq!(join_path("/srv", ""), "/srv/");
    assert_eq!(join_path("", "a"), "a");
    assert_eq!(join_path("/", "a"), "/a");
    assert_eq!(join_path("/srv", "../etc"), "/srv/../etc");
}

#[test]
fn join_path_lets_an_absolute_path_replace_the_base() {
    assert_eq!(join_path("/srv", "/etc/passwd"), "/etc/passwd");
    assert_eq!(join_path("/srv", "/"), "/");
}

#[test]
fn join_path_agrees_with_std() {
    for base in ["/srv", "/srv/", "", "/", "a", "a/b/"] {
        for rel in ["", "x", "x/y", "/x", "..", "./x", "/"] {
            let expected = std::path::Path::new(base).join(rel);
            assert_eq!(join_path(base, rel), expected.to_string_lossy());
        }
    }
}

#[test]
fn is_relative_looks_at_the_first_character() {
    assert!(is_relative("a/b"));
    assert!(is_relative(""));
    assert!(is_relative("./a"));
    assert!(!is_relative("/a"));
    assert!(!is_relative("/"));
}

#[test]
fn relative_to_strips_the_root_and_its_separator() {
    assert_eq!(relative_to("/srv", "/srv/a/b"), "a/b");
    assert_eq!(relative_to("/srv", "/srv/a"), "a");
    assert_eq!(relative_to("/", "/a/b"), "a/b");
}

#[test]
fn relative_to_is_empty_where_stripping_fails() {
    assert_eq!(relative_to("/srv", "/srv"), "");
    assert_eq!(relative_to("/srv", "/srvx/a"), "");
    assert_eq!(relative_to("/srv", "/etc/passwd"), "");
    assert_eq!(relative_to("/srv", ""), "");
}

#[test]
fn parent_of_cuts_at_the_last_separator() {
    assert_eq!(parent_of("/srv/a/b"), "/srv/a");
    assert_eq!(parent_of("/srv"), "/");
    assert_eq!(parent_of("/"), "");
    assert_eq!(parent_of("name"), "");
    assert_eq!(parent_of(""), "");
}

#[test]
fn file_name_of_gives_the_final_component() {
    assert_eq!(file_name_of("/srv/a/b.txt"), Some("b.txt".to_string()));
    assert_eq!(file_name_of("b.txt"), Some("b.txt".to_string()));
    assert_eq!(file_name_of("a/b/"), Some("b".to_string()));
    assert_eq!(file_name_of("a/b/."), Some("b".to_string()));
    assert_eq!(file_name_of("a//b//"), Some("b".to_string()));
    assert_eq!(file_name_of("a/.."), None);
    assert_eq!(file_name_of(".."), None);
    assert_eq!(file_name_of("."), None);
    assert_eq!(file_name_of("./"), None);
    assert_eq!(file_name_of("/"), None);
    assert_eq!(file_name_of(""), None);
}

#[test]
fn file_name_of_agrees_with_std() {
    for path in [
        "", "/", ".", "..", "a", "a/", "a/.", "a/..", "/a", "/a/b", "a//b", "a/b//", "./a",
        "a/./b", "a/b/./", "../a", "/.", "/..", "./.", "a/.b", "a/..b", "a/b..", "...", "a/...",
        "//", "a\\b", "a/ ", " ",
    ] {
        let expected = std::path::Path::new(path)
            .file_name()
            .map(|name| name.to_string_lossy().to_string());
        assert_eq!(file_name_of(path), expected, "{:?}", path);
    }
}

#[test]
fn root_context_takes_paths_in_normal_form() {
    assert!(RootContext::new("/").is_some());
    assert!(RootContext::new("/srv").is_some());
    assert!(RootContext::new("/srv/data.d/x").is_some());
    assert_eq!(context("/srv/data").root(), "/srv/data");
}

#[test]
fn root_context_refuses_other_paths() {
    assert!(RootContext::new("").is_none());
    assert!(RootContext::new("srv").is_none());
    assert!(RootContext::new("/srv/").is_none());
    assert!(RootContext::new("/srv//data").is_none());
    assert!(RootContext::new("/srv/./data").is_none());
    assert!(RootContext::new("/srv/../data").is_none());
    assert!(RootContext::new("//").is_none());
    assert!(RootContext::new("/..").is_none());
}

#[test]
fn candidate_joins_onto_the_root() {
    let ctx = context("/srv/data");
    assert_eq!(ctx.candidate("a/b"), "/srv/data/a/b");
    assert_eq!(ctx.candidate(""), "/srv/data/");
    assert_eq!(ctx.candidate("../../etc"), "/srv/data/../../etc");
    assert_eq!(ctx.candidate("/etc"), "/etc");
}

#[test]
fn resolve_takes_the_root_and_what_lies_below() {
    let ctx = context("/srv/data");
    let root = ctx.resolve(Some("/srv/data")).unwrap();
    assert_eq!(root.path(), "/srv/data");
    assert_eq!(root.root(), "/srv/data");
    assert!(root.is_root());
    assert_eq!(root.relative(), "");
    let below = ctx.resolve(Some("/srv/data/a/b.txt")).unwrap();
    assert_eq!(below.path(), "/srv/data/a/b.txt");
    assert!(!below.is_root());
    assert_eq!(below.relative(), "a/b.txt");
    assert_eq!(below.parent_relative(), "a");
    assert_eq!(below.name(), Some("b.txt".to_string()));
}

#[test]
fn resolve_refuses_what_the_file_system_did_not_find() {
    let ctx = context("/srv/data");
    assert_eq!(ctx.resolve(None).unwrap_err(), GatewayError::NotFound);
}

#[test]
fn resolve_refuses_paths_outside_the_root() {
    let ctx = context("/srv/data");
    for outside in ["/etc", "/etc/passwd", "/srv", "/", "/srv/database", "/srv/data2/x", ""] {
        assert_eq!(
            ctx.resolve(Some(outside)).unwrap_err(),
            GatewayError::Forbidden,
            "{:?}",
            outside
        );
    }
}

#[test]
fn resolve_refuses_paths_that_are_not_in_normal_form() {
    let ctx = context("/srv/data");
    for odd in [
        "/srv/data/",
        "/srv/data/../../etc",
        "/srv/data/a/../b",
        "/srv/data//a",
        "/srv/data/./a",
        "/srv/data/..",
    ] {
        assert_eq!(ctx.resolve(Some(odd)).unwrap_err(), GatewayError::Forbidden, "{:?}", odd);
    }
}

#[test]
fn resolve_answers_the_same_every_time() {
    let ctx = context("/srv/data");
    assert_eq!(ctx.resolve(None).unwrap_err(), GatewayError::NotFound);
    assert_eq!(ctx.resolve(None).unwrap_err(), GatewayError::NotFound);
}

#[test]
fn resolve_under_the_top_directory_takes_every_absolute_path() {
    let ctx = context("/");
    assert_eq!(ctx.resolve(Some("/")).unwrap().path(), "/");
    assert_eq!(ctx.resolve(Some("/etc/passwd")).unwrap().relative(), "etc/passwd");
    assert_eq!(ctx.resolve(Some("etc")).unwrap_err(), GatewayError::Forbidden);
}

#[test]
fn root_path_is_the_root() {
    let ctx = context("/srv/data");
    let root = ctx.root_path();
    assert_eq!(root.path(), "/srv/data");
    assert!(root.is_root());
    assert_eq!(root.name(), Some("data".to_string()));
    assert_eq!(context("/").root_path().name(), None);
}

#[test]
fn child_enters_a_name() {
    let ctx = context("/srv/data");
    let dir = ctx.resolve(Some("/srv/data/a")).unwrap();
    let child = dir.child("b.txt").unwrap();
    assert_eq!(child.path(), "/srv/data/a/b.txt");
    assert_eq!(child.root(), "/srv/data");
    assert_eq!(child.relative(), "a/b.txt");
    assert_eq!(ctx.root_path().child("x").unwrap().path(), "/srv/data/x");
    assert_eq!(context("/").root_path().child("x").unwrap().path(), "/x");
}

#[test]
fn child_refuses_what_is_no_name() {
    let dir = context("/srv/data").root_path();
    for bad in ["", ".", "..", "a/b", "/a", "a/", "../x", "/"] {
        assert_eq!(dir.child(bad).unwrap_err(), GatewayError::Forbidden, "{:?}", bad);
    }
    assert!(dir.child("...").is_ok());
    assert!(dir.child(".hidden").is_ok());
    assert!(dir.child("a b").is_ok());
}

#[test]
fn sibling_stays_in_the_same_directory() {
    let ctx = context("/srv/data");
    let entry = ctx.resolve(Some("/srv/data/a/old.txt")).unwrap();
    assert_eq!(entry.sibling("new.txt").unwrap().path(), "/srv/data/a/new.txt");
    let top = ctx.resolve(Some("/srv/data/old")).unwrap();
    assert_eq!(top.sibling("new").unwrap().path(), "/srv/data/new");
    let under_top = context("/").resolve(Some("/old")).unwrap();
    assert_eq!(under_top.sibling("new").unwrap().path(), "/new");
}

#[test]
fn sibling_refuses_bad_names_and_the_root() {
    let ctx = context("/srv/data");
    let entry = ctx.resolve(Some("/srv/data/a/old.txt")).unwrap();
    for bad in ["", ".", "..", "x/y", "../x", "/etc/passwd"] {
        assert_eq!(entry.sibling(bad).unwrap_err(), GatewayError::Forbidden, "{:?}", bad);
    }
    assert_eq!(ctx.root_path().sibling("other").unwrap_err(), GatewayError::Forbidden);
}
