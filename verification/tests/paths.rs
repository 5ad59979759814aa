use confinuum::path::FilePath;

#[test]
fn parse_drops_empty_pieces_and_dots() {
    let p = FilePath::parse("/home//u/./proj/");
    assert_eq!(p.len(), 4);
    assert_eq!(p.to_string(), "/home/u/proj");
    assert!(p.is_absolute());
}

#[test]
fn parse_relative_path() {
    let p = FilePath::parse("sub/b");
    assert_eq!(p.len(), 2);
    assert!(!p.is_absolute());
    assert_eq!(p.to_string(), "sub/b");
}

#[test]
fn root_renders_as_one_separator() {
    let p = FilePath::parse("/");
    assert_eq!(p.len(), 1);
    assert_eq!(p.to_string(), "/");
    assert!(p.parent().is_none());
}

#[test]
fn join_appends_relative_and_replaces_by_absolute() {
    let base = FilePath::parse("/home/u");
    assert_eq!(base.join(&FilePath::parse("a/b")).to_string(), "/home/u/a/b");
    assert_eq!(base.join(&FilePath::parse("/etc")).to_string(), "/etc");
}

#[test]
fn strip_prefix_gives_the_rest() {
    let p = FilePath::parse("/home/u/proj/sub/b");
    let rest = p.strip_prefix(&FilePath::parse("/home/u/proj")).unwrap();
    assert_eq!(rest.to_string(), "sub/b");
    assert!(p.strip_prefix(&FilePath::parse("/home/v")).is_none());
    assert!(p.starts_with(&FilePath::parse("/home")));
    assert!(!p.starts_with(&FilePath::parse("/home/u/pro")));
}

#[test]
fn parent_drops_the_last_component() {
    let p = FilePath::parse("/home/u/a");
    assert_eq!(p.parent().unwrap().to_string(), "/home/u");
    assert!(FilePath::parse("").parent().is_none());
    assert_eq!(FilePath::parse("a").parent().unwrap().len(), 0);
}

#[test]
fn paths_are_compared_by_components() {
    let p = FilePath::parse("/home/u//a/");
    assert!(p.same(&FilePath::parse("/home/u/a")));
    assert!(!p.same(&FilePath::parse("home/u/a")));
    assert!(!p.same(&FilePath::parse("/home/u")));
    assert_eq!(p.component(0), "/");
    assert_eq!(p.component(3), "a");
    assert_eq!(p.slice(1, 3).to_string(), "home/u");
    assert_eq!(p.clone().to_string(), "/home/u/a");
    assert!(p.ends_with_name("a"));
    assert!(!p.ends_with_name("u"));
    assert!(!FilePath::empty().ends_with_name(""));
    assert!(FilePath::parse("nvim/init.lua").begins_with_name("nvim"));
    assert!(!FilePath::parse("/nvim").begins_with_name("nvim"));
    assert_eq!(FilePath::empty().len(), 0);
    assert_eq!(FilePath::empty().to_string(), "");
}

#[test]
fn reading_a_spelling_gives_the_path_back() {
    for text in ["/", "/a", "/a/b/c", "a", "a/b", "../a", "", ".git/config"] {
        let p = FilePath::parse(text);
        assert_eq!(p.to_string(), text);
        assert!(FilePath::parse(&p.to_string()).same(&p));
    }
    assert_eq!(FilePath::parse("./a/./b/.").to_string(), "a/b");
    assert_eq!(FilePath::parse("///").to_string(), "/");
    assert_eq!(FilePath::parse("a//b").len(), 2);
    assert_eq!(FilePath::parse("..").len(), 1);
}

#[test]
fn non_ascii_names_are_kept() {
    let p = FilePath::parse("/home/\u{00FC}ser/\u{6587}\u{4EF6}");
    assert_eq!(p.len(), 4);
    assert_eq!(p.component(2), "\u{00FC}ser");
    assert_eq!(p.to_string(), "/home/\u{00FC}ser/\u{6587}\u{4EF6}");
}
