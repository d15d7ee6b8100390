use metapac::package::{remove_comment_and_trim_whitespace, Package};

#[test]
fn split_into_name_and_repo() {
    let x = "repo/name".to_string();
    let (name, repo) = Package::split_into_name_and_repo(&x);
    assert_eq!(name, "name");
    assert_eq!(repo, Some("repo".to_string()));

    let x = "something".to_string();
    let (name, repo) = Package::split_into_name_and_repo(&x);
    assert_eq!(name, "something");
    assert_eq!(repo, None);
}

#[test]
fn from() {
    let x = "myrepo/somepackage  #  ".to_string();
    let p = Package::try_from(&x).expect("this should be a valid package line");
    assert_eq!(p.name, "somepackage");
    assert_eq!(p.repo, Some("myrepo".to_string()));
}

#[test]
fn comment_only_line_is_no_package() {
    assert!(Package::try_from("   # just a comment").is_none());
    assert!(Package::try_from("").is_none());
}

#[test]
fn surrounding_white_space_is_trimmed() {
    assert_eq!(remove_comment_and_trim_whitespace("  ripgrep \t# fast grep"), "ripgrep");
    let p = Package::try_from("\t ripgrep  ").unwrap();
    assert_eq!(p.name, "ripgrep");
    assert_eq!(p.repo, None);
}

#[test]
fn qualified_name_renders_back() {
    let p = Package::try_from("myrepo/foo").unwrap();
    assert_eq!(p.repo.as_deref(), Some("myrepo"));
    assert_eq!(p.name, "foo");
    assert_eq!(p.render(), "myrepo/foo");
    let q = Package::try_from("a/b/c").unwrap();
    assert_eq!(q.repo.as_deref(), Some("a"));
    assert_eq!(q.name, "b/c");
    assert_eq!(q.render(), "a/b/c");
    assert_eq!(Package::try_from("bare").unwrap().render(), "bare");
}

#[test]
fn white_space_trimming_matches_std() {
    for text in [
        "  plain  ",
        "\u{3000}wide\u{2028}",
        "\u{85}\u{a0}x y\u{205f}\u{202f}",
        "\u{200b}zero width\u{200b}",
        "\t\n\r\u{b}\u{c}",
        "",
    ] {
        assert_eq!(metapac::text::trim(text), text.trim());
    }
}
