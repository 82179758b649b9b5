use claude_statusline::util::{is_white_space_char, path_basename, trim_whitespace};

#[test]
fn simple_path() {
    assert_eq!(path_basename("/home/user/project"), "project");
}

#[test]
fn trailing_slash() {
    assert_eq!(path_basename("/home/user/project/"), "project");
}

#[test]
fn root_path() {
    assert_eq!(path_basename("/"), "");
}

#[test]
fn bare_name() {
    assert_eq!(path_basename("venv"), "venv");
}

#[test]
fn empty_string() {
    assert_eq!(path_basename(""), "");
}

#[test]
fn deeply_nested() {
    assert_eq!(path_basename("/a/b/c/d/e"), "e");
}

#[test]
fn basename_edge_cases() {
    assert_eq!(path_basename("///"), "");
    assert_eq!(path_basename("a//b//"), "b");
    assert_eq!(path_basename("relative/dir"), "dir");
    assert_eq!(path_basename("/ünïcödé/ścieżka"), "ścieżka");
    for p in ["", "/", "a", "/a/", "a/b/c", "//x//y", "x/", "/é/ü/"] {
        let expected = p.rsplit('/').find(|s| !s.is_empty()).unwrap_or("");
        assert_eq!(path_basename(p), expected, "path {:?}", p);
    }
}

#[test]
fn basename_is_idempotent() {
    for p in ["/home/user/project/", "venv", "/", "a/b//"] {
        let once = path_basename(p);
        assert_eq!(path_basename(once), once);
    }
}

#[test]
fn white_space_matches_char_is_whitespace() {
    for code in 0u32..=0x10ffff {
        if let Some(c) = char::from_u32(code) {
            assert_eq!(is_white_space_char(c), c.is_whitespace(), "char {:#x}", code);
        }
    }
}

#[test]
fn trim_matches_str_trim() {
    for s in [
        "",
        "   ",
        " main\n",
        "\tfeature/x \r\n",
        "\u{3000}a b\u{85}",
        "\u{a0}\u{2028}",
        "no-space",
        " \u{200b}x",
    ] {
        assert_eq!(trim_whitespace(s), s.trim(), "string {:?}", s);
    }
}
