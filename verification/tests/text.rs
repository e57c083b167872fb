use lazynb::cli::parse_size;
use lazynb::path::{file_stem_of, notebook_of_path, path_file_name};
use lazynb::text::{eq_ignore_ascii_case, lines_of, trimmed};

#[test]
fn parses_width_by_height() {
    assert_eq!(parse_size("100x28"), Some((100, 28)));
    assert_eq!(parse_size(" 80 X 24 "), Some((80, 24)));
    assert_eq!(parse_size("+5x6"), Some((5, 6)));
}

#[test]
fn rejects_malformed_sizes() {
    assert_eq!(parse_size("100"), None);
    assert_eq!(parse_size("x"), None);
    assert_eq!(parse_size("70000x5"), None);
    assert_eq!(parse_size("-5x6"), None);
    assert_eq!(parse_size("5x6x7"), None);
    assert_eq!(parse_size("5 0x6"), None);
}

#[test]
fn size_round_trip_law() {
    for (w, h) in [(0u16, 0u16), (1, 2), (110, 30), (65535, 65535), (9, 10)] {
        assert_eq!(parse_size(&format!("{w}x{h}")), Some((w, h)));
    }
}

#[test]
fn notebook_is_the_parent_directory() {
    assert_eq!(notebook_of_path("/home/me/.nb/thoth/some_note.md").as_deref(), Some("thoth"));
    assert_eq!(notebook_of_path("thoth//a.md/").as_deref(), Some("thoth"));
    assert_eq!(notebook_of_path("./thoth/./a.md").as_deref(), Some("thoth"));
    assert_eq!(notebook_of_path("a.md"), None);
    assert_eq!(notebook_of_path("/a.md"), None);
    assert_eq!(notebook_of_path("./a.md"), None);
    assert_eq!(notebook_of_path("x/../a.md"), None);
    assert_eq!(notebook_of_path(""), None);
}

#[test]
fn file_names_and_stems() {
    assert_eq!(path_file_name("/a/b/note.md").as_deref(), Some("note.md"));
    assert_eq!(path_file_name("/a/b/.."), None);
    assert_eq!(file_stem_of(&"note.tar.gz".to_string()), "note.tar");
    assert_eq!(file_stem_of(&".hidden".to_string()), ".hidden");
    assert_eq!(file_stem_of(&"plain".to_string()), "plain");
}

#[test]
fn lines_like_str_lines() {
    for s in ["", "a", "a\n", "a\r\nb", "a\n\nb\n", "x\r", "\n", "a\rb\r\n"] {
        let expected: Vec<String> = s.lines().map(String::from).collect();
        assert_eq!(lines_of(s), expected, "input {s:?}");
    }
}

#[test]
fn trims_unicode_whitespace() {
    assert_eq!(trimmed("\u{3000} a b\t\n"), "a b");
    assert_eq!(trimmed("   "), "");
}

#[test]
fn ascii_case_insensitive_equality() {
    assert!(eq_ignore_ascii_case(&"Home".to_string(), &"hOME".to_string()));
    assert!(!eq_ignore_ascii_case(&"Été".to_string(), &"ÉTÉ".to_string()));
    assert!(!eq_ignore_ascii_case(&"a".to_string(), &"ab".to_string()));
    assert!(!eq_ignore_ascii_case(&"[".to_string(), &"{".to_string()));
}
