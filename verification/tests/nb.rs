use lazynb::nb::{command_words, current_notebook, note_entries, notebooks, notes, tag_names, title_for};

#[test]
fn notebook_names_one_per_line() {
    assert_eq!(notebooks("home\n  thoth \r\n\n work\n"), ["home", "thoth", "work"]);
    assert!(notebooks("").is_empty());
}

#[test]
fn current_notebook_is_trimmed() {
    assert_eq!(current_notebook("  thoth\n"), "thoth");
}

#[test]
fn listing_lines_give_id_and_path() {
    let out = "[8] /home/me/.nb/thoth/some_note.md\n  [thoth:2]   /x/y.md  \nnot a note\n[broken\n[] /z.md\n";
    let entries = note_entries(out);
    assert_eq!(
        entries,
        vec![
            ("8".to_string(), "/home/me/.nb/thoth/some_note.md".to_string()),
            ("thoth:2".to_string(), "/x/y.md".to_string()),
            ("".to_string(), "/z.md".to_string()),
        ]
    );
}

#[test]
fn titles_from_headings_or_file_names() {
    assert_eq!(title_for(Some("# My Note\n".to_string()), "/a/b.md"), "My Note");
    assert_eq!(title_for(Some("### Deep ##\n".to_string()), "/a/b.md"), "Deep ##");
    assert_eq!(title_for(Some("plain first line".to_string()), "/a/b.md"), "plain first line");
    assert_eq!(title_for(Some("   \n".to_string()), "/a/notes.v2.md"), "notes.v2");
    assert_eq!(title_for(None, "/a/readme"), "readme");
    assert_eq!(title_for(None, "/"), "/");
    assert_eq!(title_for(Some("#\n".to_string()), "/a/b.md"), "");
}

#[test]
fn notes_pair_entries_with_titles() {
    let entries = vec![
        ("1".to_string(), "/nb/a.md".to_string()),
        ("2".to_string(), "/nb/b.md".to_string()),
    ];
    let ns = notes(entries, vec![Some("# Alpha".to_string()), None]);
    assert_eq!(ns.len(), 2);
    assert_eq!((ns[0].id.as_str(), ns[0].path.as_str(), ns[0].title.as_str()), ("1", "/nb/a.md", "Alpha"));
    assert_eq!((ns[1].id.as_str(), ns[1].path.as_str(), ns[1].title.as_str()), ("2", "/nb/b.md", "b"));
}

#[test]
fn tag_names_drop_hashes_and_blanks() {
    assert_eq!(tag_names("#rust\n  #notes \n#\n\n##deep\n"), ["rust", "notes", "deep"]);
    assert!(tag_names("").is_empty());
}

#[test]
fn shell_line_words_without_leading_nb() {
    assert_eq!(command_words("nb  ls -a"), ["ls", "-a"]);
    assert_eq!(command_words("  ls\t--tags "), ["ls", "--tags"]);
    assert_eq!(command_words("nbx nb"), ["nbx", "nb"]);
    assert!(command_words("nb").is_empty());
    assert!(command_words("   ").is_empty());
}
