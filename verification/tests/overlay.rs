use lazynb::nb::Note;
use lazynb::overlay::{Action, Key, PickItem, Picker, Shell, Step};
use lazynb::search::{parse_rg, Search};

fn picker() -> Picker {
    Picker::new(
        "Pick".to_string(),
        vec![
            PickItem::new("Alpha".to_string(), Action::SelectNote("/a".to_string())),
            PickItem::new("beta".to_string(), Action::Refresh),
            PickItem::new("ALPINE".to_string(), Action::Close),
        ],
    )
}

fn is_select(a: &Action, p: &str) -> bool {
    matches!(a, Action::SelectNote(x) if x == p)
}

#[test]
fn picker_defaults() {
    let p = picker();
    assert_eq!(p.title(), "Pick");
    assert_eq!(p.empty_text(), "Nothing here.");
    assert_eq!(p.size(), (60, 70));
    assert_eq!(p.rows(), ["Alpha", "beta", "ALPINE"]);
    let p = p.empty_note("None.".to_string()).sized(70, 80);
    assert_eq!(p.empty_text(), "None.");
    assert_eq!(p.size(), (70, 80));
}

#[test]
fn picker_filters_case_insensitively() {
    let mut p = picker();
    p.on_key(Key::Char('a'));
    p.on_key(Key::Char('L'));
    assert_eq!(p.query(), "aL");
    assert_eq!(p.rows(), ["Alpha", "ALPINE"]);
    p.on_key(Key::Char('x'));
    assert!(p.rows().is_empty());
    assert!(matches!(p.on_key(Key::Enter), Action::Nothing));
}

#[test]
fn picker_navigation_and_choice() {
    let mut p = picker();
    assert!(is_select(&p.on_key(Key::Enter), "/a"));
    p.on_key(Key::Down);
    p.on_key(Key::Down);
    p.on_key(Key::Down);
    assert_eq!(p.selected(), 2);
    assert!(matches!(p.on_key(Key::Enter), Action::Close));
    p.on_key(Key::Up);
    assert!(matches!(p.on_key(Key::Enter), Action::Refresh));
    p.on_key(Key::Up);
    p.on_key(Key::Up);
    assert_eq!(p.selected(), 0);
    assert!(matches!(p.on_key(Key::Esc), Action::Close));
    assert!(matches!(p.on_key(Key::Tab), Action::Nothing));
}

#[test]
fn picker_selection_clamped_on_filter() {
    let mut p = picker();
    p.on_key(Key::Down);
    p.on_key(Key::Down);
    p.on_key(Key::Char('b'));
    assert_eq!(p.rows(), ["beta"]);
    assert_eq!(p.selected(), 0);
    assert!(matches!(p.on_key(Key::Enter), Action::Refresh));
}

#[test]
fn erase_undoes_type_law() {
    let mut p = picker();
    p.on_key(Key::Char('p'));
    let before = p.rows();
    p.on_key(Key::Char('h'));
    p.on_key(Key::Backspace);
    assert_eq!(p.query(), "p");
    assert_eq!(p.rows(), before);
    p.on_key(Key::Backspace);
    p.on_key(Key::Backspace);
    assert_eq!(p.query(), "");
    assert_eq!(p.rows().len(), 3);
}

#[test]
fn shell_submit_decisions() {
    let mut s = Shell::new();
    assert_eq!(s.output().len(), 3);
    assert!(matches!(s.on_key(Key::Enter), Step::Act(Action::Nothing)));
    for c in " exit ".chars() {
        s.on_key(Key::Char(c));
    }
    assert!(matches!(s.on_key(Key::Enter), Step::Act(Action::Close)));
    let mut s = Shell::new();
    for c in "quit".chars() {
        s.on_key(Key::Char(c));
    }
    assert!(matches!(s.on_key(Key::Enter), Step::Act(Action::Close)));
    let mut s = Shell::new();
    for c in "  ls  ".chars() {
        s.on_key(Key::Char(c));
    }
    match s.on_key(Key::Enter) {
        Step::Run(l) => assert_eq!(l, "ls"),
        _ => panic!("expected a command to run"),
    }
    assert!(matches!(s.on_key(Key::Esc), Step::Act(Action::Close)));
}

#[test]
fn shell_records_output_and_history() {
    let mut s = Shell::new();
    for c in "ls".chars() {
        s.on_key(Key::Char(c));
    }
    let a = s.record("ls".to_string(), vec!["one".to_string(), "two".to_string()]);
    assert!(matches!(a, Action::Refresh));
    assert_eq!(&s.output()[3..], ["nb> ls", "one", "two", ""]);
    assert_eq!(s.input(), "");
    s.record("add".to_string(), vec![]);
    assert_eq!(&s.output()[7..], ["nb> add", "(no output)", ""]);
}

#[test]
fn shell_history_walk() {
    let mut s = Shell::new();
    s.record("one".to_string(), vec![]);
    s.record("two".to_string(), vec![]);
    s.on_key(Key::Up);
    assert_eq!(s.input(), "two");
    s.on_key(Key::Up);
    assert_eq!(s.input(), "one");
    s.on_key(Key::Up);
    assert_eq!(s.input(), "one");
    s.on_key(Key::Down);
    assert_eq!(s.input(), "two");
    s.on_key(Key::Down);
    assert_eq!(s.input(), "");
    s.on_key(Key::Backspace);
    assert_eq!(s.input(), "");
}

#[test]
fn up_recalls_last_command_law() {
    let mut s = Shell::new();
    s.record("first".to_string(), vec!["x".to_string()]);
    s.record("last".to_string(), vec![]);
    s.on_key(Key::Up);
    assert_eq!(s.input(), "last");
}

#[test]
fn ripgrep_lines() {
    let h = parse_rg("/nb/a.md:12:  some: text  ").unwrap();
    assert_eq!((h.path.as_str(), h.line, h.text.as_str()), ("/nb/a.md", 12, "some: text"));
    assert!(parse_rg("no colon").is_none());
    assert!(parse_rg("/a:notnum:x").is_none());
    assert!(parse_rg("/a:7").is_none());
    assert!(parse_rg("/a:4294967296:x").is_none());
    let h = parse_rg(":0:").unwrap();
    assert_eq!((h.path.as_str(), h.line, h.text.as_str()), ("", 0, ""));
}

fn note(id: &str, path: &str, title: &str) -> Note {
    Note { id: id.to_string(), path: path.to_string(), title: title.to_string() }
}

#[test]
fn search_flow() {
    let notes = vec![note("1", "/nb/a.md", "A"), note("2", "/nb/b.md", "B")];
    let mut s = Search::new("nb".to_string(), &notes);
    assert_eq!(s.note(), "type to grep this notebook (ripgrep)");
    assert_eq!(s.files(), &["/nb/a.md", "/nb/b.md"]);
    assert_eq!(s.label_of(&"/nb/b.md".to_string()).as_deref(), Some("[2] B"));
    assert_eq!(s.label_of(&"/nb/c.md".to_string()), None);
    assert!(matches!(s.on_key(Key::Char(' ')), Step::Act(Action::Nothing)));
    match s.on_key(Key::Char('x')) {
        Step::Run(q) => assert_eq!(q, "x"),
        _ => panic!("expected a grep"),
    }
    s.show_results(Some("/nb/a.md:3:x marks\nnoise\n/nb/b.md:1:another x\n"));
    assert_eq!(s.note(), "2 matches");
    assert_eq!(s.results().len(), 2);
    s.on_key(Key::Down);
    assert!(is_select(&match s.on_key(Key::Enter) {
        Step::Act(a) => a,
        _ => panic!(),
    }, "/nb/b.md"));
    s.show_results(Some(""));
    assert_eq!(s.note(), "no matches");
    s.show_results(None);
    assert_eq!(s.note(), "ripgrep (rg) not found on PATH");
    assert!(matches!(s.on_key(Key::Enter), Step::Act(Action::Nothing)));
}

#[test]
fn search_results_capped_law() {
    let notes = vec![note("1", "/nb/a.md", "A")];
    let mut s = Search::new("nb".to_string(), &notes);
    let out: String = (0..250).map(|i| format!("/nb/a.md:{i}:hit\n")).collect();
    s.show_results(Some(&out));
    assert_eq!(s.results().len(), 200);
    assert_eq!(s.note(), "200 matches");
    assert_eq!(s.results()[199].line, 199);
}

#[test]
fn search_without_files_does_not_grep() {
    let mut s = Search::new("nb".to_string(), &[]);
    assert!(matches!(s.on_key(Key::Char('q')), Step::Act(Action::Nothing)));
    assert_eq!(s.note(), "type to grep this notebook (ripgrep)");
}

#[test]
fn actions_that_close_the_overlay() {
    assert!(!Action::Nothing.closes_overlay());
    assert!(Action::Close.closes_overlay());
    assert!(!Action::Refresh.closes_overlay());
    assert!(Action::SelectNote(String::new()).closes_overlay());
    assert!(Action::SetTagFilter(None).closes_overlay());
}

#[test]
fn ripgrep_arguments() {
    let notes = vec![note("1", "/nb/a.md", "A"), note("2", "/nb/b.md", "B")];
    let s = Search::new("nb".to_string(), &notes);
    assert_eq!(
        s.rg_args(&"todo".to_string()),
        [
            "--line-number",
            "--no-heading",
            "--color",
            "never",
            "--smart-case",
            "--max-count",
            "20",
            "-e",
            "todo",
            "--",
            "/nb/a.md",
            "/nb/b.md",
        ]
    );
}

#[test]
fn overlay_sizes() {
    let s = Search::new("nb".to_string(), &[]);
    assert_eq!(s.size(), (80, 70));
    assert!(!s.animating());
    let sh = Shell::new();
    assert_eq!(sh.size(), (70, 60));
    assert!(!sh.animating());
}
