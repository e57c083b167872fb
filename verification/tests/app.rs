use lazynb::app::{browse_key, App, BrowseCommand, Fetch, Panel};
use lazynb::graph::{graph_edges, graph_key, EdgeKind, Graph, GraphKey, GraphNode};
use lazynb::nb::Note;
use lazynb::overlay::{Action, Key};

fn note(id: &str, path: &str, title: &str) -> Note {
    Note { id: id.to_string(), path: path.to_string(), title: title.to_string() }
}

fn nbs(names: &[&str]) -> Vec<String> {
    names.iter().map(|s| s.to_string()).collect()
}

fn loaded() -> App {
    let mut app = App::new(nbs(&["home", "thoth"]), "thoth".to_string());
    let f = app.reload_notes(
        Ok(vec![
            note("1", "/nb/thoth/a.md", "Alpha"),
            note("2", "/nb/thoth/b.md", "Beta"),
            note("3", "/nb/thoth/c.md", "Gamma"),
        ]),
        vec![],
    );
    assert!(matches!(f, Fetch::Preview(ref p) if p == "/nb/thoth/a.md"));
    app
}

#[test]
fn new_selects_the_current_notebook() {
    let app = App::new(nbs(&["home", "thoth"]), "thoth".to_string());
    assert_eq!(app.notebook_idx, 1);
    assert_eq!(app.current_notebook().as_deref(), Some("thoth"));
    assert!(app.current_note().is_none());
    assert!(app.focus == Panel::Notes);
    let app = App::new(nbs(&["home"]), "gone".to_string());
    assert_eq!(app.notebook_idx, 0);
    let app = App::new(vec![], String::new());
    assert!(app.current_notebook().is_none());
}

#[test]
fn reload_sets_status_and_selection() {
    let app = loaded();
    assert_eq!(app.status, "thoth · 3 notes");
    assert_eq!(app.note_idx, 0);
    assert_eq!(app.current_note().unwrap().title, "Alpha");
}

#[test]
fn reload_with_tag_filter_keeps_tagged_notes() {
    let mut app = loaded();
    let f = app.apply(Action::SetTagFilter(Some("rust".to_string())));
    assert!(matches!(f, Fetch::Notes));
    let f = app.reload_notes(
        Ok(vec![note("1", "/a.md", "A"), note("2", "/b.md", "B"), note("3", "/c.md", "C")]),
        vec!["/c.md".to_string(), "/b.md".to_string()],
    );
    assert!(matches!(f, Fetch::Preview(ref p) if p == "/b.md"));
    assert_eq!(app.notes.len(), 2);
    assert_eq!(app.notes[1].path, "/c.md");
    assert_eq!(app.status, "thoth · 2 notes · #rust");
}

#[test]
fn reload_error_keeps_notes() {
    let mut app = loaded();
    let f = app.reload_notes(Err("nb exploded".to_string()), vec![]);
    assert!(matches!(f, Fetch::Nothing));
    assert_eq!(app.status, "error: nb exploded");
    assert_eq!(app.notes.len(), 3);
}

#[test]
fn empty_notebook_clears_preview() {
    let mut app = loaded();
    app.load_preview(Ok("line one\nline two\n".to_string()));
    assert_eq!(app.preview, ["line one", "line two"]);
    let f = app.reload_notes(Ok(vec![]), vec![]);
    assert!(matches!(f, Fetch::Nothing));
    assert!(app.preview.is_empty());
    assert_eq!(app.status, "thoth · 0 notes");
}

#[test]
fn unreadable_note_preview() {
    let mut app = loaded();
    app.load_preview(Err("No such file".to_string()));
    assert_eq!(app.preview, ["<could not read note: No such file>"]);
}

#[test]
fn next_and_prev_wrap_around() {
    let mut app = loaded();
    assert!(matches!(app.prev(), Fetch::Preview(ref p) if p == "/nb/thoth/c.md"));
    assert_eq!(app.note_idx, 2);
    assert!(matches!(app.next(), Fetch::Preview(ref p) if p == "/nb/thoth/a.md"));
    assert_eq!(app.note_idx, 0);
    app.toggle_focus();
    assert!(app.focus == Panel::Notebooks);
    assert!(matches!(app.next(), Fetch::Notes));
    assert_eq!(app.notebook_idx, 0);
    assert!(matches!(app.prev(), Fetch::Notes));
    assert_eq!(app.notebook_idx, 1);
}

#[test]
fn prev_undoes_next_law() {
    let mut app = loaded();
    for _ in 0..3 {
        let before = app.note_idx;
        app.next();
        app.prev();
        assert_eq!(app.note_idx, before);
        app.next();
    }
}

#[test]
fn toggle_twice_law() {
    let mut app = loaded();
    app.toggle_focus();
    app.toggle_focus();
    assert!(app.focus == Panel::Notes);
}

#[test]
fn moving_in_an_empty_panel_does_nothing() {
    let mut app = App::new(vec![], String::new());
    assert!(matches!(app.next(), Fetch::Nothing));
    app.toggle_focus();
    assert!(matches!(app.prev(), Fetch::Nothing));
}

#[test]
fn open_selected_requests_the_note() {
    let mut app = loaded();
    app.next();
    app.open_selected();
    assert!(app.should_quit);
    assert_eq!(app.open_request.as_deref(), Some("/nb/thoth/b.md"));
    let mut empty = App::new(vec![], String::new());
    empty.open_selected();
    assert!(!empty.should_quit);
    assert!(empty.open_request.is_none());
}

#[test]
fn refresh_keeps_the_selected_notebook() {
    let mut app = loaded();
    let f = app.refresh(Ok(nbs(&["archive", "home", "thoth"])));
    assert!(matches!(f, Fetch::Notes));
    assert_eq!(app.notebook_idx, 2);
    app.refresh(Ok(nbs(&["other"])));
    assert_eq!(app.notebook_idx, 0);
    app.refresh(Ok(vec![]));
    assert_eq!(app.notebooks, ["other"]);
    app.refresh(Err("failed".to_string()));
    assert_eq!(app.notebooks, ["other"]);
}

#[test]
fn select_note_switches_notebook_and_clears_filter() {
    let mut app = loaded();
    app.apply(Action::SetTagFilter(Some("t".to_string())));
    let f = app.apply(Action::SelectNote("/nb/home/x.md".to_string()));
    assert!(matches!(f, Fetch::NotesThenSelect(ref p) if p == "/nb/home/x.md"));
    assert_eq!(app.notebook_idx, 0);
    assert!(app.tag_filter.is_none());
    app.reload_notes(Ok(vec![note("9", "/nb/home/w.md", "W"), note("5", "/nb/home/x.md", "X")]), vec![]);
    let f = app.select_path(&"/nb/home/x.md".to_string());
    assert!(matches!(f, Fetch::Preview(ref p) if p == "/nb/home/x.md"));
    assert_eq!(app.current_note().unwrap().id, "5");
    assert!(matches!(app.select_path(&"/nowhere.md".to_string()), Fetch::Nothing));
    assert_eq!(app.note_idx, 1);
}

#[test]
fn apply_simple_actions() {
    let mut app = loaded();
    assert!(matches!(app.apply(Action::Nothing), Fetch::Nothing));
    assert!(matches!(app.apply(Action::Close), Fetch::Nothing));
    assert!(matches!(app.apply(Action::Refresh), Fetch::Notebooks));
    assert!(matches!(app.apply(Action::SetTagFilter(None)), Fetch::Notes));
}

#[test]
fn tag_picker_rows() {
    let app = loaded();
    let p = app.open_tag_list(vec!["rust".to_string(), "notes".to_string()]).unwrap();
    assert_eq!(p.title(), "Tags in thoth");
    assert_eq!(p.empty_text(), "No tags in this notebook.");
    assert_eq!(p.rows(), ["[ all notes ]", "#rust", "#notes"]);
    assert!(App::new(vec![], String::new()).open_tag_list(vec![]).is_none());
}

#[test]
fn backlink_picker_rows() {
    let app = loaded();
    assert_eq!(app.backlinks_query().as_deref(), Some("[[Alpha]]"));
    let all = vec![note("2", "/nb/thoth/b.md", "Beta"), note("3", "/nb/thoth/c.md", "Gamma")];
    let paths = vec![
        "/nb/thoth/a.md".to_string(),
        "/nb/thoth/c.md".to_string(),
        "/unknown.md".to_string(),
        "/nb/thoth/b.md".to_string(),
    ];
    let mut p = app.open_backlinks(paths, all).unwrap();
    assert_eq!(p.title(), "Backlinks: Alpha");
    assert_eq!(p.size(), (70, 70));
    assert_eq!(p.rows(), ["[3] Gamma", "[2] Beta"]);
    assert!(matches!(p.on_key(Key::Enter), Action::SelectNote(ref x) if x == "/nb/thoth/c.md"));
}

#[test]
fn link_picker_rows() {
    let mut app = loaded();
    app.load_preview(Ok("see [[beta]] and [[3]] and [[Nowhere|x]]".to_string()));
    let mut p = app.open_links(&vec![]);
    assert_eq!(p.title(), "Links in this note");
    assert_eq!(p.rows(), ["→ [2] Beta", "→ [3] Gamma", "→ Nowhere  (unresolved)"]);
    assert!(matches!(p.on_key(Key::Enter), Action::SelectNote(ref x) if x == "/nb/thoth/b.md"));
    p.on_key(Key::Down);
    p.on_key(Key::Down);
    assert!(matches!(p.on_key(Key::Enter), Action::Nothing));
}

#[test]
fn search_overlay_for_the_notebook() {
    let app = loaded();
    let s = app.open_search(vec![note("1", "/nb/thoth/a.md", "Alpha")]).unwrap();
    assert_eq!(s.notebook(), "thoth");
    assert_eq!(s.files(), &["/nb/thoth/a.md"]);
}

#[test]
fn graph_edges_links_then_tags() {
    let notes = vec![
        note("1", "/n/a.md", "Alpha"),
        note("2", "/n/b.md", "Beta"),
        note("3", "/n/c.md", "Gamma"),
        note("4", "/n/d.md", "Delta"),
    ];
    let texts = vec![
        "[[beta]] [[Alpha]] [[3]] #x".to_string(),
        "[[alpha]] #x #y".to_string(),
        "#y".to_string(),
        "#z [[nowhere]]".to_string(),
    ];
    let edges = graph_edges(&notes, &texts);
    assert_eq!(
        edges,
        vec![
            (0, 1, EdgeKind::Link),
            (0, 2, EdgeKind::Link),
            (1, 2, EdgeKind::Tag),
        ]
    );
}

#[test]
fn graph_is_simple_law() {
    let notes: Vec<Note> = (0..5).map(|i| note(&i.to_string(), &format!("/n/{i}.md"), &format!("N{i}"))).collect();
    let texts: Vec<String> = (0..5).map(|i| format!("[[N{}]] [[N{}]] [[{}]] #t #u{}", (i + 1) % 5, i, (i + 2) % 5, i % 2)).collect();
    let edges = graph_edges(&notes, &texts);
    for (k, e) in edges.iter().enumerate() {
        assert!(e.0 != e.1 && e.0 < 5 && e.1 < 5);
        for f in &edges[k + 1..] {
            assert!((e.0.min(e.1), e.0.max(e.1)) != (f.0.min(f.1), f.0.max(f.1)));
        }
    }
    assert!(!edges.is_empty());
}

#[test]
fn graph_keys() {
    assert!(matches!(graph_key(Key::Esc, 0, 3), GraphKey::Close));
    assert!(matches!(graph_key(Key::Enter, 1, 3), GraphKey::Open(1)));
    assert!(matches!(graph_key(Key::Enter, 0, 0), GraphKey::Ignore));
    assert!(matches!(graph_key(Key::Down, 2, 3), GraphKey::Select(0)));
    assert!(matches!(graph_key(Key::Char('j'), 0, 3), GraphKey::Select(1)));
    assert!(matches!(graph_key(Key::Tab, 0, 3), GraphKey::Select(1)));
    assert!(matches!(graph_key(Key::Up, 0, 3), GraphKey::Select(2)));
    assert!(matches!(graph_key(Key::Char('k'), 2, 3), GraphKey::Select(1)));
    assert!(matches!(graph_key(Key::Left, 0, 0), GraphKey::Ignore));
    assert!(matches!(graph_key(Key::Char('t'), 0, 3), GraphKey::ToggleTags));
    assert!(matches!(graph_key(Key::Char('r'), 0, 3), GraphKey::Relayout));
    assert!(matches!(graph_key(Key::Char('q'), 0, 3), GraphKey::Ignore));
}

#[test]
fn link_to_another_notebook_switches_notebook() {
    let mut app = loaded();
    app.load_preview(Ok("[[delta]] then [[Beta]]".to_string()));
    let others = vec![note("7", "/nb/home/d.md", "Delta"), note("8", "/nb/home/b.md", "Beta")];
    let mut p = app.open_links(&others);
    assert_eq!(p.rows(), ["→ [7] Delta", "→ [2] Beta"]);
    let a = p.on_key(Key::Enter);
    assert!(matches!(a, Action::SelectNote(ref x) if x == "/nb/home/d.md"));
    let f = app.apply(a);
    assert!(matches!(f, Fetch::NotesThenSelect(ref x) if x == "/nb/home/d.md"));
    assert_eq!(app.current_notebook().as_deref(), Some("home"));
}

#[test]
fn browse_key_bindings() {
    assert!(matches!(browse_key(Key::Char('q')), BrowseCommand::Quit));
    assert!(matches!(browse_key(Key::Esc), BrowseCommand::Quit));
    assert!(matches!(browse_key(Key::Char('j')), BrowseCommand::Next));
    assert!(matches!(browse_key(Key::Down), BrowseCommand::Next));
    assert!(matches!(browse_key(Key::Char('k')), BrowseCommand::Prev));
    assert!(matches!(browse_key(Key::Up), BrowseCommand::Prev));
    assert!(matches!(browse_key(Key::Tab), BrowseCommand::ToggleFocus));
    assert!(matches!(browse_key(Key::Char('1')), BrowseCommand::Focus(Panel::Notebooks)));
    assert!(matches!(browse_key(Key::Char('2')), BrowseCommand::Focus(Panel::Notes)));
    assert!(matches!(browse_key(Key::Char('r')), BrowseCommand::Reload));
    assert!(matches!(browse_key(Key::Char('t')), BrowseCommand::TagList));
    assert!(matches!(browse_key(Key::Char('b')), BrowseCommand::Backlinks));
    assert!(matches!(browse_key(Key::Char('l')), BrowseCommand::Links));
    assert!(matches!(browse_key(Key::Char('/')), BrowseCommand::Search));
    assert!(matches!(browse_key(Key::Char('g')), BrowseCommand::Graph));
    assert!(matches!(browse_key(Key::Char(':')), BrowseCommand::Shell));
    assert!(matches!(browse_key(Key::Enter), BrowseCommand::Open));
    assert!(matches!(browse_key(Key::Char('x')), BrowseCommand::Ignore));
    assert!(matches!(browse_key(Key::Left), BrowseCommand::Ignore));
}

fn graph_node(id: &str, path: &str) -> GraphNode {
    GraphNode { id: id.to_string(), title: id.to_uppercase(), path: path.to_string() }
}

#[test]
fn graph_view_keys() {
    let mut g = Graph::new(
        vec![graph_node("a", "/a.md"), graph_node("b", "/b.md"), graph_node("c", "/c.md")],
        vec![(0, 1, EdgeKind::Link), (1, 2, EdgeKind::Tag)],
    );
    assert_eq!(g.selected(), 0);
    assert!(g.show_tags());
    assert!(matches!(g.on_key(Key::Up), Action::Nothing));
    assert_eq!(g.selected(), 2);
    assert!(matches!(g.on_key(Key::Tab), Action::Nothing));
    assert_eq!(g.selected(), 0);
    g.on_key(Key::Char('j'));
    assert!(matches!(g.on_key(Key::Enter), Action::SelectNote(ref p) if p == "/b.md"));
    assert!(matches!(g.on_key(Key::Char('t')), Action::Nothing));
    assert!(!g.show_tags());
    assert!(matches!(g.on_key(Key::Char('x')), Action::Nothing));
    assert!(matches!(g.on_key(Key::Esc), Action::Close));
    assert_eq!(g.selected(), 1);
    assert_eq!(g.node_count(), 3);
    assert_eq!(g.node(2).title, "C");
    assert_eq!(g.edges().len(), 2);
    assert!(Graph::relayout(Key::Char('t')));
    assert!(Graph::relayout(Key::Char('r')));
    assert!(!Graph::relayout(Key::Enter));
    let mut empty = Graph::new(vec![], vec![]);
    assert!(matches!(empty.on_key(Key::Enter), Action::Nothing));
    assert!(matches!(empty.on_key(Key::Down), Action::Nothing));
    assert_eq!(empty.selected(), 0);
}

#[test]
fn search_opens_idle() {
    let app = loaded();
    let s = app.open_search(vec![]).unwrap();
    assert_eq!(s.note(), "type to grep this notebook (ripgrep)");
    assert!(s.results().is_empty());
}
