//! Application state and the actions the key handler drives.
//!
//! The state changes are decided here; reading from `nb` and from disk is
//! the caller's part. A method that needs outside data answers with a
//! [`Fetch`] naming it, and the caller hands the data to the method that
//! [`Fetch`] names.

use vstd::prelude::*;
use crate::graph;
use crate::markup;
use crate::nb::Note;
use crate::overlay::{Action, Key, PickItem, Picker};
use crate::path;
use crate::search::Search;
use crate::text;

verus! {

/// Which panel currently has keyboard focus.
#[derive(Clone, Copy, PartialEq, Eq, Structural)]
pub enum Panel {
    Notebooks,
    Notes,
}

/// Outside data the app needs before it can go on.
pub enum Fetch {
    /// Nothing is needed.
    Nothing,
    /// List the notebooks, then call [`App::refresh`].
    Notebooks,
    /// List the notes of the selected notebook, then call [`App::reload_notes`].
    Notes,
    /// As [`Fetch::Notes`], then call [`App::select_path`] with this path.
    NotesThenSelect(String),
    /// Read the note at this path, then call [`App::load_preview`].
    Preview(String),
}

pub struct App {
    pub notebooks: Vec<String>,
    pub notes: Vec<Note>,
    pub notebook_idx: usize,
    pub note_idx: usize,
    pub focus: Panel,
    /// Lines of the selected note, for the preview pane.
    pub preview: Vec<String>,
    pub should_quit: bool,
    /// Set when the user opens a note: the path to hand to the editor once
    /// the TUI has torn down.
    pub open_request: Option<String>,
    pub status: String,
    /// Active tag filter for the notes panel, if any.
    pub tag_filter: Option<String>,
}

/// What a key does in the browse view (when no overlay is open).
pub enum BrowseCommand {
    /// Leave the program.
    Quit,
    /// Move down in the focused panel.
    Next,
    /// Move up in the focused panel.
    Prev,
    /// Switch focus between the panels.
    ToggleFocus,
    /// Focus this panel.
    Focus(Panel),
    /// Reload the current notebook.
    Reload,
    /// Open the tag list.
    TagList,
    /// Open the backlinks of the selected note.
    Backlinks,
    /// Open the links of the selected note.
    Links,
    /// Open the live grep.
    Search,
    /// Open the relationship graph.
    Graph,
    /// Open the nb shell.
    Shell,
    /// Open the selected note in the editor.
    Open,
    /// Nothing happens.
    Ignore,
}

/// The key bindings of the browse view.
pub open spec fn browse_binding(key: Key) -> BrowseCommand {
    match key {
        Key::Esc | Key::Char('q') => BrowseCommand::Quit,
        Key::Down | Key::Char('j') => BrowseCommand::Next,
        Key::Up | Key::Char('k') => BrowseCommand::Prev,
        Key::Tab => BrowseCommand::ToggleFocus,
        Key::Char('1') => BrowseCommand::Focus(Panel::Notebooks),
        Key::Char('2') => BrowseCommand::Focus(Panel::Notes),
        Key::Char('r') => BrowseCommand::Reload,
        Key::Char('t') => BrowseCommand::TagList,
        Key::Char('b') => BrowseCommand::Backlinks,
        Key::Char('l') => BrowseCommand::Links,
        Key::Char('/') => BrowseCommand::Search,
        Key::Char('g') => BrowseCommand::Graph,
        Key::Char(':') => BrowseCommand::Shell,
        Key::Enter => BrowseCommand::Open,
        _ => BrowseCommand::Ignore,
    }
}

/// What a key does in the browse view: `q`/`Esc` quit, `j`/`k` and the
/// arrows move, `Tab` switches focus, `1`/`2` focus a panel, `r` reloads,
/// `t`, `b`, `l`, `/`, `g` and `:` open the tag list, backlinks, links,
/// search, graph and shell, `Enter` opens the selected note.
pub fn browse_key(key: Key) -> (c: BrowseCommand)
    ensures
        c == browse_binding(key),
{
    match key {
        Key::Esc | Key::Char('q') => BrowseCommand::Quit,
        Key::Down | Key::Char('j') => BrowseCommand::Next,
        Key::Up | Key::Char('k') => BrowseCommand::Prev,
        Key::Tab => BrowseCommand::ToggleFocus,
        Key::Char('1') => BrowseCommand::Focus(Panel::Notebooks),
        Key::Char('2') => BrowseCommand::Focus(Panel::Notes),
        Key::Char('r') => BrowseCommand::Reload,
        Key::Char('t') => BrowseCommand::TagList,
        Key::Char('b') => BrowseCommand::Backlinks,
        Key::Char('l') => BrowseCommand::Links,
        Key::Char('/') => BrowseCommand::Search,
        Key::Char('g') => BrowseCommand::Graph,
        Key::Char(':') => BrowseCommand::Shell,
        Key::Enter => BrowseCommand::Open,
        _ => BrowseCommand::Ignore,
    }
}

/// An index into a list of `len` items: below `len`, or zero for an empty list.
pub open spec fn index_ok(idx: usize, len: nat) -> bool {
    if len == 0 {
        idx == 0
    } else {
        idx < len
    }
}

/// The notes of `ns` whose path is among `tagged`, in order.
pub open spec fn keep_tagged(ns: Seq<Note>, tagged: Seq<Seq<char>>) -> Seq<Note>
    decreases ns.len(),
{
    if ns.len() == 0 {
        seq![]
    } else {
        let before = keep_tagged(ns.drop_last(), tagged);
        if tagged.contains(ns.last().path@) {
            before.push(ns.last())
        } else {
            before
        }
    }
}

/// The status line after loading `count` notes of notebook `name`:
/// `name · N notes`, followed by ` · #tag` when a tag filter is active.
pub open spec fn status_line(name: Seq<char>, count: nat, filter: Option<String>) -> Seq<char> {
    name + " · "@ + text::decimal(count) + " notes"@ + match filter {
        Some(t) => " · #"@ + t@,
        None => Seq::<char>::empty(),
    }
}

/// The preview lines of a note: its lines, or a single line saying why it
/// could not be read.
pub open spec fn preview_of(content: Result<String, String>) -> Seq<Seq<char>> {
    match content {
        Ok(c) => text::lines(c@),
        Err(e) => seq!["<could not read note: "@ + e@ + ">"@],
    }
}

/// The first note whose path is `p`.
pub open spec fn first_with_path(ns: Seq<Note>, p: Seq<char>, k: int) -> bool {
    &&& 0 <= k < ns.len()
    &&& ns[k].path@ == p
    &&& forall|j: int| 0 <= j < k ==> (#[trigger] ns[j]).path@ != p
}

/// The position of the first note whose path is `p`, if any.
pub open spec fn note_at_path(ns: Seq<Note>, p: Seq<char>) -> Option<int> {
    if exists|k: int| first_with_path(ns, p, k) {
        Some(choose|k: int| first_with_path(ns, p, k))
    } else {
        None
    }
}

/// The notes that the backlink search found, as shown: each found path other
/// than the current note's, resolved to the first listed note with that path
/// (paths no listed note has are skipped).
pub open spec fn backlink_notes(paths: Seq<String>, all: Seq<Note>, me: Seq<char>) -> Seq<Note>
    decreases paths.len(),
{
    if paths.len() == 0 {
        seq![]
    } else {
        let before = backlink_notes(paths.drop_last(), all, me);
        let p = paths.last()@;
        if p != me && note_at_path(all, p) is Some {
            before.push(all[note_at_path(all, p)->0])
        } else {
            before
        }
    }
}

/// The label a picker shows for a note: `[id] title`.
pub open spec fn note_row(n: Note) -> Seq<char> {
    "["@ + n.id@ + "] "@ + n.title@
}

/// The row a link picker shows for a note it links to.
pub open spec fn note_link_row(n: Note) -> (Seq<char>, Action) {
    ("→ "@ + note_row(n), Action::SelectNote(n.path))
}

/// The row a link picker shows for a link target: the first note of the
/// current notebook (`notes`) that the target names, else the first note of
/// the other notebooks (`others`) that it names, else an unresolved row.
pub open spec fn link_row(notes: Seq<Note>, others: Seq<Note>, t: Seq<char>) -> (
    Seq<char>,
    Action,
) {
    match graph::resolve(notes, t) {
        Some(j) => note_link_row(notes[j]),
        None => match graph::resolve(others, t) {
            Some(j) => note_link_row(others[j]),
            None => ("→ "@ + t + "  (unresolved)"@, Action::Nothing),
        },
    }
}

/// The position after `i` on a ring of `len` positions.
pub open spec fn ring_next(i: int, len: int) -> int {
    (i + 1) % len
}

/// The position before `i` on a ring of `len` positions.
pub open spec fn ring_prev(i: int, len: int) -> int {
    (i + len - 1) % len
}

/// The other panel.
pub open spec fn other_panel(p: Panel) -> Panel {
    match p {
        Panel::Notebooks => Panel::Notes,
        Panel::Notes => Panel::Notebooks,
    }
}

/// Stepping back by one on a ring of `len` positions.
pub(crate) proof fn lemma_step_back(x: int, len: int)
    requires
        0 <= x < len,
    ensures
        (x + len - 1) % len == (if x == 0 {
            len - 1
        } else {
            x - 1
        }),
{
    if x == 0 {
        vstd::arithmetic::div_mod::lemma_small_mod((len - 1) as nat, len as nat);
    } else {
        vstd::arithmetic::div_mod::lemma_mod_add_multiples_vanish(x - 1, len);
        vstd::arithmetic::div_mod::lemma_small_mod((x - 1) as nat, len as nat);
    }
}

/// Stepping forward by one on a ring of `len` positions.
pub(crate) proof fn lemma_step_forward(x: int, len: int)
    requires
        0 <= x < len,
    ensures
        (x + 1) % len == (if x + 1 == len {
            0
        } else {
            x + 1
        }),
{
    if x + 1 == len {
        vstd::arithmetic::div_mod::lemma_mod_self_0(len);
    } else {
        vstd::arithmetic::div_mod::lemma_small_mod((x + 1) as nat, len as nat);
    }
}

/// Moving down then up in a panel, or up then down, returns to the same entry.
pub proof fn law_prev_undoes_next(i: int, len: int)
    requires
        0 <= i < len,
    ensures
        ring_prev(ring_next(i, len), len) == i,
        ring_next(ring_prev(i, len), len) == i,
{
    lemma_step_forward(i, len);
    let n = ring_next(i, len);
    lemma_step_back(n, len);
    lemma_step_back(i, len);
    let p = ring_prev(i, len);
    lemma_step_forward(p, len);
}

/// Switching focus twice returns it to the panel it started on.
pub proof fn law_toggle_twice(p: Panel)
    ensures
        other_panel(other_panel(p)) == p,
{
}

impl App {
    /// The selections point into their lists.
    pub open spec fn wf(&self) -> bool {
        &&& index_ok(self.notebook_idx, self.notebooks.len() as nat)
        &&& index_ok(self.note_idx, self.notes.len() as nat)
    }

    /// The name of the selected notebook, if there is one.
    pub open spec fn notebook_name(&self) -> Option<Seq<char>> {
        if self.notebook_idx < self.notebooks.len() {
            Some(self.notebooks@[self.notebook_idx as int]@)
        } else {
            None
        }
    }

    /// The selected note, if there is one.
    pub open spec fn selected_note(&self) -> Option<Note> {
        if self.note_idx < self.notes.len() {
            Some(self.notes@[self.note_idx as int])
        } else {
            None
        }
    }

    /// Everything but the preview is as in `other`.
    pub open spec fn same_but_preview(&self, other: &App) -> bool {
        &&& self.notebooks == other.notebooks
        &&& self.notes == other.notes
        &&& self.notebook_idx == other.notebook_idx
        &&& self.note_idx == other.note_idx
        &&& self.focus == other.focus
        &&& self.should_quit == other.should_quit
        &&& self.open_request == other.open_request
        &&& self.status == other.status
        &&& self.tag_filter == other.tag_filter
    }

    /// A new app over the notebooks `nb` lists, with `current` selected when
    /// it is one of them (else the first). No notes are loaded yet: the
    /// caller follows with [`Fetch::Notes`].
    pub fn new(notebooks: Vec<String>, current: String) -> (app: App)
        ensures
            app.wf(),
            app.notebooks == notebooks,
            app.notebook_idx == match text::index_of(text::views(notebooks@), current@) {
                Some(k) => k as usize,
                None => 0,
            },
            app.notes@.len() == 0,
            app.note_idx == 0,
            app.focus == Panel::Notes,
            app.preview@.len() == 0,
            !app.should_quit,
            app.open_request is None,
            app.status@.len() == 0,
            app.tag_filter is None,
    {
        let notebook_idx = match text::position(&notebooks, &current) {
            Some(k) => k,
            None => 0,
        };
        App {
            notebooks,
            notes: Vec::new(),
            notebook_idx,
            note_idx: 0,
            focus: Panel::Notes,
            preview: Vec::new(),
            should_quit: false,
            open_request: None,
            status: String::new(),
            tag_filter: None,
        }
    }

    pub fn current_note(&self) -> (n: Option<&Note>)
        ensures
            match self.selected_note() {
                Some(s) => n is Some && *n->0 == s,
                None => n is None,
            },
    {
        if self.note_idx < self.notes.len() {
            Some(&self.notes[self.note_idx])
        } else {
            None
        }
    }

    pub fn current_notebook(&self) -> (name: Option<String>)
        ensures
            match self.notebook_name() {
                Some(s) => name is Some && name->0@ == s,
                None => name is None,
            },
    {
        if self.notebook_idx < self.notebooks.len() {
            Some(self.notebooks[self.notebook_idx].clone())
        } else {
            None
        }
    }

    /// Take the notes listed for the selected notebook (`Err` with the message
    /// when listing failed) and, when a tag filter is active, the paths of the
    /// notes carrying that tag. The notes panel shows the first note; its
    /// preview is asked for with [`Fetch::Preview`].
    pub fn reload_notes(&mut self, listed: Result<Vec<Note>, String>, tagged: Vec<String>) -> (f:
        Fetch)
        requires
            old(self).wf(),
        ensures
            final(self).wf(),
            final(self).notebooks == old(self).notebooks,
            final(self).notebook_idx == old(self).notebook_idx,
            final(self).focus == old(self).focus,
            final(self).should_quit == old(self).should_quit,
            final(self).open_request == old(self).open_request,
            final(self).tag_filter == old(self).tag_filter,
            match (old(self).notebook_name(), listed) {
                (None, _) => *final(self) == *old(self) && f is Nothing,
                (Some(_), Err(e)) => {
                    &&& final(self).status@ == "error: "@ + e@
                    &&& final(self).notes == old(self).notes
                    &&& final(self).note_idx == old(self).note_idx
                    &&& final(self).preview == old(self).preview
                    &&& f is Nothing
                },
                (Some(name), Ok(ns)) => {
                    &&& final(self).notes@ == (if old(self).tag_filter is Some {
                        keep_tagged(ns@, text::views(tagged@))
                    } else {
                        ns@
                    })
                    &&& final(self).note_idx == 0
                    &&& final(self).status@ == status_line(
                        name,
                        final(self).notes.len() as nat,
                        old(self).tag_filter,
                    )
                    &&& if final(self).notes.len() == 0 {
                        final(self).preview@.len() == 0 && f is Nothing
                    } else {
                        &&& final(self).preview == old(self).preview
                        &&& f matches Fetch::Preview(p) && p == final(self).notes@[0].path
                    }
                },
            },
    {
        let name = match self.current_notebook() {
            Some(n) => n,
            None => return Fetch::Nothing,
        };
        let ns = match listed {
            Ok(ns) => ns,
            Err(e) => {
                let mut status = String::from_str("error: ");
                status.append(e.as_str());
                self.status = status;
                return Fetch::Nothing;
            },
        };
        let notes = if self.tag_filter.is_some() {
            let mut kept: Vec<Note> = Vec::new();
            let mut i: usize = 0;
            while i < ns.len()
                invariant
                    i <= ns.len(),
                    kept@ == keep_tagged(ns@.take(i as int), text::views(tagged@)),
                decreases ns.len() - i,
            {
                proof {
                    assert(ns@.take(i + 1).drop_last() =~= ns@.take(i as int));
                }
                if markup::contains_string(&tagged, &ns[i].path) {
                    kept.push(ns[i].clone());
                }
                i += 1;
            }
            proof {
                assert(ns@.take(ns.len() as int) =~= ns@);
            }
            kept
        } else {
            ns
        };
        self.notes = notes;
        self.note_idx = 0;
        let mut status = name;
        status.append(" · ");
        text::push_decimal(&mut status, self.notes.len());
        status.append(" notes");
        match &self.tag_filter {
            Some(t) => {
                status.append(" · #");
                status.append(t.as_str());
            },
            None => {},
        }
        self.status = status;
        if self.notes.len() == 0 {
            self.preview = Vec::new();
            Fetch::Nothing
        } else {
            Fetch::Preview(self.notes[0].path.clone())
        }
    }

    /// Show the selected note's content (`Err` with the message when it could
    /// not be read) in the preview pane.
    pub fn load_preview(&mut self, content: Result<String, String>)
        ensures
            text::views(final(self).preview@) == preview_of(content),
            final(self).same_but_preview(old(self)),
    {
        match content {
            Ok(c) => {
                self.preview = text::lines_of(c.as_str());
            },
            Err(e) => {
                let mut line = String::from_str("<could not read note: ");
                line.append(e.as_str());
                line.append(">");
                let mut v: Vec<String> = Vec::new();
                v.push(line);
                proof {
                    assert(text::views(v@) =~= seq!["<could not read note: "@ + e@ + ">"@]);
                }
                self.preview = v;
            },
        }
    }

    /// Move the selection of the focused panel down, wrapping around.
    pub fn next(&mut self) -> (f: Fetch)
        requires
            old(self).wf(),
        ensures
            final(self).wf(),
            final(self).notebooks == old(self).notebooks,
            final(self).notes == old(self).notes,
            final(self).focus == old(self).focus,
            final(self).preview == old(self).preview,
            final(self).status == old(self).status,
            final(self).tag_filter == old(self).tag_filter,
            final(self).open_request == old(self).open_request,
            final(self).should_quit == old(self).should_quit,
            match old(self).focus {
                Panel::Notebooks => {
                    &&& final(self).note_idx == old(self).note_idx
                    &&& if old(self).notebooks.len() == 0 {
                        final(self).notebook_idx == old(self).notebook_idx && f is Nothing
                    } else {
                        &&& final(self).notebook_idx == ring_next(
                            old(self).notebook_idx as int,
                            old(self).notebooks.len() as int,
                        )
                        &&& f is Notes
                    }
                },
                Panel::Notes => {
                    &&& final(self).notebook_idx == old(self).notebook_idx
                    &&& if old(self).notes.len() == 0 {
                        final(self).note_idx == old(self).note_idx && f is Nothing
                    } else {
                        &&& final(self).note_idx == ring_next(
                            old(self).note_idx as int,
                            old(self).notes.len() as int,
                        )
                        &&& f matches Fetch::Preview(p) && p == final(self).notes@[final(self).note_idx as int].path
                    }
                },
            },
    {
        match self.focus {
            Panel::Notebooks => {
                if self.notebooks.len() != 0 {
                    self.notebook_idx = (self.notebook_idx + 1) % self.notebooks.len();
                    Fetch::Notes
                } else {
                    Fetch::Nothing
                }
            },
            Panel::Notes => {
                if self.notes.len() != 0 {
                    self.note_idx = (self.note_idx + 1) % self.notes.len();
                    Fetch::Preview(self.notes[self.note_idx].path.clone())
                } else {
                    Fetch::Nothing
                }
            },
        }
    }

    /// Move the selection of the focused panel up, wrapping around.
    pub fn prev(&mut self) -> (f: Fetch)
        requires
            old(self).wf(),
        ensures
            final(self).wf(),
            final(self).notebooks == old(self).notebooks,
            final(self).notes == old(self).notes,
            final(self).focus == old(self).focus,
            final(self).preview == old(self).preview,
            final(self).status == old(self).status,
            final(self).tag_filter == old(self).tag_filter,
            final(self).open_request == old(self).open_request,
            final(self).should_quit == old(self).should_quit,
            match old(self).focus {
                Panel::Notebooks => {
                    &&& final(self).note_idx == old(self).note_idx
                    &&& if old(self).notebooks.len() == 0 {
                        final(self).notebook_idx == old(self).notebook_idx && f is Nothing
                    } else {
                        &&& final(self).notebook_idx == ring_prev(
                            old(self).notebook_idx as int,
                            old(self).notebooks.len() as int,
                        )
                        &&& f is Notes
                    }
                },
                Panel::Notes => {
                    &&& final(self).notebook_idx == old(self).notebook_idx
                    &&& if old(self).notes.len() == 0 {
                        final(self).note_idx == old(self).note_idx && f is Nothing
                    } else {
                        &&& final(self).note_idx == ring_prev(
                            old(self).note_idx as int,
                            old(self).notes.len() as int,
                        )
                        &&& f matches Fetch::Preview(p) && p == final(self).notes@[final(self).note_idx as int].path
                    }
                },
            },
    {
        match self.focus {
            Panel::Notebooks => {
                let len = self.notebooks.len();
                if len != 0 {
                    proof {
                        lemma_step_back(self.notebook_idx as int, len as int);
                    }
                    self.notebook_idx = if self.notebook_idx == 0 {
                        len - 1
                    } else {
                        self.notebook_idx - 1
                    };
                    Fetch::Notes
                } else {
                    Fetch::Nothing
                }
            },
            Panel::Notes => {
                let len = self.notes.len();
                if len != 0 {
                    proof {
                        lemma_step_back(self.note_idx as int, len as int);
                    }
                    self.note_idx = if self.note_idx == 0 {
                        len - 1
                    } else {
                        self.note_idx - 1
                    };
                    Fetch::Preview(self.notes[self.note_idx].path.clone())
                } else {
                    Fetch::Nothing
                }
            },
        }
    }

    /// Switch keyboard focus to the other panel.
    pub fn toggle_focus(&mut self)
        ensures
            final(self).focus == other_panel(old(self).focus),
            *final(self) == (App { focus: final(self).focus, ..*old(self) }),
    {
        self.focus = match self.focus {
            Panel::Notebooks => Panel::Notes,
            Panel::Notes => Panel::Notebooks,
        };
    }

    /// Request that the selected note be opened in an editor and exit the TUI.
    pub fn open_selected(&mut self)
        ensures
            match old(self).selected_note() {
                Some(n) => *final(self) == (App {
                    open_request: Some(n.path),
                    should_quit: true,
                    ..*old(self)
                }),
                None => *final(self) == *old(self),
            },
    {
        if self.note_idx < self.notes.len() {
            self.open_request = Some(self.notes[self.note_idx].path.clone());
            self.should_quit = true;
        }
    }

    /// Take the notebooks `nb` lists now (`Err` when listing failed). A
    /// non-empty list replaces the old one, keeping the selected notebook
    /// selected if it is still there (else the first). The notes are then
    /// listed again ([`Fetch::Notes`]).
    pub fn refresh(&mut self, listed: Result<Vec<String>, String>) -> (f: Fetch)
        requires
            old(self).wf(),
        ensures
            final(self).wf(),
            f is Notes,
            match listed {
                Ok(nbs) if nbs.len() > 0 => {
                    &&& final(self).notebooks == nbs
                    &&& final(self).notebook_idx == match old(self).notebook_name() {
                        Some(name) => match text::index_of(text::views(nbs@), name) {
                            Some(k) => k as usize,
                            None => 0,
                        },
                        None => 0,
                    }
                    &&& *final(self) == (App {
                        notebooks: final(self).notebooks,
                        notebook_idx: final(self).notebook_idx,
                        ..*old(self)
                    })
                },
                _ => *final(self) == *old(self),
            },
            match (listed, old(self).notebook_name()) {
                (Ok(nbs), Some(name)) => text::views(nbs@).contains(name)
                    ==> final(self).notebook_name() == Some(name),
                _ => true,
            },
    {
        proof {
            if listed is Ok && old(self).notebook_name() is Some {
                let nbs = listed->Ok_0;
                let name = old(self).notebook_name()->0;
                if text::views(nbs@).contains(name) {
                    let i = choose|i: int|
                        0 <= i < text::views(nbs@).len() && text::views(nbs@)[i] == name;
                    text::lemma_index_of_found(text::views(nbs@), name, i);
                }
            }
        }
        match listed {
            Ok(notebooks) => {
                if notebooks.len() > 0 {
                    let selected = self.current_notebook();
                    let idx = match selected {
                        Some(name) => match text::position(&notebooks, &name) {
                            Some(k) => k,
                            None => 0,
                        },
                        None => 0,
                    };
                    self.notebooks = notebooks;
                    self.notebook_idx = idx;
                }
            },
            Err(_) => {},
        }
        Fetch::Notes
    }

    /// Apply an action emitted by the active overlay. (Whether it closes the
    /// overlay is [`Action::closes_overlay`].)
    pub fn apply(&mut self, action: Action) -> (f: Fetch)
        requires
            old(self).wf(),
        ensures
            final(self).wf(),
            match action {
                Action::Nothing | Action::Close => *final(self) == *old(self) && f is Nothing,
                Action::Refresh => *final(self) == *old(self) && f is Notebooks,
                Action::SelectNote(p) => {
                    &&& f == Fetch::NotesThenSelect(p)
                    &&& final(self).tag_filter is None
                    &&& final(self).notebook_idx == match path::parent_name(p@) {
                        Some(name) => if old(self).notebook_name() != Some(name) && text::index_of(
                            text::views(old(self).notebooks@),
                            name,
                        ) is Some {
                            text::index_of(text::views(old(self).notebooks@), name)->0 as usize
                        } else {
                            old(self).notebook_idx
                        },
                        None => old(self).notebook_idx,
                    }
                    &&& *final(self) == (App {
                        notebook_idx: final(self).notebook_idx,
                        tag_filter: None,
                        ..*old(self)
                    })
                },
                Action::SetTagFilter(t) => *final(self) == (App { tag_filter: t, ..*old(self) })
                    && f is Notes,
            },
    {
        match action {
            Action::Nothing => Fetch::Nothing,
            Action::Close => Fetch::Nothing,
            Action::Refresh => Fetch::Notebooks,
            Action::SelectNote(path) => {
                if let Some(name) = path::notebook_of_path(path.as_str()) {
                    let here = match self.current_notebook() {
                        Some(c) => c == name,
                        None => false,
                    };
                    if !here {
                        if let Some(idx) = text::position(&self.notebooks, &name) {
                            self.notebook_idx = idx;
                        }
                    }
                }
                self.tag_filter = None;
                Fetch::NotesThenSelect(path)
            },
            Action::SetTagFilter(filter) => {
                self.tag_filter = filter;
                Fetch::Notes
            },
        }
    }

    /// After the notes were reloaded for [`Fetch::NotesThenSelect`]: select
    /// the note at `path` if it is listed, and ask for its preview.
    pub fn select_path(&mut self, path: &String) -> (f: Fetch)
        requires
            old(self).wf(),
        ensures
            final(self).wf(),
            match note_at_path(old(self).notes@, path@) {
                Some(k) => {
                    &&& *final(self) == (App { note_idx: k as usize, ..*old(self) })
                    &&& f matches Fetch::Preview(p) && p@ == path@
                },
                None => *final(self) == *old(self) && f is Nothing,
            },
            note_at_path(old(self).notes@, path@) is Some ==> (final(self).selected_note() matches Some(
                n,
            ) && n.path@ == path@),
    {
        let mut i: usize = 0;
        while i < self.notes.len()
            invariant
                i <= self.notes.len(),
                *self == *old(self),
                self.wf(),
                forall|j: int| 0 <= j < i ==> (#[trigger] self.notes@[j]).path@ != path@,
            decreases self.notes.len() - i,
        {
            if self.notes[i].path == *path {
                proof {
                    assert(first_with_path(self.notes@, path@, i as int));
                    let c = choose|c: int| first_with_path(self.notes@, path@, c);
                    if c < i {
                        assert(self.notes@[c].path@ != path@);
                    } else if c > i {
                        assert(self.notes@[i as int].path@ != path@);
                    }
                }
                self.note_idx = i;
                return Fetch::Preview(self.notes[i].path.clone());
            }
            i += 1;
        }
        proof {
            if exists|c: int| first_with_path(self.notes@, path@, c) {
                let c = choose|c: int| first_with_path(self.notes@, path@, c);
                assert(self.notes@[c].path@ != path@);
            }
        }
        Fetch::Nothing
    }
    /// Picker of every tag in the current notebook (`tags`, as `nb` lists
    /// them); selecting one filters the notes panel, and a first row clears
    /// the filter. `None` when no notebook is selected.
    pub fn open_tag_list(&self, tags: Vec<String>) -> (p: Option<Picker>)
        ensures
            match self.notebook_name() {
                None => p is None,
                Some(name) => p matches Some(pk) && {
                    &&& pk.wf()
                    &&& pk@.title == "Tags in "@ + name
                    &&& pk@.empty == "No tags in this notebook."@
                    &&& pk@.size == (60u16, 70u16)
                    &&& pk@.query.len() == 0
                    &&& pk@.selected == 0
                    &&& pk@.items.len() == tags.len() + 1
                    &&& pk@.items[0].label@ == "[ all notes ]"@
                    &&& pk@.items[0].action == Action::SetTagFilter(None)
                    &&& forall|i: int|
                        0 <= i < tags.len() ==> {
                            &&& (#[trigger] pk@.items[i + 1]).label@ == "#"@ + tags[i]@
                            &&& pk@.items[i + 1].action == Action::SetTagFilter(Some(tags[i]))
                        }
                },
            },
    {
        let name = match self.current_notebook() {
            Some(n) => n,
            None => return None,
        };
        let mut items: Vec<PickItem> = Vec::new();
        items.push(PickItem::new(String::from_str("[ all notes ]"), Action::SetTagFilter(None)));
        let mut i: usize = 0;
        while i < tags.len()
            invariant
                i <= tags.len(),
                items.len() == i + 1,
                items@[0].label@ == "[ all notes ]"@,
                items@[0].action == Action::SetTagFilter(None),
                forall|j: int|
                    0 <= j < i ==> {
                        &&& (#[trigger] items@[j + 1]).label@ == "#"@ + tags[j]@
                        &&& items@[j + 1].action == Action::SetTagFilter(Some(tags[j]))
                    },
            decreases tags.len() - i,
        {
            let mut label = String::from_str("#");
            label.append(tags[i].as_str());
            items.push(PickItem::new(label, Action::SetTagFilter(Some(tags[i].clone()))));
            i += 1;
        }
        let mut title = String::from_str("Tags in ");
        title.append(name.as_str());
        Some(Picker::new(title, items).empty_note(String::from_str("No tags in this notebook.")))
    }

    /// What the backlink search looks for: `[[title]]` of the current note.
    /// `None` when no note or no notebook is selected.
    pub fn backlinks_query(&self) -> (q: Option<String>)
        ensures
            match (self.selected_note(), self.notebook_name()) {
                (Some(n), Some(_)) => q is Some && q->0@ == "[["@ + n.title@ + "]]"@,
                _ => q is None,
            },
    {
        if self.note_idx < self.notes.len() && self.notebook_idx < self.notebooks.len() {
            let mut q = String::from_str("[[");
            q.append(self.notes[self.note_idx].title.as_str());
            q.append("]]");
            Some(q)
        } else {
            None
        }
    }

    /// Picker of the notes that link to the current note: `paths` are the
    /// note files that the backlink search found, `all` the notebook's notes.
    /// `None` when no note or no notebook is selected.
    pub fn open_backlinks(&self, paths: Vec<String>, all: Vec<Note>) -> (p: Option<Picker>)
        ensures
            match (self.selected_note(), self.notebook_name()) {
                (Some(me), Some(_)) => p matches Some(pk) && {
                    let shown = backlink_notes(paths@, all@, me.path@);
                    &&& pk.wf()
                    &&& pk@.title == "Backlinks: "@ + me.title@
                    &&& pk@.empty == "No notes link here."@
                    &&& pk@.size == (70u16, 70u16)
                    &&& pk@.query.len() == 0
                    &&& pk@.selected == 0
                    &&& pk@.items.len() == shown.len()
                    &&& forall|i: int|
                        0 <= i < shown.len() ==> {
                            &&& (#[trigger] pk@.items[i]).label@ == note_row(shown[i])
                            &&& pk@.items[i].action == Action::SelectNote(shown[i].path)
                        }
                },
                _ => p is None,
            },
    {
        if !(self.note_idx < self.notes.len() && self.notebook_idx < self.notebooks.len()) {
            return None;
        }
        let me = &self.notes[self.note_idx];
        let mut items: Vec<PickItem> = Vec::new();
        let mut i: usize = 0;
        while i < paths.len()
            invariant
                i <= paths.len(),
                self.note_idx < self.notes.len(),
                *me == self.notes@[self.note_idx as int],
                items.len() == backlink_notes(paths@.take(i as int), all@, me.path@).len(),
                forall|j: int|
                    0 <= j < items.len() ==> {
                        let shown = backlink_notes(paths@.take(i as int), all@, me.path@);
                        &&& (#[trigger] items@[j]).label@ == note_row(shown[j])
                        &&& items@[j].action == Action::SelectNote(shown[j].path)
                    },
            decreases paths.len() - i,
        {
            let ghost before = backlink_notes(paths@.take(i as int), all@, me.path@);
            proof {
                assert(paths@.take(i + 1).drop_last() =~= paths@.take(i as int));
                assert(paths@.take(i + 1).last() == paths@[i as int]);
            }
            let p = &paths[i];
            if *p != me.path {
                match find_note_with_path(&all, p) {
                    Some(k) => {
                        let n = &all[k];
                        let mut label = String::from_str("[");
                        label.append(n.id.as_str());
                        label.append("] ");
                        label.append(n.title.as_str());
                        items.push(PickItem::new(label, Action::SelectNote(n.path.clone())));
                        proof {
                            let shown = backlink_notes(paths@.take(i + 1), all@, me.path@);
                            assert(shown == before.push(all@[k as int]));
                            assert forall|j: int| 0 <= j < items.len() implies {
                                &&& (#[trigger] items@[j]).label@ == note_row(shown[j])
                                &&& items@[j].action == Action::SelectNote(shown[j].path)
                            } by {
                                if j < before.len() {
                                    assert(shown[j] == before[j]);
                                }
                            }
                        }
                    },
                    None => {},
                }
            }
            i += 1;
        }
        proof {
            assert(paths@.take(paths.len() as int) =~= paths@);
        }
        let mut title = String::from_str("Backlinks: ");
        title.append(me.title.as_str());
        Some(
            Picker::new(title, items).empty_note(String::from_str("No notes link here.")).sized(
                70,
                70,
            ),
        )
    }

    /// Picker of the `[[wiki links]]` found in the current note's preview;
    /// selecting one jumps to the note it names, in this notebook or, when
    /// none here has that name, in another one (`others` holds the notes of
    /// the other notebooks). Unresolved links do nothing.
    pub fn open_links(&self, others: &Vec<Note>) -> (p: Picker)
        ensures
            ({
                let targets = markup::wiki_links(text::views(self.preview@));
                &&& p.wf()
                &&& p@.title == "Links in this note"@
                &&& p@.empty == "No [[links]] in this note."@
                &&& p@.size == (70u16, 70u16)
                &&& p@.query.len() == 0
                &&& p@.selected == 0
                &&& p@.items.len() == targets.len()
                &&& forall|i: int|
                    0 <= i < targets.len() ==> {
                        &&& (#[trigger] p@.items[i]).label@ == link_row(
                            self.notes@,
                            others@,
                            targets[i],
                        ).0
                        &&& p@.items[i].action == link_row(self.notes@, others@, targets[i]).1
                    }
            }),
    {
        let targets = markup::extract_wiki_links(self.preview.as_slice());
        let ghost tv = markup::wiki_links(text::views(self.preview@));
        let mut items: Vec<PickItem> = Vec::new();
        let mut i: usize = 0;
        while i < targets.len()
            invariant
                i <= targets.len(),
                text::views(targets@) == tv,
                items.len() == i,
                forall|j: int|
                    0 <= j < i ==> {
                        &&& (#[trigger] items@[j]).label@ == link_row(self.notes@, others@, tv[j]).0
                        &&& items@[j].action == link_row(self.notes@, others@, tv[j]).1
                    },
            decreases targets.len() - i,
        {
            let t = &targets[i];
            proof {
                assert(tv[i as int] == t@);
            }
            let item = match graph::resolve_target(&self.notes, t) {
                Some(j) => {
                    let it = note_link_item(&self.notes[j]);
                    proof {
                        assert(graph::resolve(self.notes@, tv[i as int]) == Some(j as int));
                    }
                    it
                },
                None => match graph::resolve_target(others, t) {
                    Some(j) => {
                        let it = note_link_item(&others[j]);
                        proof {
                            assert(graph::resolve(self.notes@, tv[i as int]) is None);
                            assert(graph::resolve(others@, tv[i as int]) == Some(j as int));
                        }
                        it
                    },
                    None => {
                        let mut label = String::from_str("→ ");
                        label.append(t.as_str());
                        label.append("  (unresolved)");
                        let it = PickItem::new(label, Action::Nothing);
                        proof {
                            assert(graph::resolve(self.notes@, tv[i as int]) is None);
                            assert(graph::resolve(others@, tv[i as int]) is None);
                            assert(it.label@ =~= link_row(self.notes@, others@, tv[i as int]).0);
                        }
                        it
                    },
                },
            };
            proof {
                assert(item.label@ == link_row(self.notes@, others@, tv[i as int]).0);
                assert(item.action == link_row(self.notes@, others@, tv[i as int]).1);
            }
            let ghost before = items@;
            items.push(item);
            proof {
                assert forall|j: int| 0 <= j < i + 1 implies {
                    &&& (#[trigger] items@[j]).label@ == link_row(self.notes@, others@, tv[j]).0
                    &&& items@[j].action == link_row(self.notes@, others@, tv[j]).1
                } by {
                    if j < i {
                        assert(items@[j] == before[j]);
                    }
                }
            }
            i += 1;
        }
        Picker::new(String::from_str("Links in this note"), items).empty_note(
            String::from_str("No [[links]] in this note."),
        ).sized(70, 70)
    }

    /// A live search over the selected notebook, whose notes are `notes`.
    /// `None` when no notebook is selected.
    pub fn open_search(&self, notes: Vec<Note>) -> (s: Option<Search>)
        ensures
            match self.notebook_name() {
                None => s is None,
                Some(name) => s matches Some(se) && {
                    &&& se.wf()
                    &&& se@.notebook == name
                    &&& se@.files == notes@.map_values(|n: Note| n.path@)
                    &&& se@.labels == notes@.map_values(
                        |n: Note| (n.path@, crate::search::note_label(n)),
                    )
                    &&& se@.query.len() == 0
                    &&& se@.results.len() == 0
                    &&& se@.selected == 0
                    &&& se@.note == crate::search::idle_note()
                },
            },
    {
        match self.current_notebook() {
            Some(name) => Some(Search::new(name, notes.as_slice())),
            None => None,
        }
    }
}

/// The link-picker row for a note.
fn note_link_item(n: &Note) -> (it: PickItem)
    ensures
        it.label@ == note_link_row(*n).0,
        it.action == note_link_row(*n).1,
{
    let mut label = String::from_str("→ [");
    label.append(n.id.as_str());
    label.append("] ");
    label.append(n.title.as_str());
    proof {
        reveal_strlit("→ [");
        reveal_strlit("→ ");
        reveal_strlit("[");
        assert("→ ["@ =~= "→ "@ + "["@);
        assert(label@ =~= "→ "@ + note_row(*n));
    }
    PickItem::new(label, Action::SelectNote(n.path.clone()))
}

/// The position of the first note in `all` whose path is `p`.
fn find_note_with_path(all: &Vec<Note>, p: &String) -> (r: Option<usize>)
    ensures
        match note_at_path(all@, p@) {
            Some(k) => r == Some(k as usize),
            None => r is None,
        },
{
    let mut i: usize = 0;
    while i < all.len()
        invariant
            i <= all.len(),
            forall|j: int| 0 <= j < i ==> (#[trigger] all@[j]).path@ != p@,
        decreases all.len() - i,
    {
        if all[i].path == *p {
            proof {
                assert(first_with_path(all@, p@, i as int));
                let c = choose|c: int| first_with_path(all@, p@, c);
                if c < i {
                    assert(all@[c].path@ != p@);
                } else if c > i {
                    assert(all@[i as int].path@ != p@);
                }
            }
            return Some(i);
        }
        i += 1;
    }
    proof {
        if exists|c: int| first_with_path(all@, p@, c) {
            let c = choose|c: int| first_with_path(all@, p@, c);
            assert(all@[c].path@ != p@);
        }
    }
    None
}

} // verus!
