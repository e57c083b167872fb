//! Overlays: modal widgets that float over the browse view.
//!
//! Instead of mutating the app directly an overlay answers a key with an
//! [`Action`] describing what should happen; `App::apply` is the single place
//! that interprets actions. Where an overlay needs outside work done first
//! (running an `nb` command, running ripgrep) it answers with
//! [`Step::Run`], and the caller hands the output back.
//!
//! [`Picker`] is a reusable, data-configured list: build it from
//! `(label, action)` rows and it gives navigation, incremental filtering and
//! selection. [`Shell`] is a small REPL over `nb`; [`Search`] a live grep.

use vstd::prelude::*;
use crate::nb::Note;
use crate::text;

verus! {

/// What an overlay asks the app to do after handling a key. The app applies
/// it in `App::apply`; several variants implicitly close the overlay.
pub enum Action {
    /// Do nothing; keep the overlay open.
    Nothing,
    /// Close the overlay.
    Close,
    /// Re-query notebooks and notes (e.g. after a shell command).
    Refresh,
    /// Select the note at this path in the panel, switching notebook if needed.
    SelectNote(String),
    /// Set (`Some`) or clear (`None`) the notes-panel tag filter.
    SetTagFilter(Option<String>),
}

impl Clone for Action {
    fn clone(&self) -> (r: Self)
        ensures
            r == *self,
    {
        match self {
            Action::Nothing => Action::Nothing,
            Action::Close => Action::Close,
            Action::Refresh => Action::Refresh,
            Action::SelectNote(p) => Action::SelectNote(p.clone()),
            Action::SetTagFilter(f) => Action::SetTagFilter(
                match f {
                    Some(t) => Some(t.clone()),
                    None => None,
                },
            ),
        }
    }
}

impl Action {
    /// Whether applying this action closes the open overlay.
    pub open spec fn spec_closes_overlay(&self) -> bool {
        self is Close || self is SelectNote || self is SetTagFilter
    }

    /// Whether applying this action closes the open overlay.
    #[verifier::when_used_as_spec(spec_closes_overlay)]
    pub fn closes_overlay(&self) -> (b: bool)
        ensures
            b == self.spec_closes_overlay(),
    {
        match self {
            Action::Close | Action::SelectNote(_) | Action::SetTagFilter(_) => true,
            _ => false,
        }
    }
}

/// A key press, as the overlays see it.
pub enum Key {
    Esc,
    Enter,
    Up,
    Down,
    Left,
    Right,
    Tab,
    Backspace,
    Char(char),
    Other,
}

/// What an overlay answers to a key: an action for the app, or a command
/// whose output the overlay needs before it can go on.
pub enum Step {
    /// Apply this action.
    Act(Action),
    /// Run this command line and hand the output back to the overlay.
    Run(String),
}

// ---------------------------------------------------------------------------
// Picker
// ---------------------------------------------------------------------------

/// One row in a [`Picker`]: a label and the action selecting it emits.
pub struct PickItem {
    pub label: String,
    pub action: Action,
}

impl PickItem {
    pub fn new(label: String, action: Action) -> (it: Self)
        ensures
            it.label == label,
            it.action == action,
    {
        PickItem { label, action }
    }
}

/// A reusable list-picker with incremental filtering. Configure it purely
/// with data: a title and a list of `(label, action)` rows.
pub struct Picker {
    title: String,
    items: Vec<PickItem>,
    /// Indices into `items` that match the current query.
    filtered: Vec<usize>,
    /// Position within `filtered`.
    selected: usize,
    query: String,
    empty: String,
    size: (u16, u16),
}

/// The state of a [`Picker`].
pub struct PickerView {
    pub title: Seq<char>,
    pub items: Seq<PickItem>,
    pub filtered: Seq<usize>,
    pub selected: nat,
    pub query: Seq<char>,
    pub empty: Seq<char>,
    pub size: (u16, u16),
}

/// A row with this label is shown for this query: the query is empty, or the
/// lowercased label contains the lowercased query.
pub open spec fn picks(label: Seq<char>, query: Seq<char>) -> bool {
    query.len() == 0 || text::contains_seq(text::lowercase(label), text::lowercase(query))
}

/// The indices of the rows shown for `query`, ascending.
pub open spec fn matching(items: Seq<PickItem>, query: Seq<char>) -> Seq<usize>
    decreases items.len(),
{
    if items.len() == 0 {
        seq![]
    } else {
        let m = matching(items.drop_last(), query);
        if picks(items.last().label@, query) {
            m.push((items.len() - 1) as usize)
        } else {
            m
        }
    }
}

/// `selected` is within the shown rows (or zero when none are shown).
pub open spec fn selection_ok(selected: nat, shown: nat) -> bool {
    if shown == 0 {
        selected == 0
    } else {
        selected < shown
    }
}

/// The action that choosing the selected row emits (nothing when no row is shown).
pub open spec fn chosen(v: PickerView) -> Action {
    if v.selected < v.filtered.len() && v.filtered[v.selected as int] < v.items.len() {
        v.items[v.filtered[v.selected as int] as int].action
    } else {
        Action::Nothing
    }
}

impl View for Picker {
    type V = PickerView;

    closed spec fn view(&self) -> PickerView {
        PickerView {
            title: self.title@,
            items: self.items@,
            filtered: self.filtered@,
            selected: self.selected as nat,
            query: self.query@,
            empty: self.empty@,
            size: self.size,
        }
    }
}

impl Picker {
    /// The picker is consistent: the shown rows are those matching the query,
    /// and the selection is within them. Every picker keeps this.
    #[verifier::type_invariant]
    pub open spec fn wf(&self) -> bool {
        &&& self@.filtered == matching(self@.items, self@.query)
        &&& selection_ok(self@.selected, self@.filtered.len())
    }

    pub fn new(title: String, items: Vec<PickItem>) -> (p: Self)
        ensures
            p.wf(),
            p@.title == title@,
            p@.items == items@,
            p@.query.len() == 0,
            p@.selected == 0,
            p@.empty == "Nothing here."@,
            p@.size == (60u16, 70u16),
            p@.filtered.len() == items.len(),
    {
        let mut filtered: Vec<usize> = Vec::new();
        let mut i: usize = 0;
        while i < items.len()
            invariant
                i <= items.len(),
                filtered@ == matching(items@.take(i as int), Seq::<char>::empty()),
                filtered.len() == i,
            decreases items.len() - i,
        {
            proof {
                assert(items@.take(i + 1).drop_last() =~= items@.take(i as int));
            }
            filtered.push(i);
            i += 1;
        }
        assert(items@.take(items.len() as int) =~= items@);
        let p = Picker {
            title,
            items,
            filtered,
            selected: 0,
            query: String::new(),
            empty: String::from_str("Nothing here."),
            size: (60, 70),
        };
        proof {
            assert(p@.query =~= Seq::<char>::empty());
        }
        p
    }

    /// Message shown when there are no rows. Builder-style.
    pub fn empty_note(self, note: String) -> (p: Self)
        ensures
            p@ == (PickerView { empty: note@, ..self@ }),
    {
        proof {
            use_type_invariant(&self);
        }
        let Picker { title, items, filtered, selected, query, empty: _, size } = self;
        Picker { title, items, filtered, selected, query, empty: note, size }
    }

    /// Override the popup size, as (width%, height%). Builder-style.
    pub fn sized(self, width: u16, height: u16) -> (p: Self)
        ensures
            p@ == (PickerView { size: (width, height), ..self@ }),
    {
        proof {
            use_type_invariant(&self);
        }
        let Picker { title, items, filtered, selected, query, empty, size: _ } = self;
        Picker { title, items, filtered, selected, query, empty, size: (width, height) }
    }

    /// Recompute the shown rows for the current query, keeping the selection
    /// within them.
    pub fn refilter(&mut self)
        ensures
            final(self)@.title == old(self)@.title,
            final(self)@.items == old(self)@.items,
            final(self)@.query == old(self)@.query,
            final(self)@.empty == old(self)@.empty,
            final(self)@.size == old(self)@.size,
            final(self)@.filtered == matching(old(self)@.items, old(self)@.query),
            final(self)@.selected == (if old(self)@.selected < final(self)@.filtered.len() {
                old(self)@.selected as int
            } else if final(self)@.filtered.len() == 0 {
                0
            } else {
                final(self)@.filtered.len() - 1
            }),
    {
        let mut p = Picker::new(String::new(), Vec::new());
        std::mem::swap(&mut p, self);
        let Picker { title, items, filtered: _, selected, query, empty, size } = p;
        let filtered = filter_rows(&items, &query);
        let selected = clamp_selection(selected, filtered.len());
        *self = Picker { title, items, filtered, selected, query, empty, size };
    }

    /// The action of the selected row, or `Action::Nothing` when no row is shown.
    pub fn selected_action(&self) -> (a: Action)
        ensures
            a == chosen(self@),
    {
        if self.selected < self.filtered.len() {
            let i = self.filtered[self.selected];
            if i < self.items.len() {
                return self.items[i].action.clone();
            }
        }
        Action::Nothing
    }

    /// Type `c` into the filter (`None`: erase its last character), then
    /// recompute the shown rows.
    fn edit_query(&mut self, c: Option<char>)
        ensures
            final(self)@.title == old(self)@.title,
            final(self)@.items == old(self)@.items,
            final(self)@.empty == old(self)@.empty,
            final(self)@.size == old(self)@.size,
            final(self)@.query == (match c {
                Some(c) => old(self)@.query.push(c),
                None => if old(self)@.query.len() == 0 {
                    old(self)@.query
                } else {
                    old(self)@.query.drop_last()
                },
            }),
            final(self)@.filtered == matching(old(self)@.items, final(self)@.query),
            final(self)@.selected == (if old(self)@.selected < final(self)@.filtered.len() {
                old(self)@.selected as int
            } else if final(self)@.filtered.len() == 0 {
                0
            } else {
                final(self)@.filtered.len() - 1
            }),
    {
        let mut p = Picker::new(String::new(), Vec::new());
        std::mem::swap(&mut p, self);
        let Picker { title, items, filtered: _, selected, query, empty, size } = p;
        let mut query = query;
        match c {
            Some(c) => text::push_char(&mut query, c),
            None => {
                text::pop_char(&mut query);
            },
        }
        let filtered = filter_rows(&items, &query);
        let selected = clamp_selection(selected, filtered.len());
        *self = Picker { title, items, filtered, selected, query, empty, size };
    }

    /// Handle a key: `Esc` closes, `Enter` chooses the selected row, the
    /// arrows move the selection, typing edits the filter.
    pub fn on_key(&mut self, key: Key) -> (a: Action)
        ensures
            final(self).wf(),
            final(self)@.title == old(self)@.title,
            final(self)@.items == old(self)@.items,
            final(self)@.empty == old(self)@.empty,
            final(self)@.size == old(self)@.size,
            match key {
                Key::Esc => a == Action::Close && final(self)@ == old(self)@,
                Key::Enter => a == chosen(old(self)@) && final(self)@ == old(self)@,
                Key::Up => a == Action::Nothing && final(self)@ == (PickerView {
                    selected: if old(self)@.selected == 0 {
                        0
                    } else {
                        (old(self)@.selected - 1) as nat
                    },
                    ..old(self)@
                }),
                Key::Down => a == Action::Nothing && final(self)@ == (PickerView {
                    selected: if old(self)@.selected + 1 < old(self)@.filtered.len() {
                        old(self)@.selected + 1
                    } else {
                        old(self)@.selected
                    },
                    ..old(self)@
                }),
                Key::Backspace | Key::Char(_) => {
                    &&& a == Action::Nothing
                    &&& final(self)@.query == (match key {
                        Key::Char(c) => old(self)@.query.push(c),
                        _ => if old(self)@.query.len() == 0 {
                            old(self)@.query
                        } else {
                            old(self)@.query.drop_last()
                        },
                    })
                    &&& final(self)@.selected == (if old(self)@.selected
                        < final(self)@.filtered.len() {
                        old(self)@.selected as int
                    } else if final(self)@.filtered.len() == 0 {
                        0
                    } else {
                        final(self)@.filtered.len() - 1
                    })
                },
                _ => a == Action::Nothing && final(self)@ == old(self)@,
            },
    {
        proof {
            use_type_invariant(&*self);
        }
        match key {
            Key::Esc => Action::Close,
            Key::Enter => self.selected_action(),
            Key::Up => {
                if self.selected > 0 {
                    self.selected = self.selected - 1;
                }
                Action::Nothing
            },
            Key::Down => {
                if self.selected < self.filtered.len() && self.selected + 1 < self.filtered.len() {
                    self.selected = self.selected + 1;
                }
                Action::Nothing
            },
            Key::Backspace => {
                self.edit_query(None);
                Action::Nothing
            },
            Key::Char(c) => {
                self.edit_query(Some(c));
                Action::Nothing
            },
            _ => Action::Nothing,
        }
    }

    /// The title.
    pub fn title(&self) -> (t: &String)
        ensures
            t@ == self@.title,
    {
        &self.title
    }

    /// The filter typed so far.
    pub fn query(&self) -> (q: &String)
        ensures
            q@ == self@.query,
    {
        &self.query
    }

    /// The message shown when no row is shown.
    pub fn empty_text(&self) -> (e: &String)
        ensures
            e@ == self@.empty,
    {
        &self.empty
    }

    /// Preferred popup size as (width%, height%).
    pub fn size(&self) -> (s: (u16, u16))
        ensures
            s == self@.size,
    {
        self.size
    }

    /// Whether the picker wants frequent redraws: it never animates.
    pub fn animating(&self) -> (b: bool)
        ensures
            !b,
    {
        false
    }

    /// Position of the selection among the shown rows.
    pub fn selected(&self) -> (s: usize)
        ensures
            s == self@.selected,
    {
        self.selected
    }

    /// The labels of the shown rows, in order.
    pub fn rows(&self) -> (rows: Vec<String>)
        ensures
            rows.len() == self@.filtered.len(),
            forall|i: int|
                0 <= i < rows.len() ==> #[trigger] rows[i] == self@.items[self@.filtered[i] as int].label,
    {
        proof {
            use_type_invariant(self);
            lemma_matching_bounds(self@.items, self@.query);
        }
        let mut rows: Vec<String> = Vec::new();
        let mut i: usize = 0;
        while i < self.filtered.len()
            invariant
                i <= self.filtered.len(),
                rows.len() == i,
                forall|j: int| 0 <= j < self.filtered.len() ==> #[trigger] self.filtered@[j] < self.items.len(),
                forall|j: int|
                    0 <= j < i ==> #[trigger] rows[j] == self@.items[self@.filtered[j] as int].label,
            decreases self.filtered.len() - i,
        {
            rows.push(self.items[self.filtered[i]].label.clone());
            i += 1;
        }
        rows
    }
}

/// Every shown index is the index of a row.
pub proof fn lemma_matching_bounds(items: Seq<PickItem>, query: Seq<char>)
    ensures
        forall|j: int|
            0 <= j < matching(items, query).len() ==> #[trigger] matching(items, query)[j]
                < items.len(),
    decreases items.len(),
{
    if items.len() > 0 {
        lemma_matching_bounds(items.drop_last(), query);
        let m = matching(items.drop_last(), query);
        assert forall|j: int|
            0 <= j < matching(items, query).len() implies #[trigger] matching(items, query)[j]
            < items.len() by {
            if j < m.len() {
                assert(matching(items, query)[j] == m[j]);
            }
        }
    }
}

/// Row `i` is shown for `query` exactly when it passes the filter.
proof fn lemma_matching_contains(items: Seq<PickItem>, query: Seq<char>, i: int)
    requires
        0 <= i < items.len() <= usize::MAX,
    ensures
        matching(items, query).contains(i as usize) <==> picks(items[i].label@, query),
    decreases items.len(),
{
    let p = items.drop_last();
    let m = matching(p, query);
    lemma_matching_bounds(p, query);
    let last = (items.len() - 1) as usize;
    if i < items.len() - 1 {
        assert(p[i] == items[i]);
        lemma_matching_contains(p, query, i);
        if picks(items.last().label@, query) {
            let mm = m.push(last);
            if mm.contains(i as usize) {
                let k = choose|k: int| 0 <= k < mm.len() && mm[k] == i as usize;
                if k < m.len() {
                    assert(m[k] == mm[k]);
                }
            }
            if m.contains(i as usize) {
                let k = choose|k: int| 0 <= k < m.len() && m[k] == i as usize;
                assert(mm[k] == m[k]);
            }
        }
    } else {
        if picks(items.last().label@, query) {
            assert(m.push(last)[m.len() as int] == last);
        } else {
            if m.contains(last) {
                let k = choose|k: int| 0 <= k < m.len() && m[k] == last;
                assert(m[k] < p.len());
            }
        }
    }
}

/// A picker shows a row exactly when the query is empty or the lowercased
/// query occurs anywhere in the row's lowercased label (not only at its
/// start).
pub proof fn law_filter_shows_substring_matches(items: Seq<PickItem>, query: Seq<char>, i: int)
    requires
        0 <= i < items.len() <= usize::MAX,
    ensures
        matching(items, query).contains(i as usize) <==> (query.len() == 0 || exists|k: int|
            #[trigger] text::matches_at(
                text::lowercase(items[i].label@),
                text::lowercase(query),
                k,
            )),
{
    lemma_matching_contains(items, query, i);
    text::lemma_contains_seq(text::lowercase(items[i].label@), text::lowercase(query));
}

/// Typing a character into a picker's filter and then erasing it restores
/// the filter and the rows shown.
pub proof fn law_erase_undoes_type(p0: Picker, p1: Picker, p2: Picker, c: char)
    requires
        p0.wf(),
        p1.wf(),
        p2.wf(),
        p1@.items == p0@.items,
        p1@.query == p0@.query.push(c),
        p2@.items == p1@.items,
        p2@.query == p1@.query.drop_last(),
    ensures
        p2@.query == p0@.query,
        p2@.filtered == p0@.filtered,
{
    assert(p0@.query.push(c).drop_last() =~= p0@.query);
}

/// The history entry that Up recalls: the newest one when no entry is being
/// shown, otherwise the one before the shown one (staying at the oldest).
pub open spec fn recall_pos(pos: Option<nat>, len: nat) -> nat {
    match pos {
        None => (len - 1) as nat,
        Some(q) => if q == 0 {
            0
        } else {
            (q - 1) as nat
        },
    }
}

/// The shell after Up: the recalled entry is shown (nothing changes when the
/// history is empty).
pub open spec fn after_prev(v: ShellView) -> ShellView {
    if v.history.len() == 0 {
        v
    } else {
        let p = recall_pos(v.history_pos, v.history.len());
        ShellView { input: v.history[p as int], history_pos: Some(p), ..v }
    }
}

/// The shell after Down: the next newer entry is shown, or, past the newest,
/// the input is cleared.
pub open spec fn after_next(v: ShellView) -> ShellView {
    match v.history_pos {
        Some(p) if p + 1 < v.history.len() => ShellView {
            input: v.history[p + 1 as int],
            history_pos: Some((p + 1) as nat),
            ..v
        },
        _ => ShellView { input: Seq::<char>::empty(), history_pos: None, ..v },
    }
}

/// After a command ran, Up recalls that command.
pub proof fn law_up_recalls_last(history: Seq<Seq<char>>, line: Seq<char>)
    ensures
        history.push(line)[recall_pos(None, history.push(line).len()) as int] == line,
{
}

/// The shell after pressing Up `k` times.
pub open spec fn press_up(v: ShellView, k: nat) -> ShellView
    decreases k,
{
    if k == 0 {
        v
    } else {
        after_prev(press_up(v, (k - 1) as nat))
    }
}

/// Up steps back exactly one history entry: from entry `q > 0` it shows entry
/// `q - 1`; from no entry it shows the newest; at the oldest it stays there.
/// The history and the output never change.
pub proof fn law_up_steps_back(v: ShellView)
    requires
        v.history_pos matches Some(q) ==> q < v.history.len(),
    ensures
        after_prev(v).history == v.history,
        after_prev(v).output == v.output,
        v.history.len() > 0 ==> match v.history_pos {
            None => after_prev(v).history_pos == Some((v.history.len() - 1) as nat)
                && after_prev(v).input == v.history.last(),
            Some(q) => if q > 0 {
                after_prev(v).history_pos == Some((q - 1) as nat) && after_prev(v).input
                    == v.history[q - 1]
            } else {
                after_prev(v).history_pos == Some(0nat) && after_prev(v).input == v.history[0]
            },
        },
{
}

/// Pressing Up `k` times from a fresh prompt shows the `k`-th newest command:
/// repeated Up visits every entry, newest to oldest.
pub proof fn law_up_visits_history(v: ShellView, k: nat)
    requires
        v.history_pos is None,
        1 <= k <= v.history.len(),
    ensures
        press_up(v, k).history == v.history,
        press_up(v, k).history_pos == Some((v.history.len() - k) as nat),
        press_up(v, k).input == v.history[v.history.len() - k],
    decreases k,
{
    if k > 1 {
        law_up_visits_history(v, (k - 1) as nat);
    } else {
        assert(press_up(v, 0) == v);
    }
}

/// The indices of the rows shown for `query`.
fn filter_rows(items: &Vec<PickItem>, query: &String) -> (filtered: Vec<usize>)
    ensures
        filtered@ == matching(items@, query@),
{
    let q = text::to_lowercase(query.as_str());
    let mut filtered: Vec<usize> = Vec::new();
    let mut i: usize = 0;
    while i < items.len()
        invariant
            i <= items.len(),
            q@ == text::lowercase(query@),
            (q@.len() == 0) == (query@.len() == 0),
            filtered@ == matching(items@.take(i as int), query@),
        decreases items.len() - i,
    {
        proof {
            assert(items@.take(i + 1).drop_last() =~= items@.take(i as int));
        }
        let shown = if q.as_str().is_empty() {
            true
        } else {
            let lab = text::to_lowercase(items[i].label.as_str());
            text::contains_str(lab.as_str(), q.as_str())
        };
        if shown {
            filtered.push(i);
        }
        i += 1;
    }
    assert(items@.take(items.len() as int) =~= items@);
    filtered
}

/// `selected`, moved onto the last of `len` rows when it is past them.
fn clamp_selection(selected: usize, len: usize) -> (s: usize)
    ensures
        s == (if selected < len {
            selected as int
        } else if len == 0 {
            0
        } else {
            len - 1
        }),
{
    if selected < len {
        selected
    } else if len == 0 {
        0
    } else {
        len - 1
    }
}

// ---------------------------------------------------------------------------
// Shell
// ---------------------------------------------------------------------------

/// The nb shell: a small REPL that runs nb commands and shows their output.
pub struct Shell {
    input: String,
    output: Vec<String>,
    history: Vec<String>,
    history_pos: Option<usize>,
}

/// The state of a [`Shell`].
pub struct ShellView {
    pub input: Seq<char>,
    pub output: Seq<Seq<char>>,
    pub history: Seq<Seq<char>>,
    pub history_pos: Option<nat>,
}

impl View for Shell {
    type V = ShellView;

    closed spec fn view(&self) -> ShellView {
        ShellView {
            input: self.input@,
            output: text::views(self.output@),
            history: text::views(self.history@),
            history_pos: match self.history_pos {
                Some(p) => Some(p as nat),
                None => None,
            },
        }
    }
}

/// The output a shell shows after a command ran: the echoed command line,
/// then its output (or a placeholder when it printed nothing), then a blank line.
pub open spec fn command_echo(line: Seq<char>, output: Seq<Seq<char>>) -> Seq<Seq<char>> {
    seq!["nb> "@ + line] + (if output.len() == 0 {
        seq!["(no output)"@]
    } else {
        output
    }) + seq![Seq::<char>::empty()]
}

impl Shell {
    /// The history position, when set, points into the history. Every shell
    /// keeps this.
    #[verifier::type_invariant]
    pub open spec fn wf(&self) -> bool {
        self@.history_pos matches Some(p) ==> p < self@.history.len()
    }

    pub fn new() -> (s: Self)
        ensures
            s.wf(),
            s@.input.len() == 0,
            s@.output == seq![
                "nb shell -- type a command (the leading `nb` is optional)."@,
                "Enter runs it, up/down recalls history, Esc closes."@,
                Seq::<char>::empty(),
            ],
            s@.history.len() == 0,
            s@.history_pos is None,
    {
        let mut output: Vec<String> = Vec::new();
        output.push(String::from_str("nb shell -- type a command (the leading `nb` is optional)."));
        output.push(String::from_str("Enter runs it, up/down recalls history, Esc closes."));
        output.push(String::new());
        let s = Shell { input: String::new(), output, history: Vec::new(), history_pos: None };
        proof {
            assert(s@.output =~= seq![
                "nb shell -- type a command (the leading `nb` is optional)."@,
                "Enter runs it, up/down recalls history, Esc closes."@,
                Seq::<char>::empty(),
            ]);
            assert(s@.history =~= Seq::<Seq<char>>::empty());
        }
        s
    }

    /// What Enter does with the typed line: nothing when it is blank, close
    /// on `exit` or `quit`, otherwise run it (see [`Shell::record`]).
    pub fn submit(&self) -> (st: Step)
        ensures
            ({
                let line = text::trim(self@.input);
                if line.len() == 0 {
                    st == Step::Act(Action::Nothing)
                } else if line == "exit"@ || line == "quit"@ {
                    st == Step::Act(Action::Close)
                } else {
                    st matches Step::Run(l) && l@ == line
                }
            }),
    {
        let line = text::trimmed(self.input.as_str());
        if line.as_str().is_empty() {
            return Step::Act(Action::Nothing);
        }
        if line == String::from_str("exit") || line == String::from_str("quit") {
            return Step::Act(Action::Close);
        }
        Step::Run(line)
    }

    /// Show a command's output and remember the command in the history.
    /// Commands may have changed the data, so the app is asked to reload.
    pub fn record(&mut self, line: String, output: Vec<String>) -> (a: Action)
        ensures
            a == Action::Refresh,
            final(self)@.output == old(self)@.output + command_echo(line@, text::views(output@)),
            final(self)@.history == old(self)@.history.push(line@),
            final(self)@.history_pos is None,
            final(self)@.input.len() == 0,
    {
        proof {
            use_type_invariant(&*self);
        }
        let ghost out0 = self@.output;
        let ghost hist0 = self@.history;
        let mut out: Vec<String> = Vec::new();
        std::mem::swap(&mut out, &mut self.output);
        assert(text::views(out@) == out0);
        let mut echo = String::from_str("nb> ");
        echo.append(line.as_str());
        let ghost o = out@;
        out.push(echo);
        proof {
            assert(text::views(out@) =~= text::views(o).push(echo@));
        }
        let n = output.len();
        if n == 0 {
            let ghost o = out@;
            let none = String::from_str("(no output)");
            out.push(none);
            proof {
                assert(text::views(out@) =~= text::views(o).push(none@));
                assert(text::views(out@) =~= out0 + seq!["nb> "@ + line@] + seq!["(no output)"@]);
            }
        } else {
            let mut i: usize = 0;
            proof {
                assert(text::views(output@).take(0) =~= Seq::<Seq<char>>::empty());
                assert(text::views(out@) =~= out0 + seq!["nb> "@ + line@] + text::views(
                    output@,
                ).take(0));
            }
            while i < n
                invariant
                    i <= n == output.len(),
                    text::views(out@) == out0 + seq!["nb> "@ + line@] + text::views(output@).take(
                        i as int,
                    ),
                decreases n - i,
            {
                let ghost before = out@;
                out.push(output[i].clone());
                proof {
                    assert(text::views(out@) =~= text::views(before).push(output@[i as int]@));
                    assert(text::views(output@).take(i + 1) =~= text::views(output@).take(
                        i as int,
                    ).push(output@[i as int]@));
                }
                i += 1;
            }
            assert(text::views(output@).take(n as int) =~= text::views(output@));
        }
        let ghost o = out@;
        let blank = String::new();
        out.push(blank);
        proof {
            assert(text::views(out@) =~= text::views(o).push(blank@));
            assert(text::views(out@) =~= out0 + command_echo(line@, text::views(output@)));
        }
        self.output = out;
        self.history_pos = None;
        let mut hist: Vec<String> = Vec::new();
        std::mem::swap(&mut hist, &mut self.history);
        assert(text::views(hist@) == hist0);
        let ghost l = line@;
        hist.push(line);
        proof {
            assert(text::views(hist@) =~= hist0.push(l));
        }
        self.history = hist;
        self.input = String::new();
        Action::Refresh
    }

    /// Recall the previous history entry into the input line.
    pub fn history_prev(&mut self)
        ensures
            final(self)@ == after_prev(old(self)@),
    {
        proof {
            use_type_invariant(&*self);
        }
        if self.history.len() == 0 {
            return ;
        }
        let pos = match self.history_pos {
            None => self.history.len() - 1,
            Some(p) => if p == 0 {
                0
            } else {
                p - 1
            },
        };
        self.history_pos = Some(pos);
        self.input = self.history[pos].clone();
    }

    /// Recall the next history entry, or clear the input past the newest one.
    pub fn history_next(&mut self)
        ensures
            final(self)@ == after_next(old(self)@),
    {
        proof {
            use_type_invariant(&*self);
        }
        match self.history_pos {
            Some(p) if self.history.len() > 0 && p < self.history.len() - 1 => {
                self.history_pos = Some(p + 1);
                self.input = self.history[p + 1].clone();
            },
            _ => {
                self.history_pos = None;
                self.input = String::new();
            },
        }
    }

    /// Handle a key: `Esc` closes, `Enter` submits, the arrows walk the
    /// history, typing edits the input line.
    pub fn on_key(&mut self, key: Key) -> (st: Step)
        ensures
            final(self)@.output == old(self)@.output,
            final(self)@.history == old(self)@.history,
            match key {
                Key::Esc => st == Step::Act(Action::Close) && final(self)@ == old(self)@,
                Key::Enter => final(self)@ == old(self)@ && ({
                    let line = text::trim(old(self)@.input);
                    if line.len() == 0 {
                        st == Step::Act(Action::Nothing)
                    } else if line == "exit"@ || line == "quit"@ {
                        st == Step::Act(Action::Close)
                    } else {
                        st matches Step::Run(l) && l@ == line
                    }
                }),
                Key::Up => st == Step::Act(Action::Nothing) && final(self)@ == after_prev(old(self)@),
                Key::Down => st == Step::Act(Action::Nothing) && final(self)@ == after_next(
                    old(self)@,
                ),
                Key::Backspace => st == Step::Act(Action::Nothing) && final(self)@.history_pos is None
                    && final(self)@.input == (if old(self)@.input.len() == 0 {
                    old(self)@.input
                } else {
                    old(self)@.input.drop_last()
                }),
                Key::Char(c) => st == Step::Act(Action::Nothing) && final(self)@.history_pos is None
                    && final(self)@.input == old(self)@.input.push(c),
                _ => st == Step::Act(Action::Nothing) && final(self)@ == old(self)@,
            },
    {
        proof {
            use_type_invariant(&*self);
        }
        match key {
            Key::Esc => Step::Act(Action::Close),
            Key::Enter => self.submit(),
            Key::Up => {
                self.history_prev();
                Step::Act(Action::Nothing)
            },
            Key::Down => {
                self.history_next();
                Step::Act(Action::Nothing)
            },
            Key::Backspace => {
                let mut input = String::new();
                std::mem::swap(&mut input, &mut self.input);
                text::pop_char(&mut input);
                self.input = input;
                self.history_pos = None;
                Step::Act(Action::Nothing)
            },
            Key::Char(c) => {
                let mut input = String::new();
                std::mem::swap(&mut input, &mut self.input);
                text::push_char(&mut input, c);
                self.input = input;
                self.history_pos = None;
                Step::Act(Action::Nothing)
            },
            _ => Step::Act(Action::Nothing),
        }
    }

    /// Preferred popup size as (width%, height%).
    pub fn size(&self) -> (s: (u16, u16))
        ensures
            s == (70u16, 60u16),
    {
        (70, 60)
    }

    /// Whether the shell wants frequent redraws: it never animates.
    pub fn animating(&self) -> (b: bool)
        ensures
            !b,
    {
        false
    }

    /// The line being typed.
    pub fn input(&self) -> (s: &String)
        ensures
            s@ == self@.input,
    {
        &self.input
    }

    /// Everything the shell has shown so far.
    pub fn output(&self) -> (o: &Vec<String>)
        ensures
            text::views(o@) == self@.output,
    {
        &self.output
    }
}

} // verus!
