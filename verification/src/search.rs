//! Telescope-style live grep over a notebook's notes, powered by ripgrep.
//! Each keystroke asks for `rg` to be run over the note files (the caller
//! runs it); Enter jumps to the match.

use vstd::prelude::*;
use crate::nb::Note;
use crate::overlay::{Action, Key, Step};
use crate::text;

verus! {

/// The most matches a search keeps.
pub const MAX_HITS: usize = 200;

/// One ripgrep match: a note path, the line number, and the matched text.
pub struct Hit {
    pub path: String,
    pub line: u32,
    pub text: String,
}

/// What a `path:line:text` ripgrep line says: the path before the first `:`,
/// a `u32` line number before the second `:`, and the rest, trimmed.
pub open spec fn rg_hit(line: Seq<char>) -> Option<(Seq<char>, nat, Seq<char>)> {
    match text::find(line, seq![':']) {
        Some(a) => {
            let rest = line.skip(a + 1);
            match text::find(rest, seq![':']) {
                Some(b) => match text::parse_unsigned(rest.take(b), u32::MAX as nat) {
                    Some(n) => Some((line.take(a), n, text::trim(rest.skip(b + 1)))),
                    None => None,
                },
                None => None,
            }
        },
        None => None,
    }
}

/// The arguments ripgrep is run with for `query` over `files`: line numbers,
/// no headings or color, smart case, at most 20 matches per file, the query
/// as the pattern, then the files.
pub open spec fn rg_arg_list(query: Seq<char>, files: Seq<Seq<char>>) -> Seq<Seq<char>> {
    seq![
        "--line-number"@,
        "--no-heading"@,
        "--color"@,
        "never"@,
        "--smart-case"@,
        "--max-count"@,
        "20"@,
        "-e"@,
        query,
        "--"@,
    ] + files
}

/// The hit a ripgrep line describes, as a value.
pub open spec fn hit_view(h: Hit) -> (Seq<char>, nat, Seq<char>) {
    (h.path@, h.line as nat, h.text@)
}

/// The hits that the lines `ls` describe, in order.
pub open spec fn rg_hits(ls: Seq<Seq<char>>) -> Seq<(Seq<char>, nat, Seq<char>)>
    decreases ls.len(),
{
    if ls.len() == 0 {
        seq![]
    } else {
        let before = rg_hits(ls.drop_last());
        match rg_hit(ls.last()) {
            Some(h) => before.push(h),
            None => before,
        }
    }
}

/// The hits a search keeps from ripgrep's output: the first `MAX_HITS`.
pub open spec fn kept_hits(out: Seq<char>) -> Seq<(Seq<char>, nat, Seq<char>)> {
    let all = rg_hits(text::lines(out));
    if all.len() <= MAX_HITS {
        all
    } else {
        all.take(MAX_HITS as int)
    }
}

/// Parse a `path:line:text` ripgrep line.
pub fn parse_rg(line: &str) -> (r: Option<Hit>)
    ensures
        match rg_hit(line@) {
            Some(h) => r is Some && hit_view(r->0) == h,
            None => r is None,
        },
{
    let cs = text::chars_of(line);
    let n = cs.len();
    let colon: Vec<char> = vec![':'];
    assert(cs@.subrange(0, n as int) =~= line@);
    assert(colon@ =~= seq![':']);
    let a = match text::find_in(&cs, 0, n, &colon) {
        Some(a) => a,
        None => {
            assert(text::find(line@, seq![':']) is None);
            return None;
        },
    };
    proof {
        text::lemma_find_some(line@, colon@);
        assert(line@.skip(a + 1) =~= cs@.subrange(a + 1, n as int));
    }
    let ghost rest = cs@.subrange(a + 1, n as int);
    let b = match text::find_in(&cs, a + 1, n, &colon) {
        Some(b) => b,
        None => {
            assert(text::find(line@, seq![':']) == Some(a as int));
            assert(text::find(rest, seq![':']) is None);
            return None;
        },
    };
    proof {
        text::lemma_find_some(rest, colon@);
        assert(rest.take(b - (a + 1)) =~= cs@.subrange(a + 1, b as int));
        assert(rest.skip(b - (a + 1) + 1) =~= cs@.subrange(b + 1, n as int));
    }
    let num = match text::parse_unsigned_in(&cs, a + 1, b, 0xffff_ffff) {
        Some(v) => v as u32,
        None => return None,
    };
    let path = text::string_of(&cs, 0, a);
    let (x, y) = text::trim_bounds(&cs, b + 1, n);
    let txt = text::string_of(&cs, x, y);
    proof {
        assert(path@ =~= line@.take(a as int));
        assert(text::find(line@, seq![':']) == Some(a as int));
        assert(text::find(rest, seq![':']) == Some(b - (a + 1)));
        assert(text::parse_unsigned(rest.take(b - (a + 1)), u32::MAX as nat) == Some(num as nat));
        assert(txt@ == text::trim(rest.skip(b - (a + 1) + 1)));
    }
    Some(Hit { path, line: num, text: txt })
}

/// Telescope-style live grep over a notebook's notes.
pub struct Search {
    notebook: String,
    files: Vec<String>,
    /// (path, display label `[id] Title`) for results.
    labels: Vec<(String, String)>,
    query: String,
    results: Vec<Hit>,
    selected: usize,
    note: String,
}

/// The state of a [`Search`].
pub struct SearchView {
    pub notebook: Seq<char>,
    pub files: Seq<Seq<char>>,
    pub labels: Seq<(Seq<char>, Seq<char>)>,
    pub query: Seq<char>,
    pub results: Seq<(Seq<char>, nat, Seq<char>)>,
    pub selected: nat,
    pub note: Seq<char>,
}

/// The label a search result shows for a note: `[id] title`.
pub open spec fn note_label(n: Note) -> Seq<char> {
    "["@ + n.id@ + "] "@ + n.title@
}

/// The message a search shows before any query.
pub open spec fn idle_note() -> Seq<char> {
    "type to grep this notebook (ripgrep)"@
}

impl View for Search {
    type V = SearchView;

    closed spec fn view(&self) -> SearchView {
        SearchView {
            notebook: self.notebook@,
            files: text::views(self.files@),
            labels: self.labels@.map_values(|l: (String, String)| (l.0@, l.1@)),
            query: self.query@,
            results: self.results@.map_values(|h: Hit| hit_view(h)),
            selected: self.selected as nat,
            note: self.note@,
        }
    }
}

/// What a search does after its query changed: the trimmed query is to be
/// grepped for, unless it is blank or there are no files.
pub open spec fn grep_for(v: SearchView) -> Option<Seq<char>> {
    let q = text::trim(v.query);
    if q.len() == 0 || v.files.len() == 0 {
        None
    } else {
        Some(q)
    }
}

impl Search {
    /// The selection is within the results (or zero when there are none).
    /// Every search keeps this.
    #[verifier::type_invariant]
    pub open spec fn wf(&self) -> bool {
        if self@.results.len() == 0 {
            self@.selected == 0
        } else {
            self@.selected < self@.results.len()
        }
    }

    pub fn new(notebook: String, notes: &[Note]) -> (s: Self)
        ensures
            s.wf(),
            s@.notebook == notebook@,
            s@.files == notes@.map_values(|n: Note| n.path@),
            s@.labels == notes@.map_values(|n: Note| (n.path@, note_label(n))),
            s@.query.len() == 0,
            s@.results.len() == 0,
            s@.selected == 0,
            s@.note == idle_note(),
    {
        let mut files: Vec<String> = Vec::new();
        let mut labels: Vec<(String, String)> = Vec::new();
        let mut i: usize = 0;
        while i < notes.len()
            invariant
                i <= notes.len(),
                text::views(files@) == notes@.take(i as int).map_values(|n: Note| n.path@),
                labels@.map_values(|l: (String, String)| (l.0@, l.1@)) == notes@.take(
                    i as int,
                ).map_values(|n: Note| (n.path@, note_label(n))),
            decreases notes.len() - i,
        {
            let n = &notes[i];
            let mut label = String::from_str("[");
            label.append(n.id.as_str());
            label.append("] ");
            label.append(n.title.as_str());
            let ghost f0 = files@;
            let ghost l0 = labels@;
            files.push(n.path.clone());
            labels.push((n.path.clone(), label));
            proof {
                assert(text::views(files@) =~= text::views(f0).push(n.path@));
                assert(notes@.take(i + 1) =~= notes@.take(i as int).push(notes@[i as int]));
                assert(labels@.map_values(|l: (String, String)| (l.0@, l.1@)) =~= l0.map_values(
                    |l: (String, String)| (l.0@, l.1@),
                ).push((n.path@, note_label(*n))));
                assert(notes@.take(i + 1).map_values(|n: Note| n.path@) =~= notes@.take(
                    i as int,
                ).map_values(|n: Note| n.path@).push(n.path@));
                assert(notes@.take(i + 1).map_values(|n: Note| (n.path@, note_label(n)))
                    =~= notes@.take(i as int).map_values(|n: Note| (n.path@, note_label(n))).push(
                    (n.path@, note_label(*n)),
                ));
            }
            i += 1;
        }
        proof {
            assert(notes@.take(notes.len() as int) =~= notes@);
        }
        let s = Search {
            notebook,
            files,
            labels,
            query: String::new(),
            results: Vec::new(),
            selected: 0,
            note: String::from_str("type to grep this notebook (ripgrep)"),
        };
        proof {
            assert(s@.results =~= Seq::<(Seq<char>, nat, Seq<char>)>::empty());
        }
        s
    }

    /// Start a search for the current query: results are cleared and, unless
    /// the query is blank or there are no files, the trimmed query is
    /// returned for ripgrep to run (then [`Search::show_results`]).
    pub fn run(&mut self) -> (q: Option<String>)
        ensures
            final(self).wf(),
            final(self)@.results.len() == 0,
            final(self)@.selected == 0,
            final(self)@.notebook == old(self)@.notebook,
            final(self)@.files == old(self)@.files,
            final(self)@.labels == old(self)@.labels,
            final(self)@.query == old(self)@.query,
            match grep_for(old(self)@) {
                Some(g) => q is Some && q->0@ == g && final(self)@.note == old(self)@.note,
                None => q is None && final(self)@.note == idle_note(),
            },
    {
        self.selected = 0;
        self.results = Vec::new();
        let q = text::trimmed(self.query.as_str());
        proof {
            assert(self@.results =~= Seq::<(Seq<char>, nat, Seq<char>)>::empty());
            assert(text::views(self.files@).len() == self.files.len());
        }
        if q.as_str().is_empty() || self.files.len() == 0 {
            self.note = String::from_str("type to grep this notebook (ripgrep)");
            return None;
        }
        Some(q)
    }

    /// The arguments to run ripgrep with for the query `q` that
    /// [`Search::run`] returned, over this search's files.
    pub fn rg_args(&self, q: &String) -> (args: Vec<String>)
        ensures
            text::views(args@) == rg_arg_list(q@, self@.files),
    {
        let mut args: Vec<String> = Vec::new();
        args.push(String::from_str("--line-number"));
        args.push(String::from_str("--no-heading"));
        args.push(String::from_str("--color"));
        args.push(String::from_str("never"));
        args.push(String::from_str("--smart-case"));
        args.push(String::from_str("--max-count"));
        args.push(String::from_str("20"));
        args.push(String::from_str("-e"));
        args.push(q.clone());
        args.push(String::from_str("--"));
        let ghost head = text::views(args@);
        let mut i: usize = 0;
        while i < self.files.len()
            invariant
                i <= self.files.len(),
                text::views(args@) == head + text::views(self.files@).take(i as int),
            decreases self.files.len() - i,
        {
            let ghost before = args@;
            args.push(self.files[i].clone());
            proof {
                assert(text::views(self.files@).take(i + 1) =~= text::views(self.files@).take(
                    i as int,
                ).push(self.files@[i as int]@));
                assert(text::views(args@) =~= text::views(before).push(self.files@[i as int]@));
            }
            i += 1;
        }
        proof {
            assert(text::views(self.files@).take(self.files.len() as int) =~= text::views(
                self.files@,
            ));
            assert(head =~= seq![
                "--line-number"@,
                "--no-heading"@,
                "--color"@,
                "never"@,
                "--smart-case"@,
                "--max-count"@,
                "20"@,
                "-e"@,
                q@,
                "--"@,
            ]);
        }
        args
    }

    /// Take ripgrep's output: `None` when ripgrep could not be started,
    /// otherwise its standard output. Keeps the first `MAX_HITS` matches.
    pub fn show_results(&mut self, out: Option<&str>)
        ensures
            final(self).wf(),
            final(self)@.notebook == old(self)@.notebook,
            final(self)@.files == old(self)@.files,
            final(self)@.labels == old(self)@.labels,
            final(self)@.query == old(self)@.query,
            final(self)@.selected == 0,
            match out {
                None => final(self)@.results.len() == 0 && final(self)@.note
                    == "ripgrep (rg) not found on PATH"@,
                Some(o) => {
                    &&& final(self)@.results == kept_hits(o@)
                    &&& final(self)@.note == (if kept_hits(o@).len() == 0 {
                        "no matches"@
                    } else {
                        text::decimal(kept_hits(o@).len()) + " matches"@
                    })
                },
            },
    {
        self.selected = 0;
        self.results = Vec::new();
        proof {
            assert(self@.results =~= Seq::<(Seq<char>, nat, Seq<char>)>::empty());
        }
        match out {
            None => {
                self.note = String::from_str("ripgrep (rg) not found on PATH");
            },
            Some(o) => {
                let ls = text::lines_of(o);
                let ghost lv = text::views(ls@);
                let mut results: Vec<Hit> = Vec::new();
                let mut i: usize = 0;
                while i < ls.len() && results.len() < MAX_HITS
                    invariant
                        i <= ls.len(),
                        lv == text::views(ls@),
                        lv == text::lines(o@),
                        results@.map_values(|h: Hit| hit_view(h)) == rg_hits(lv.take(i as int)),
                        results.len() <= MAX_HITS,
                    decreases ls.len() - i,
                {
                    let ghost r0 = results@;
                    let hit = parse_rg(ls[i].as_str());
                    proof {
                        assert(lv[i as int] == ls@[i as int]@);
                        assert(lv.take(i + 1).drop_last() =~= lv.take(i as int));
                        assert(lv.take(i + 1).last() == lv[i as int]);
                    }
                    match hit {
                        Some(h) => {
                            results.push(h);
                            proof {
                                assert(results@.map_values(|h: Hit| hit_view(h)) =~= r0.map_values(
                                    |h: Hit| hit_view(h),
                                ).push(hit_view(h)));
                            }
                        },
                        None => {},
                    }
                    i += 1;
                }
                proof {
                    if i == ls.len() {
                        assert(lv.take(i as int) =~= lv);
                    }
                    let all = rg_hits(lv);
                    lemma_hits_prefix(lv, i as int);
                    assert(results@.map_values(|h: Hit| hit_view(h)) == kept_hits(o@)) by {
                        if results.len() >= MAX_HITS {
                            assert(all.take(MAX_HITS as int) =~= rg_hits(lv.take(i as int)));
                        }
                    }
                }
                let count = results.len();
                self.results = results;
                if count == 0 {
                    self.note = String::from_str("no matches");
                } else {
                    let mut note = String::new();
                    text::push_decimal(&mut note, count);
                    note.append(" matches");
                    self.note = note;
                }
            },
        }
    }

    /// Handle a key: `Esc` closes, `Enter` jumps to the selected match, the
    /// arrows move the selection, typing edits the query and asks for a new
    /// grep.
    pub fn on_key(&mut self, key: Key) -> (st: Step)
        ensures
            final(self).wf(),
            final(self)@.notebook == old(self)@.notebook,
            final(self)@.files == old(self)@.files,
            final(self)@.labels == old(self)@.labels,
            match key {
                Key::Esc => st == Step::Act(Action::Close) && final(self)@ == old(self)@,
                Key::Enter => final(self)@ == old(self)@ && (if old(self)@.selected < old(self)@.results.len() {
                    st matches Step::Act(Action::SelectNote(p)) && p@ == old(self)@.results[old(self)@.selected as int].0
                } else {
                    st == Step::Act(Action::Nothing)
                }),
                Key::Up => st == Step::Act(Action::Nothing) && final(self)@ == (SearchView {
                    selected: if old(self)@.selected == 0 {
                        0
                    } else {
                        (old(self)@.selected - 1) as nat
                    },
                    ..old(self)@
                }),
                Key::Down => st == Step::Act(Action::Nothing) && final(self)@ == (SearchView {
                    selected: if old(self)@.selected + 1 < old(self)@.results.len() {
                        old(self)@.selected + 1
                    } else {
                        old(self)@.selected
                    },
                    ..old(self)@
                }),
                Key::Backspace | Key::Char(_) => {
                    &&& final(self)@.query == (match key {
                        Key::Char(c) => old(self)@.query.push(c),
                        _ => if old(self)@.query.len() == 0 {
                            old(self)@.query
                        } else {
                            old(self)@.query.drop_last()
                        },
                    })
                    &&& final(self)@.results.len() == 0
                    &&& final(self)@.selected == 0
                    &&& match grep_for(final(self)@) {
                        Some(g) => st matches Step::Run(q) && q@ == g && final(self)@.note == old(self)@.note,
                        None => st == Step::Act(Action::Nothing) && final(self)@.note
                            == idle_note(),
                    }
                },
                _ => st == Step::Act(Action::Nothing) && final(self)@ == old(self)@,
            },
    {
        proof {
            use_type_invariant(&*self);
        }
        match key {
            Key::Esc => Step::Act(Action::Close),
            Key::Enter => {
                if self.selected < self.results.len() {
                    proof {
                        assert(self@.results[self.selected as int] == hit_view(
                            self.results@[self.selected as int],
                        ));
                    }
                    Step::Act(Action::SelectNote(self.results[self.selected].path.clone()))
                } else {
                    Step::Act(Action::Nothing)
                }
            },
            Key::Up => {
                if self.selected > 0 {
                    self.selected = self.selected - 1;
                }
                Step::Act(Action::Nothing)
            },
            Key::Down => {
                if self.selected < self.results.len() && self.selected + 1 < self.results.len() {
                    self.selected = self.selected + 1;
                }
                Step::Act(Action::Nothing)
            },
            Key::Backspace => {
                let mut query = String::new();
                std::mem::swap(&mut query, &mut self.query);
                text::pop_char(&mut query);
                self.query = query;
                match self.run() {
                    Some(q) => Step::Run(q),
                    None => Step::Act(Action::Nothing),
                }
            },
            Key::Char(c) => {
                let mut query = String::new();
                std::mem::swap(&mut query, &mut self.query);
                text::push_char(&mut query, c);
                self.query = query;
                match self.run() {
                    Some(q) => Step::Run(q),
                    None => Step::Act(Action::Nothing),
                }
            },
            _ => Step::Act(Action::Nothing),
        }
    }

    /// The label of the note at `path`: that of the last note listed with
    /// this path.
    pub fn label_of(&self, path: &String) -> (r: Option<String>)
        ensures
            match r {
                Some(l) => exists|i: int|
                    0 <= i < self@.labels.len() && self@.labels[i] == (path@, l@) && forall|j: int|
                        i < j < self@.labels.len() ==> self@.labels[j].0 != path@,
                None => forall|i: int| 0 <= i < self@.labels.len() ==> self@.labels[i].0 != path@,
            },
    {
        let mut i = self.labels.len();
        while i > 0
            invariant
                i <= self.labels.len(),
                forall|j: int| i <= j < self.labels.len() ==> self@.labels[j].0 != path@,
            decreases i,
        {
            proof {
                assert(self@.labels[i - 1] == (self.labels@[i - 1].0@, self.labels@[i - 1].1@));
            }
            if self.labels[i - 1].0 == *path {
                return Some(self.labels[i - 1].1.clone());
            }
            i -= 1;
        }
        None
    }

    /// Preferred popup size as (width%, height%).
    pub fn size(&self) -> (s: (u16, u16))
        ensures
            s == (80u16, 70u16),
    {
        (80, 70)
    }

    /// Whether the search wants frequent redraws: it never animates.
    pub fn animating(&self) -> (b: bool)
        ensures
            !b,
    {
        false
    }

    /// The notebook being searched.
    pub fn notebook(&self) -> (n: &String)
        ensures
            n@ == self@.notebook,
    {
        &self.notebook
    }

    /// The note files to grep.
    pub fn files(&self) -> (f: &Vec<String>)
        ensures
            text::views(f@) == self@.files,
    {
        &self.files
    }

    /// The query typed so far.
    pub fn query(&self) -> (q: &String)
        ensures
            q@ == self@.query,
    {
        &self.query
    }

    /// The matches shown.
    pub fn results(&self) -> (r: &Vec<Hit>)
        ensures
            r@.map_values(|h: Hit| hit_view(h)) == self@.results,
    {
        &self.results
    }

    /// Position of the selection among the matches.
    pub fn selected(&self) -> (s: usize)
        ensures
            s == self@.selected,
    {
        self.selected
    }

    /// The message shown when there are no matches.
    pub fn note(&self) -> (n: &String)
        ensures
            n@ == self@.note,
    {
        &self.note
    }
}

/// A search never keeps more than `MAX_HITS` matches.
pub proof fn law_results_capped(out: Seq<char>)
    ensures
        kept_hits(out).len() <= MAX_HITS,
{
}

/// Hits from a prefix of the lines are a prefix of all the hits.
pub proof fn lemma_hits_prefix(ls: Seq<Seq<char>>, k: int)
    requires
        0 <= k <= ls.len(),
    ensures
        rg_hits(ls.take(k)).len() <= rg_hits(ls).len(),
        rg_hits(ls.take(k)) == rg_hits(ls).take(rg_hits(ls.take(k)).len() as int),
    decreases ls.len() - k,
{
    if k == ls.len() {
        assert(ls.take(k) =~= ls);
        assert(rg_hits(ls).take(rg_hits(ls).len() as int) =~= rg_hits(ls));
    } else {
        lemma_hits_prefix(ls, k + 1);
        let a = rg_hits(ls.take(k));
        let b = rg_hits(ls.take(k + 1));
        assert(ls.take(k + 1).drop_last() =~= ls.take(k));
        let all = rg_hits(ls);
        if b.len() == a.len() + 1 {
            assert(a =~= b.drop_last());
            assert(all.take(a.len() as int) =~= b.take(a.len() as int));
            assert(b.take(a.len() as int) =~= a);
        } else {
            assert(a == b);
        }
    }
}

} // verus!
