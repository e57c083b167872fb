//! Reading what the `nb` CLI prints. `nb` is asked for machine-friendly
//! output (no color, header or footer, absolute paths); these functions turn
//! that output into notebooks and notes. Running `nb` is the caller's part.

use vstd::prelude::*;
use crate::path;
use crate::text;

verus! {

/// One note of a notebook.
#[derive(Debug)]
pub struct Note {
    /// The `id` (or `notebook:id`) used to address this note via `nb`.
    pub id: String,
    /// Absolute path to the markdown file on disk.
    pub path: String,
    /// Display title: the first heading, falling back to the filename.
    pub title: String,
}

impl Clone for Note {
    fn clone(&self) -> (r: Self)
        ensures
            r == *self,
    {
        Note { id: self.id.clone(), path: self.path.clone(), title: self.title.clone() }
    }
}

/// The notebook names in `nb notebooks` output: one per line, trimmed, blank
/// lines skipped.
pub open spec fn notebook_names(out: Seq<char>) -> Seq<Seq<char>> {
    text::nonempty(text::lines(out).map_values(|l: Seq<char>| text::trim(l)))
}

/// The `(id, path)` that a line of `nb ls --paths` output describes:
/// `[id] path`, after trimming; other lines describe nothing.
pub open spec fn listing_entry(line: Seq<char>) -> Option<(Seq<char>, Seq<char>)> {
    let l = text::trim(line);
    if l.len() > 0 && l[0] == '[' {
        let rest = l.drop_first();
        match text::find(rest, seq![']', ' ']) {
            Some(k) => Some((rest.take(k), text::trim(rest.skip(k + 2)))),
            None => None,
        }
    } else {
        None
    }
}

/// The entries that the lines `ls` describe, in order.
pub open spec fn listing_entries(ls: Seq<Seq<char>>) -> Seq<(Seq<char>, Seq<char>)>
    decreases ls.len(),
{
    if ls.len() == 0 {
        seq![]
    } else {
        let before = listing_entries(ls.drop_last());
        match listing_entry(ls.last()) {
            Some(e) => before.push(e),
            None => before,
        }
    }
}

/// `s` without its leading `#` characters.
pub open spec fn strip_hashes(s: Seq<char>) -> Seq<char>
    decreases s.len(),
{
    if s.len() > 0 && s[0] == '#' {
        strip_hashes(s.drop_first())
    } else {
        s
    }
}

/// A note's display title: its first line as a heading (hashes and spaces
/// removed) when that line holds something, otherwise the file name without
/// extension, otherwise the path itself.
pub open spec fn title_of(first_line: Option<Seq<char>>, path: Seq<char>) -> Seq<char> {
    if first_line is Some && text::trim(first_line->0).len() > 0 {
        text::trim(strip_hashes(text::trim(first_line->0)))
    } else {
        match path::file_name(path) {
            Some(name) => path::stem(name),
            None => path,
        }
    }
}

/// The tag names in `nb <notebook>: --tags` output: one per line, trimmed,
/// without their leading `#`, empty ones skipped.
pub open spec fn tag_list(out: Seq<char>) -> Seq<Seq<char>> {
    text::nonempty(notebook_names(out).map_values(|n: Seq<char>| strip_hashes(n)))
}

/// The words of a shell command line, without a leading `nb` (it is optional).
pub open spec fn command_args(line: Seq<char>) -> Seq<Seq<char>> {
    let w = text::words(line);
    if w.len() > 0 && w[0] == "nb"@ {
        w.drop_first()
    } else {
        w
    }
}

/// Every `[id] path` line of a listing describes that note, whatever the
/// path looks like (any extension, or none): for an id holding no `] ` and a
/// non-empty path without surrounding whitespace, the entry is `(id, path)`.
pub proof fn law_listing_line_entry(id: Seq<char>, p: Seq<char>)
    requires
        !text::contains_seq(id, seq![']', ' ']),
        p.len() > 0,
        !text::is_ws(p[0]),
        !text::is_ws(p.last()),
    ensures
        listing_entry(seq!['['] + id + seq![']', ' '] + p) == Some((id, p)),
{
    let pat = seq![']', ' '];
    let line = seq!['['] + id + pat + p;
    let n = id.len() as int;
    assert(line[0] == '[');
    assert(line.last() == p.last());
    text::lemma_trim_unchanged(line);
    text::lemma_trim_unchanged(p);
    text::lemma_contains_seq(id, pat);
    let rest = line.drop_first();
    assert(rest =~= id + pat + p);
    assert(rest.subrange(n, n + 2) =~= pat);
    assert forall|j: int| 0 <= j < n implies !#[trigger] text::matches_at(rest, pat, j) by {
        if j + 1 < n {
            assert(rest.subrange(j, j + 2) =~= id.subrange(j, j + 2));
            assert(!text::matches_at(id, pat, j));
        } else {
            assert(rest[j + 1] == ']');
            if text::matches_at(rest, pat, j) {
                assert(rest.subrange(j, j + 2)[1] == rest[j + 1]);
            }
        }
    }
    assert(text::first_match(rest, pat, n));
    text::lemma_find_first(rest, pat, n);
    assert(rest.take(n) =~= id);
    assert(rest.skip(n + 2) =~= p);
}

/// No notebook name read from `nb notebooks` output is empty.
pub proof fn law_notebook_names_nonempty(out: Seq<char>)
    ensures
        forall|i: int|
            0 <= i < notebook_names(out).len() ==> (#[trigger] notebook_names(out)[i]).len() > 0,
{
    text::lemma_nonempty_items(text::lines(out).map_values(|l: Seq<char>| text::trim(l)));
}

/// All notebook names, from the output of `nb notebooks`.
pub fn notebooks(out: &str) -> (names: Vec<String>)
    ensures
        text::views(names@) == notebook_names(out@),
{
    let ls = text::lines_of(out);
    let ghost lv = text::views(ls@);
    let ghost trimmed = lv.map_values(|l: Seq<char>| text::trim(l));
    let mut names: Vec<String> = Vec::new();
    let mut i: usize = 0;
    while i < ls.len()
        invariant
            i <= ls.len(),
            lv == text::views(ls@),
            lv == text::lines(out@),
            trimmed == lv.map_values(|l: Seq<char>| text::trim(l)),
            text::views(names@) == text::nonempty(trimmed.take(i as int)),
        decreases ls.len() - i,
    {
        let t = text::trimmed(ls[i].as_str());
        proof {
            assert(lv[i as int] == ls@[i as int]@);
            assert(trimmed.take(i + 1).drop_last() =~= trimmed.take(i as int));
            assert(trimmed.take(i + 1).last() == t@);
        }
        if t.as_str().is_empty() {
        } else {
            let ghost before = names@;
            names.push(t);
            proof {
                assert(text::views(names@) =~= text::views(before).push(t@));
            }
        }
        i += 1;
    }
    assert(trimmed.take(ls.len() as int) =~= trimmed);
    names
}

/// Every tag of a notebook, from the output of `nb <notebook>: --tags`.
pub fn tag_names(out: &str) -> (tags: Vec<String>)
    ensures
        text::views(tags@) == tag_list(out@),
{
    let names = notebooks(out);
    let ghost stripped = text::views(names@).map_values(|n: Seq<char>| strip_hashes(n));
    let mut tags: Vec<String> = Vec::new();
    let mut i: usize = 0;
    while i < names.len()
        invariant
            i <= names.len(),
            text::views(names@) == notebook_names(out@),
            stripped == text::views(names@).map_values(|n: Seq<char>| strip_hashes(n)),
            text::views(tags@) == text::nonempty(stripped.take(i as int)),
        decreases names.len() - i,
    {
        let t = strip_leading_hashes(&names[i]);
        proof {
            assert(stripped.take(i + 1).drop_last() =~= stripped.take(i as int));
            assert(stripped.take(i + 1).last() == t@);
        }
        if !t.as_str().is_empty() {
            let ghost before = tags@;
            tags.push(t);
            proof {
                assert(text::views(tags@) =~= text::views(before).push(t@));
            }
        }
        i += 1;
    }
    assert(stripped.take(names.len() as int) =~= stripped);
    tags
}

/// The arguments to hand `nb` for a line typed in the shell overlay: its
/// whitespace-separated words, without a leading `nb`.
pub fn command_words(line: &str) -> (args: Vec<String>)
    ensures
        text::views(args@) == command_args(line@),
{
    let mut words = text::split_words(line);
    let nb = String::from_str("nb");
    if words.len() > 0 && words[0] == nb {
        let ghost before = words@;
        words.remove(0);
        proof {
            assert(text::views(words@) =~= text::views(before).drop_first());
        }
    }
    words
}

/// The name of the currently selected notebook, from `nb notebooks current`.
pub fn current_notebook(out: &str) -> (name: String)
    ensures
        name@ == text::trim(out@),
{
    text::trimmed(out)
}

/// The `(id, path)` of every note listed in `nb ls --paths` output, in order.
pub fn note_entries(listing: &str) -> (entries: Vec<(String, String)>)
    ensures
        entries@.map_values(|e: (String, String)| (e.0@, e.1@)) == listing_entries(
            text::lines(listing@),
        ),
{
    let ls = text::lines_of(listing);
    let ghost lv = text::views(ls@);
    let close: Vec<char> = vec![']', ' '];
    let mut entries: Vec<(String, String)> = Vec::new();
    let mut i: usize = 0;
    while i < ls.len()
        invariant
            i <= ls.len(),
            lv == text::views(ls@),
            lv == text::lines(listing@),
            close@ == seq![']', ' '],
            entries@.map_values(|e: (String, String)| (e.0@, e.1@)) == listing_entries(
                lv.take(i as int),
            ),
        decreases ls.len() - i,
    {
        let ghost before = entries@;
        let entry = listing_line(ls[i].as_str(), &close);
        proof {
            assert(lv[i as int] == ls@[i as int]@);
            assert(lv.take(i + 1).drop_last() =~= lv.take(i as int));
            assert(lv.take(i + 1).last() == lv[i as int]);
        }
        match entry {
            Some(e) => {
                entries.push(e);
                proof {
                    assert(entries@.map_values(|e: (String, String)| (e.0@, e.1@)) =~= before.map_values(
                        |e: (String, String)| (e.0@, e.1@),
                    ).push((e.0@, e.1@)));
                }
            },
            None => {},
        }
        i += 1;
    }
    assert(lv.take(ls.len() as int) =~= lv);
    entries
}

/// The entry that one listing line describes.
fn listing_line(line: &str, close: &Vec<char>) -> (r: Option<(String, String)>)
    requires
        close@ == seq![']', ' '],
    ensures
        match listing_entry(line@) {
            Some(e) => r is Some && (r->0).0@ == e.0 && (r->0).1@ == e.1,
            None => r is None,
        },
{
    let cs = text::chars_of(line);
    let (a, b) = text::trim_bounds(&cs, 0, cs.len());
    let ghost l = text::trim(line@);
    assert(cs@.subrange(0, cs@.len() as int) =~= line@);
    if a < b && cs[a] == '[' {
        let ghost rest = l.drop_first();
        assert(rest =~= cs@.subrange(a + 1, b as int));
        match text::find_in(&cs, a + 1, b, close) {
            Some(k) => {
                proof {
                    text::lemma_find_some(rest, close@);
                }
                let id = text::string_of(&cs, a + 1, k);
                let (x, y) = text::trim_bounds(&cs, k + 2, b);
                let path = text::string_of(&cs, x, y);
                proof {
                    assert(id@ =~= rest.take(k - (a + 1)));
                    assert(rest.skip(k - (a + 1) + 2) =~= cs@.subrange(k + 2, b as int));
                }
                Some((id, path))
            },
            None => None,
        }
    } else {
        None
    }
}

/// `s` with its leading `#` characters removed (`trim_start_matches('#')`).
fn strip_leading_hashes(s: &String) -> (r: String)
    ensures
        r@ == strip_hashes(s@),
{
    let cs = text::chars_of(s.as_str());
    let n = cs.len();
    let mut i: usize = 0;
    assert(cs@.subrange(0, n as int) =~= cs@);
    while i < n && cs[i] == '#'
        invariant
            i <= n == cs.len(),
            strip_hashes(cs@) == strip_hashes(cs@.subrange(i as int, n as int)),
        decreases n - i,
    {
        assert(cs@.subrange(i as int, n as int).drop_first() =~= cs@.subrange(i + 1, n as int));
        i += 1;
    }
    assert(cs@.subrange(0, n as int) =~= cs@);
    text::string_of(&cs, i, n)
}

/// Derive a display title from a note's first line (markdown heading), or
/// fall back to the filename stem. `first_line` is the note's first line as
/// read from disk, or `None` when the file could not be opened or read.
pub fn title_for(first_line: Option<String>, path: &str) -> (title: String)
    ensures
        title@ == title_of(
            match first_line {
                Some(l) => Some(l@),
                None => None,
            },
            path@,
        ),
{
    if let Some(line) = first_line {
        let first = text::trimmed(line.as_str());
        if !first.as_str().is_empty() {
            let stripped = strip_leading_hashes(&first);
            return text::trimmed(stripped.as_str());
        }
    }
    match path::path_file_name(path) {
        Some(name) => path::file_stem_of(&name),
        None => String::from_str(path),
    }
}

/// The notes of a listing: each entry with its title derived from the
/// note's first line. `first_lines[i]` belongs to `entries[i]`.
pub fn notes(entries: Vec<(String, String)>, first_lines: Vec<Option<String>>) -> (notes: Vec<Note>)
    requires
        entries.len() == first_lines.len(),
    ensures
        notes.len() == entries.len(),
        forall|i: int|
            0 <= i < notes.len() ==> {
                &&& #[trigger] notes[i].id == entries[i].0
                &&& notes[i].path == entries[i].1
                &&& notes[i].title@ == title_of(
                    match first_lines[i] {
                        Some(l) => Some(l@),
                        None => None,
                    },
                    entries[i].1@,
                )
            },
{
    let mut notes: Vec<Note> = Vec::new();
    let mut i: usize = 0;
    while i < entries.len()
        invariant
            entries.len() == first_lines.len(),
            i <= entries.len(),
            notes.len() == i,
            forall|j: int|
                0 <= j < i ==> {
                    &&& #[trigger] notes[j].id == entries[j].0
                    &&& notes[j].path == entries[j].1
                    &&& notes[j].title@ == title_of(
                        match first_lines[j] {
                            Some(l) => Some(l@),
                            None => None,
                        },
                        entries[j].1@,
                    )
                },
        decreases entries.len() - i,
    {
        let title = title_for(first_lines[i].clone(), entries[i].1.as_str());
        notes.push(Note { id: entries[i].0.clone(), path: entries[i].1.clone(), title });
        i += 1;
    }
    notes
}

} // verus!
