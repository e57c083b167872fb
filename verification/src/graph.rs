//! The relationship graph of a notebook, Obsidian/Quartz style: notes are
//! nodes, `[[links]]` and shared `#tags` are edges. This module decides the
//! edges; laying the graph out and drawing it is the application's part.

use vstd::prelude::*;
use crate::app;
use crate::markup;
use crate::overlay::{Action, Key};
use crate::nb::Note;
use crate::text;

verus! {

/// What an edge of the graph stands for.
#[derive(Clone, Copy, Debug, PartialEq, Eq, Structural)]
pub enum EdgeKind {
    Link,
    Tag,
}

/// An edge between two notes, by their positions in the note list.
pub type Edge = (usize, usize, EdgeKind);

/// A link target names this note: its title, ignoring ASCII case, or its id.
pub open spec fn note_matches(n: Note, t: Seq<char>) -> bool {
    text::eq_ascii_nocase(n.title@, t) || n.id@ == t
}

/// `j` is the first note that `t` names.
pub open spec fn first_note(notes: Seq<Note>, t: Seq<char>, j: int) -> bool {
    &&& 0 <= j < notes.len()
    &&& note_matches(notes[j], t)
    &&& forall|k: int| 0 <= k < j ==> !note_matches(#[trigger] notes[k], t)
}

/// The note a link target resolves to: the first one it names.
pub open spec fn resolve(notes: Seq<Note>, t: Seq<char>) -> Option<int> {
    if exists|j: int| first_note(notes, t, j) {
        Some(choose|j: int| first_note(notes, t, j))
    } else {
        None
    }
}

/// The unordered pair of notes an edge joins, smaller position first.
pub open spec fn key(e: Edge) -> (usize, usize) {
    if e.0 <= e.1 {
        (e.0, e.1)
    } else {
        (e.1, e.0)
    }
}

/// Some edge of `es` joins the pair `k`.
pub open spec fn has_key(es: Seq<Edge>, k: (usize, usize)) -> bool {
    exists|m: int| 0 <= m < es.len() && key(#[trigger] es[m]) == k
}

/// `es` extended by the link edges from note `i` to the notes its targets
/// `ts` resolve to, in order: no edge from a note to itself, and none for a
/// pair that is already joined.
pub open spec fn add_links(es: Seq<Edge>, notes: Seq<Note>, i: usize, ts: Seq<Seq<char>>) -> Seq<
    Edge,
>
    decreases ts.len(),
{
    if ts.len() == 0 {
        es
    } else {
        let es1 = add_links(es, notes, i, ts.drop_last());
        match resolve(notes, ts.last()) {
            Some(j) => if j != i && !has_key(es1, key((i, j as usize, EdgeKind::Link))) {
                es1.push((i, j as usize, EdgeKind::Link))
            } else {
                es1
            },
            None => es1,
        }
    }
}

/// The link edges of the first `k` notes, note after note.
pub open spec fn link_edges(notes: Seq<Note>, links: Seq<Seq<Seq<char>>>, k: int) -> Seq<Edge>
    decreases k,
{
    if k <= 0 {
        seq![]
    } else {
        add_links(link_edges(notes, links, k - 1), notes, (k - 1) as usize, links[k - 1])
    }
}

/// Two notes' tag lists have a tag in common.
pub open spec fn share_tag(a: Seq<Seq<char>>, b: Seq<Seq<char>>) -> bool {
    exists|x: Seq<char>| a.contains(x) && b.contains(x)
}

/// The tag edges from note `i` to notes `i+1 .. j`: one for each note that
/// shares a tag with note `i` and is not linked to it.
pub open spec fn tag_row(linked: Seq<Edge>, tags: Seq<Seq<Seq<char>>>, i: int, j: int) -> Seq<Edge>
    decreases j - i,
{
    if j <= i + 1 {
        seq![]
    } else {
        let row = tag_row(linked, tags, i, j - 1);
        if share_tag(tags[i], tags[j - 1]) && !has_key(linked, (i as usize, (j - 1) as usize)) {
            row.push((i as usize, (j - 1) as usize, EdgeKind::Tag))
        } else {
            row
        }
    }
}

/// The tag edges whose first note is among the first `k` of `n`.
pub open spec fn tag_edges(linked: Seq<Edge>, tags: Seq<Seq<Seq<char>>>, k: int, n: int) -> Seq<
    Edge,
>
    decreases k,
{
    if k <= 0 {
        seq![]
    } else {
        tag_edges(linked, tags, k - 1, n) + tag_row(linked, tags, k - 1, n)
    }
}

/// The link targets of each note, from its text.
pub open spec fn links_of(texts: Seq<String>) -> Seq<Seq<Seq<char>>> {
    texts.map_values(|t: String| markup::wiki_links(text::lines(t@)))
}

/// The tags of each note, from its text.
pub open spec fn tags_of(texts: Seq<String>) -> Seq<Seq<Seq<char>>> {
    texts.map_values(|t: String| markup::tags(text::lines(t@)))
}

/// The edges of the graph of `notes`, whose texts are `texts`: first the link
/// edges in link order, then the tag edges between notes that share a tag,
/// skipping pairs that a link already joins.
pub open spec fn graph_edges_spec(notes: Seq<Note>, texts: Seq<String>) -> Seq<Edge> {
    let linked = link_edges(notes, links_of(texts), notes.len() as int);
    linked + tag_edges(linked, tags_of(texts), notes.len() as int, notes.len() as int)
}

/// The edges join notes among the first `n`, never a note to itself, and
/// no two edges join the same pair of notes.
pub open spec fn edges_ok(es: Seq<Edge>, n: int) -> bool {
    &&& forall|m: int|
        0 <= m < es.len() ==> (#[trigger] es[m]).0 < n && es[m].1 < n && es[m].0 != es[m].1
    &&& forall|a: int, b: int| 0 <= a < b < es.len() ==> key(#[trigger] es[a]) != key(#[trigger] es[b])
}

/// Tag edges run from a smaller to a larger position below `n`, join pairs
/// that `linked` does not, and come in strictly increasing order of pairs.
pub open spec fn tag_edges_ok(ts: Seq<Edge>, linked: Seq<Edge>, n: int) -> bool {
    &&& forall|m: int|
        0 <= m < ts.len() ==> {
            &&& (#[trigger] ts[m]).0 < ts[m].1 < n
            &&& ts[m].2 == EdgeKind::Tag
            &&& !has_key(linked, (ts[m].0, ts[m].1))
        }
    &&& forall|a: int, b: int|
        0 <= a < b < ts.len() ==> (#[trigger] ts[a]).0 < (#[trigger] ts[b]).0 || (ts[a].0
            == ts[b].0 && ts[a].1 < ts[b].1)
}

proof fn lemma_resolve_in_range(notes: Seq<Note>, t: Seq<char>)
    ensures
        resolve(notes, t) matches Some(j) ==> 0 <= j < notes.len(),
{
    if exists|j: int| first_note(notes, t, j) {
        let j = choose|j: int| first_note(notes, t, j);
        assert(first_note(notes, t, j));
    }
}

proof fn lemma_add_links_ok(es: Seq<Edge>, notes: Seq<Note>, i: usize, ts: Seq<Seq<char>>)
    requires
        edges_ok(es, notes.len() as int),
        i < notes.len(),
        notes.len() <= usize::MAX,
    ensures
        edges_ok(add_links(es, notes, i, ts), notes.len() as int),
    decreases ts.len(),
{
    if ts.len() > 0 {
        lemma_add_links_ok(es, notes, i, ts.drop_last());
        let es1 = add_links(es, notes, i, ts.drop_last());
        lemma_resolve_in_range(notes, ts.last());
        match resolve(notes, ts.last()) {
            Some(j) => {
                if j != i && !has_key(es1, key((i, j as usize, EdgeKind::Link))) {
                    let e = (i, j as usize, EdgeKind::Link);
                    let es2 = es1.push(e);
                    assert forall|a: int, b: int| 0 <= a < b < es2.len() implies key(
                        #[trigger] es2[a],
                    ) != key(#[trigger] es2[b]) by {
                        if b == es1.len() {
                            assert(es2[a] == es1[a]);
                            assert(es2[b] == e);
                        } else {
                            assert(es2[a] == es1[a]);
                            assert(es2[b] == es1[b]);
                        }
                    }
                    assert forall|m: int| 0 <= m < es2.len() implies (#[trigger] es2[m]).0
                        < notes.len() && es2[m].1 < notes.len() && es2[m].0 != es2[m].1 by {
                        if m < es1.len() {
                            assert(es2[m] == es1[m]);
                        }
                    }
                }
            },
            None => {},
        }
    }
}

proof fn lemma_link_edges_ok(notes: Seq<Note>, links: Seq<Seq<Seq<char>>>, k: int)
    requires
        k <= notes.len() <= usize::MAX,
    ensures
        edges_ok(link_edges(notes, links, k), notes.len() as int),
    decreases k,
{
    if k > 0 {
        lemma_link_edges_ok(notes, links, k - 1);
        lemma_add_links_ok(link_edges(notes, links, k - 1), notes, (k - 1) as usize, links[k - 1]);
    }
}

proof fn lemma_tag_row(linked: Seq<Edge>, tags: Seq<Seq<Seq<char>>>, i: int, j: int, n: int)
    requires
        0 <= i,
        j <= n <= usize::MAX,
    ensures
        forall|m: int|
            0 <= m < tag_row(linked, tags, i, j).len() ==> {
                &&& (#[trigger] tag_row(linked, tags, i, j)[m]).0 == i
                &&& i < tag_row(linked, tags, i, j)[m].1 < j
                &&& tag_row(linked, tags, i, j)[m].2 == EdgeKind::Tag
                &&& !has_key(
                    linked,
                    (tag_row(linked, tags, i, j)[m].0, tag_row(linked, tags, i, j)[m].1),
                )
            },
        forall|a: int, b: int|
            0 <= a < b < tag_row(linked, tags, i, j).len() ==> (#[trigger] tag_row(
                linked,
                tags,
                i,
                j,
            )[a]).1 < (#[trigger] tag_row(linked, tags, i, j)[b]).1,
    decreases j - i,
{
    if j > i + 1 {
        lemma_tag_row(linked, tags, i, j - 1, n);
        let row = tag_row(linked, tags, i, j - 1);
        let r = tag_row(linked, tags, i, j);
        assert forall|m: int| 0 <= m < r.len() implies {
            &&& (#[trigger] r[m]).0 == i
            &&& i < r[m].1 < j
            &&& r[m].2 == EdgeKind::Tag
            &&& !has_key(linked, (r[m].0, r[m].1))
        } by {
            if m < row.len() {
                assert(r[m] == row[m]);
            }
        }
        assert forall|a: int, b: int| 0 <= a < b < r.len() implies (#[trigger] r[a]).1 < (
        #[trigger] r[b]).1 by {
            assert(r[a] == row[a]);
            if b < row.len() {
                assert(r[b] == row[b]);
            }
        }
    }
}

proof fn lemma_tag_edges_ok(linked: Seq<Edge>, tags: Seq<Seq<Seq<char>>>, k: int, n: int)
    requires
        k <= n <= usize::MAX,
    ensures
        tag_edges_ok(tag_edges(linked, tags, k, n), linked, n),
        forall|m: int|
            0 <= m < tag_edges(linked, tags, k, n).len() ==> (#[trigger] tag_edges(
                linked,
                tags,
                k,
                n,
            )[m]).0 < k,
    decreases k,
{
    if k > 0 {
        lemma_tag_edges_ok(linked, tags, k - 1, n);
        lemma_tag_row(linked, tags, k - 1, n, n);
        let before = tag_edges(linked, tags, k - 1, n);
        let row = tag_row(linked, tags, k - 1, n);
        let all = tag_edges(linked, tags, k, n);
        assert(all == before + row);
        assert forall|m: int| 0 <= m < all.len() implies {
            &&& (#[trigger] all[m]).0 < all[m].1 < n
            &&& all[m].2 == EdgeKind::Tag
            &&& !has_key(linked, (all[m].0, all[m].1))
            &&& all[m].0 < k
        } by {
            if m < before.len() {
                assert(all[m] == before[m]);
            } else {
                assert(all[m] == row[m - before.len()]);
            }
        }
        assert forall|a: int, b: int| 0 <= a < b < all.len() implies (#[trigger] all[a]).0 < (
        #[trigger] all[b]).0 || (all[a].0 == all[b].0 && all[a].1 < all[b].1) by {
            if b < before.len() {
                assert(all[a] == before[a]);
                assert(all[b] == before[b]);
            } else if a < before.len() {
                assert(all[a] == before[a]);
                assert(all[b] == row[b - before.len()]);
            } else {
                assert(all[a] == row[a - before.len()]);
                assert(all[b] == row[b - before.len()]);
            }
        }
    }
}

/// The graph is simple: every edge joins two different notes of the
/// notebook, no pair of notes is joined twice (a pair already joined by a
/// link gets no tag edge), and each tag edge runs from a note to a later one
/// that shares a tag with it.
pub proof fn law_graph_is_simple(notes: Seq<Note>, texts: Seq<String>)
    requires
        notes.len() == texts.len() <= usize::MAX,
    ensures
        edges_ok(graph_edges_spec(notes, texts), notes.len() as int),
        forall|m: int|
            0 <= m < graph_edges_spec(notes, texts).len() && (#[trigger] graph_edges_spec(
                notes,
                texts,
            )[m]).2 == EdgeKind::Tag ==> graph_edges_spec(notes, texts)[m].0 < graph_edges_spec(
                notes,
                texts,
            )[m].1 && share_tag(
                tags_of(texts)[graph_edges_spec(notes, texts)[m].0 as int],
                tags_of(texts)[graph_edges_spec(notes, texts)[m].1 as int],
            ),
{
    let n = notes.len() as int;
    let linked = link_edges(notes, links_of(texts), n);
    let tags = tags_of(texts);
    let te = tag_edges(linked, tags, n, n);
    lemma_link_edges_ok(notes, links_of(texts), n);
    lemma_tag_edges_ok(linked, tags, n, n);
    lemma_tag_edges_share(linked, tags, n, n);
    let es = graph_edges_spec(notes, texts);
    assert(es == linked + te);
    assert forall|m: int| 0 <= m < es.len() implies (#[trigger] es[m]).0 < n && es[m].1 < n
        && es[m].0 != es[m].1 by {
        if m < linked.len() {
            assert(es[m] == linked[m]);
        } else {
            assert(es[m] == te[m - linked.len()]);
        }
    }
    assert forall|a: int, b: int| 0 <= a < b < es.len() implies key(#[trigger] es[a]) != key(
        #[trigger] es[b],
    ) by {
        if b < linked.len() {
            assert(es[a] == linked[a]);
            assert(es[b] == linked[b]);
        } else if a < linked.len() {
            let t = te[b - linked.len()];
            assert(es[a] == linked[a]);
            assert(es[b] == t);
            assert(!has_key(linked, (t.0, t.1)));
            assert(key(t) == (t.0, t.1));
        } else {
            let x = te[a - linked.len()];
            let y = te[b - linked.len()];
            assert(es[a] == x);
            assert(es[b] == y);
        }
    }
    assert forall|m: int|
        0 <= m < es.len() && (#[trigger] es[m]).2 == EdgeKind::Tag implies es[m].0 < es[m].1
        && share_tag(tags[es[m].0 as int], tags[es[m].1 as int]) by {
        if m < linked.len() {
            assert(es[m] == linked[m]);
            lemma_link_edges_are_links(notes, links_of(texts), n);
        } else {
            assert(es[m] == te[m - linked.len()]);
        }
    }
}

/// `es2` starts with `es`.
pub open spec fn extends(es2: Seq<Edge>, es: Seq<Edge>) -> bool {
    &&& es.len() <= es2.len()
    &&& forall|m: int| 0 <= m < es.len() ==> #[trigger] es2[m] == es[m]
}

proof fn lemma_extends_has_key(es2: Seq<Edge>, es: Seq<Edge>, k: (usize, usize))
    requires
        extends(es2, es),
        has_key(es, k),
    ensures
        has_key(es2, k),
{
    let m = choose|m: int| 0 <= m < es.len() && key(#[trigger] es[m]) == k;
    assert(es2[m] == es[m]);
}

proof fn lemma_add_links_extends(es: Seq<Edge>, notes: Seq<Note>, i: usize, ts: Seq<Seq<char>>)
    ensures
        extends(add_links(es, notes, i, ts), es),
    decreases ts.len(),
{
    if ts.len() > 0 {
        lemma_add_links_extends(es, notes, i, ts.drop_last());
    }
}

proof fn lemma_add_links_joins(
    es: Seq<Edge>,
    notes: Seq<Note>,
    i: usize,
    ts: Seq<Seq<char>>,
    p: int,
    j: int,
)
    requires
        0 <= p < ts.len(),
        resolve(notes, ts[p]) == Some(j),
        j != i,
    ensures
        has_key(add_links(es, notes, i, ts), key((i, j as usize, EdgeKind::Link))),
    decreases ts.len(),
{
    let es1 = add_links(es, notes, i, ts.drop_last());
    let k = key((i, j as usize, EdgeKind::Link));
    let es2 = add_links(es, notes, i, ts);
    if p < ts.len() - 1 {
        assert(ts.drop_last()[p] == ts[p]);
        lemma_add_links_joins(es, notes, i, ts.drop_last(), p, j);
    }
    if has_key(es1, k) {
        assert(extends(es2, es1));
        lemma_extends_has_key(es2, es1, k);
    } else {
        assert(p == ts.len() - 1);
        assert(es2 == es1.push((i, j as usize, EdgeKind::Link)));
        assert(es2[es1.len() as int] == (i, j as usize, EdgeKind::Link));
    }
}

proof fn lemma_link_edges_extend(notes: Seq<Note>, links: Seq<Seq<Seq<char>>>, k: int, k2: int)
    requires
        0 <= k <= k2,
    ensures
        extends(link_edges(notes, links, k2), link_edges(notes, links, k)),
    decreases k2 - k,
{
    if k < k2 {
        lemma_link_edges_extend(notes, links, k, k2 - 1);
        lemma_add_links_extends(
            link_edges(notes, links, k2 - 1),
            notes,
            (k2 - 1) as usize,
            links[k2 - 1],
        );
    }
}

/// Every link is in the graph: when note `i` links to a target that names
/// another note `j`, some edge of the graph joins `i` and `j`, whichever of
/// the two is listed first.
pub proof fn law_links_are_edges(notes: Seq<Note>, texts: Seq<String>, i: int, t: Seq<char>, j: int)
    requires
        notes.len() == texts.len() <= usize::MAX,
        0 <= i < notes.len(),
        links_of(texts)[i].contains(t),
        resolve(notes, t) == Some(j),
        j != i,
    ensures
        has_key(graph_edges_spec(notes, texts), key((i as usize, j as usize, EdgeKind::Link))),
{
    let n = notes.len() as int;
    let links = links_of(texts);
    let p = choose|p: int| 0 <= p < links[i].len() && links[i][p] == t;
    let before = link_edges(notes, links, i);
    let k = key((i as usize, j as usize, EdgeKind::Link));
    lemma_add_links_joins(before, notes, i as usize, links[i], p, j);
    assert(link_edges(notes, links, i + 1) == add_links(before, notes, i as usize, links[i]));
    lemma_link_edges_extend(notes, links, i + 1, n);
    let linked = link_edges(notes, links, n);
    lemma_extends_has_key(linked, link_edges(notes, links, i + 1), k);
    let es = graph_edges_spec(notes, texts);
    assert(extends(es, linked));
    lemma_extends_has_key(es, linked, k);
}

proof fn lemma_add_links_are_links(es: Seq<Edge>, notes: Seq<Note>, i: usize, ts: Seq<Seq<char>>)
    requires
        forall|m: int| 0 <= m < es.len() ==> (#[trigger] es[m]).2 == EdgeKind::Link,
    ensures
        forall|m: int|
            0 <= m < add_links(es, notes, i, ts).len() ==> (#[trigger] add_links(
                es,
                notes,
                i,
                ts,
            )[m]).2 == EdgeKind::Link,
    decreases ts.len(),
{
    if ts.len() > 0 {
        lemma_add_links_are_links(es, notes, i, ts.drop_last());
        let es1 = add_links(es, notes, i, ts.drop_last());
        let es2 = add_links(es, notes, i, ts);
        assert forall|m: int| 0 <= m < es2.len() implies (#[trigger] es2[m]).2 == EdgeKind::Link by {
            if m < es1.len() {
                assert(es2[m] == es1[m]);
            }
        }
    }
}

proof fn lemma_link_edges_are_links(notes: Seq<Note>, links: Seq<Seq<Seq<char>>>, k: int)
    ensures
        forall|m: int|
            0 <= m < link_edges(notes, links, k).len() ==> (#[trigger] link_edges(
                notes,
                links,
                k,
            )[m]).2 == EdgeKind::Link,
    decreases k,
{
    if k > 0 {
        lemma_link_edges_are_links(notes, links, k - 1);
        lemma_add_links_are_links(
            link_edges(notes, links, k - 1),
            notes,
            (k - 1) as usize,
            links[k - 1],
        );
    }
}

proof fn lemma_tag_row_share(linked: Seq<Edge>, tags: Seq<Seq<Seq<char>>>, i: int, j: int)
    requires
        0 <= i,
        j <= usize::MAX,
    ensures
        forall|m: int|
            0 <= m < tag_row(linked, tags, i, j).len() ==> share_tag(
                tags[(#[trigger] tag_row(linked, tags, i, j)[m]).0 as int],
                tags[tag_row(linked, tags, i, j)[m].1 as int],
            ),
    decreases j - i,
{
    if j > i + 1 {
        lemma_tag_row_share(linked, tags, i, j - 1);
        lemma_tag_row(linked, tags, i, j, j);
        let row = tag_row(linked, tags, i, j - 1);
        let r = tag_row(linked, tags, i, j);
        assert forall|m: int| 0 <= m < r.len() implies share_tag(
            tags[(#[trigger] r[m]).0 as int],
            tags[r[m].1 as int],
        ) by {
            if m < row.len() {
                assert(r[m] == row[m]);
            } else {
                assert(r[m] == (i as usize, (j - 1) as usize, EdgeKind::Tag));
                assert(0 <= i);
            }
        }
    }
}

proof fn lemma_tag_edges_share(linked: Seq<Edge>, tags: Seq<Seq<Seq<char>>>, k: int, n: int)
    requires
        k <= n <= usize::MAX,
    ensures
        forall|m: int|
            0 <= m < tag_edges(linked, tags, k, n).len() ==> share_tag(
                tags[(#[trigger] tag_edges(linked, tags, k, n)[m]).0 as int],
                tags[tag_edges(linked, tags, k, n)[m].1 as int],
            ),
    decreases k,
{
    if k > 0 {
        lemma_tag_edges_share(linked, tags, k - 1, n);
        lemma_tag_row_share(linked, tags, k - 1, n);
        let before = tag_edges(linked, tags, k - 1, n);
        let row = tag_row(linked, tags, k - 1, n);
        let all = tag_edges(linked, tags, k, n);
        assert forall|m: int| 0 <= m < all.len() implies share_tag(
            tags[(#[trigger] all[m]).0 as int],
            tags[all[m].1 as int],
        ) by {
            if m < before.len() {
                assert(all[m] == before[m]);
            } else {
                assert(all[m] == row[m - before.len()]);
            }
        }
    }
}

/// What a key does in the graph view.
pub enum GraphKey {
    /// Close the graph.
    Close,
    /// Jump to the note of this node.
    Open(usize),
    /// Select this node.
    Select(usize),
    /// Show or hide the tag edges, and lay the graph out again.
    ToggleTags,
    /// Lay the graph out again.
    Relayout,
    /// Nothing happens.
    Ignore,
}

/// Decide what a key does in a graph of `n` nodes whose selected node is
/// `selected`: `Esc` closes, `Enter` opens the selected node's note, the
/// arrows (and `Tab`, `j`, `k`) move the selection around the nodes, `t`
/// toggles the tag edges and `r` lays the graph out again.
pub fn graph_key(key: Key, selected: usize, n: usize) -> (g: GraphKey)
    requires
        app::index_ok(selected, n as nat),
    ensures
        match key {
            Key::Esc => g == GraphKey::Close,
            Key::Enter => if selected < n {
                g == GraphKey::Open(selected)
            } else {
                g == GraphKey::Ignore
            },
            Key::Down | Key::Right | Key::Tab | Key::Char('j') => if n > 0 {
                g == GraphKey::Select(app::ring_next(selected as int, n as int) as usize)
            } else {
                g == GraphKey::Ignore
            },
            Key::Up | Key::Left | Key::Char('k') => if n > 0 {
                g == GraphKey::Select(app::ring_prev(selected as int, n as int) as usize)
            } else {
                g == GraphKey::Ignore
            },
            Key::Char('t') => g == GraphKey::ToggleTags,
            Key::Char('r') => g == GraphKey::Relayout,
            _ => g == GraphKey::Ignore,
        },
{
    match key {
        Key::Esc => GraphKey::Close,
        Key::Enter => if selected < n {
            GraphKey::Open(selected)
        } else {
            GraphKey::Ignore
        },
        Key::Down | Key::Right | Key::Tab | Key::Char('j') => {
            if n > 0 {
                proof {
                    app::lemma_step_forward(selected as int, n as int);
                }
                GraphKey::Select(if selected + 1 == n {
                    0
                } else {
                    selected + 1
                })
            } else {
                GraphKey::Ignore
            }
        },
        Key::Up | Key::Left | Key::Char('k') => {
            if n > 0 {
                proof {
                    app::lemma_step_back(selected as int, n as int);
                }
                GraphKey::Select(if selected == 0 {
                    n - 1
                } else {
                    selected - 1
                })
            } else {
                GraphKey::Ignore
            }
        },
        Key::Char('t') => GraphKey::ToggleTags,
        Key::Char('r') => GraphKey::Relayout,
        _ => GraphKey::Ignore,
    }
}

/// A node of the graph: the note it stands for.
pub struct GraphNode {
    /// The note's id.
    pub id: String,
    /// The note's title.
    pub title: String,
    /// The note's path.
    pub path: String,
}

/// The graph of a notebook as the graph view works on it: its nodes, its
/// edges, the selected node and whether tag edges are shown. (Where the
/// nodes are drawn is the application's part.)
pub struct Graph {
    nodes: Vec<GraphNode>,
    edges: Vec<Edge>,
    selected: usize,
    show_tags: bool,
}

/// The state of a [`Graph`]: each node as `(id, title, path)`.
pub struct GraphView {
    pub nodes: Seq<(Seq<char>, Seq<char>, Seq<char>)>,
    pub edges: Seq<Edge>,
    pub selected: nat,
    pub show_tags: bool,
}

impl View for Graph {
    type V = GraphView;

    closed spec fn view(&self) -> GraphView {
        GraphView {
            nodes: self.nodes@.map_values(|n: GraphNode| (n.id@, n.title@, n.path@)),
            edges: self.edges@,
            selected: self.selected as nat,
            show_tags: self.show_tags,
        }
    }
}

/// A key that makes the graph view lay the graph out again: `t` (which also
/// shows or hides the tag edges) and `r`.
pub open spec fn relayout_key(key: Key) -> bool {
    key == Key::Char('t') || key == Key::Char('r')
}

impl Graph {
    /// The selection points at a node (or is zero when there is none).
    /// Every graph keeps this.
    #[verifier::type_invariant]
    pub open spec fn wf(&self) -> bool {
        app::index_ok(self@.selected as usize, self@.nodes.len())
    }

    /// A graph of these nodes and edges, with the first node selected and
    /// the tag edges shown.
    pub fn new(nodes: Vec<GraphNode>, edges: Vec<Edge>) -> (g: Graph)
        ensures
            g@.nodes == nodes@.map_values(|n: GraphNode| (n.id@, n.title@, n.path@)),
            g@.edges == edges@,
            g@.selected == 0,
            g@.show_tags,
    {
        Graph { nodes, edges, selected: 0, show_tags: true }
    }

    /// Handle a key: `Esc` closes, `Enter` jumps to the selected node's note,
    /// the arrows (and `Tab`, `j`, `k`) move the selection around the nodes,
    /// `t` shows or hides the tag edges. Nodes and edges never change.
    pub fn on_key(&mut self, key: Key) -> (a: Action)
        ensures
            final(self).wf(),
            final(self)@.nodes == old(self)@.nodes,
            final(self)@.edges == old(self)@.edges,
            ({
                let n = old(self)@.nodes.len();
                let sel = old(self)@.selected;
                match key {
                    Key::Esc => a == Action::Close && final(self)@ == old(self)@,
                    Key::Enter => final(self)@ == old(self)@ && if sel < n {
                        a matches Action::SelectNote(p) && p@ == old(self)@.nodes[sel as int].2
                    } else {
                        a == Action::Nothing
                    },
                    Key::Down | Key::Right | Key::Tab | Key::Char('j') => a == Action::Nothing
                        && final(self)@ == (GraphView {
                        selected: if n > 0 {
                            app::ring_next(sel as int, n as int) as nat
                        } else {
                            sel
                        },
                        ..old(self)@
                    }),
                    Key::Up | Key::Left | Key::Char('k') => a == Action::Nothing && final(self)@
                        == (GraphView {
                        selected: if n > 0 {
                            app::ring_prev(sel as int, n as int) as nat
                        } else {
                            sel
                        },
                        ..old(self)@
                    }),
                    Key::Char('t') => a == Action::Nothing && final(self)@ == (GraphView {
                        show_tags: !old(self)@.show_tags,
                        ..old(self)@
                    }),
                    _ => a == Action::Nothing && final(self)@ == old(self)@,
                }
            }),
    {
        proof {
            use_type_invariant(&*self);
        }
        let n = self.nodes.len();
        match graph_key(key, self.selected, n) {
            GraphKey::Close => Action::Close,
            GraphKey::Open(i) => {
                proof {
                    assert(self@.nodes[i as int].2 == self.nodes@[i as int].path@);
                }
                Action::SelectNote(self.nodes[i].path.clone())
            },
            GraphKey::Select(i) => {
                proof {
                    app::lemma_step_forward(self.selected as int, n as int);
                    app::lemma_step_back(self.selected as int, n as int);
                }
                self.selected = i;
                Action::Nothing
            },
            GraphKey::ToggleTags => {
                self.show_tags = !self.show_tags;
                Action::Nothing
            },
            GraphKey::Relayout => Action::Nothing,
            GraphKey::Ignore => Action::Nothing,
        }
    }

    /// Whether the view lays the graph out again after `key`.
    pub fn relayout(key: Key) -> (b: bool)
        ensures
            b == relayout_key(key),
    {
        match key {
            Key::Char(c) => c == 't' || c == 'r',
            _ => false,
        }
    }

    /// The number of nodes.
    pub fn node_count(&self) -> (n: usize)
        ensures
            n == self@.nodes.len(),
    {
        self.nodes.len()
    }

    /// Node `i`.
    pub fn node(&self, i: usize) -> (nd: &GraphNode)
        requires
            i < self@.nodes.len(),
        ensures
            (nd.id@, nd.title@, nd.path@) == self@.nodes[i as int],
    {
        &self.nodes[i]
    }

    /// The edges.
    pub fn edges(&self) -> (e: &Vec<Edge>)
        ensures
            e@ == self@.edges,
    {
        &self.edges
    }

    /// The selected node's position.
    pub fn selected(&self) -> (s: usize)
        ensures
            s == self@.selected,
    {
        self.selected
    }

    /// Whether tag edges are shown.
    pub fn show_tags(&self) -> (b: bool)
        ensures
            b == self@.show_tags,
    {
        self.show_tags
    }
}

/// The note that link target `t` resolves to.
pub fn resolve_target(notes: &Vec<Note>, t: &String) -> (r: Option<usize>)
    ensures
        match resolve(notes@, t@) {
            Some(j) => r is Some && r->0 as int == j,
            None => r is None,
        },
{
    let mut j: usize = 0;
    while j < notes.len()
        invariant
            j <= notes.len(),
            forall|k: int| 0 <= k < j ==> !note_matches(#[trigger] notes@[k], t@),
        decreases notes.len() - j,
    {
        if text::eq_ignore_ascii_case(&notes[j].title, t) || notes[j].id == *t {
            proof {
                assert(first_note(notes@, t@, j as int));
                let c = choose|c: int| first_note(notes@, t@, c);
                if c < j {
                    assert(!note_matches(notes@[c], t@));
                } else if c > j {
                    assert(!note_matches(notes@[j as int], t@));
                }
            }
            return Some(j);
        }
        j += 1;
    }
    proof {
        if exists|c: int| first_note(notes@, t@, c) {
            let c = choose|c: int| first_note(notes@, t@, c);
            assert(!note_matches(notes@[c], t@));
        }
    }
    None
}

/// Whether some of the first `upto` edges joins the pair `(a, b)`, `a <= b`.
fn joined(es: &Vec<Edge>, upto: usize, a: usize, b: usize) -> (r: bool)
    requires
        upto <= es.len(),
    ensures
        r == has_key(es@.take(upto as int), (a, b)),
{
    let mut m: usize = 0;
    while m < upto
        invariant
            m <= upto <= es.len(),
            forall|t: int| 0 <= t < m ==> key(#[trigger] es@[t]) != (a, b),
        decreases upto - m,
    {
        let e = es[m];
        let (x, y) = if e.0 <= e.1 {
            (e.0, e.1)
        } else {
            (e.1, e.0)
        };
        if x == a && y == b {
            assert(es@.take(upto as int)[m as int] == es@[m as int]);
            return true;
        }
        m += 1;
    }
    proof {
        if has_key(es@.take(upto as int), (a, b)) {
            let t = choose|t: int|
                0 <= t < upto && key(#[trigger] es@.take(upto as int)[t]) == (a, b);
            assert(es@.take(upto as int)[t] == es@[t]);
        }
    }
    false
}

/// Whether two tag lists have a tag in common.
fn shares(a: &Vec<String>, b: &Vec<String>) -> (r: bool)
    ensures
        r == share_tag(text::views(a@), text::views(b@)),
{
    let mut i: usize = 0;
    while i < a.len()
        invariant
            i <= a.len(),
            forall|s: int| 0 <= s < i ==> !text::views(b@).contains(#[trigger] a@[s]@),
        decreases a.len() - i,
    {
        if markup::contains_string(b, &a[i]) {
            proof {
                assert(text::views(a@)[i as int] == a@[i as int]@);
                assert(text::views(a@).contains(a@[i as int]@));
            }
            return true;
        }
        i += 1;
    }
    proof {
        if share_tag(text::views(a@), text::views(b@)) {
            let x = choose|x: Seq<char>| text::views(a@).contains(x) && text::views(b@).contains(x);
            let s = choose|s: int| 0 <= s < a.len() && text::views(a@)[s] == x;
            assert(text::views(a@)[s] == a@[s]@);
        }
    }
    false
}

/// Build the edges of a notebook's relationship graph: `notes` are the nodes,
/// `texts[i]` is the text of `notes[i]` (empty when it could not be read).
pub fn graph_edges(notes: &Vec<Note>, texts: &Vec<String>) -> (edges: Vec<Edge>)
    requires
        notes.len() == texts.len(),
    ensures
        edges@ == graph_edges_spec(notes@, texts@),
{
    let n = notes.len();
    let mut links_per: Vec<Vec<String>> = Vec::new();
    let mut tags_per: Vec<Vec<String>> = Vec::new();
    let mut i: usize = 0;
    while i < n
        invariant
            i <= n == notes.len() == texts.len(),
            links_per.len() == i,
            tags_per.len() == i,
            forall|k: int| 0 <= k < i ==> text::views(#[trigger] links_per@[k]@) == links_of(texts@)[k],
            forall|k: int| 0 <= k < i ==> text::views(#[trigger] tags_per@[k]@) == tags_of(texts@)[k],
        decreases n - i,
    {
        let ls = text::lines_of(texts[i].as_str());
        links_per.push(markup::extract_wiki_links(ls.as_slice()));
        tags_per.push(markup::extract_tags(ls.as_slice()));
        i += 1;
    }
    let ghost links = links_of(texts@);
    let ghost tags = tags_of(texts@);
    let mut edges: Vec<Edge> = Vec::new();
    let mut i: usize = 0;
    while i < n
        invariant
            i <= n == notes.len() == texts.len(),
            links_per.len() == n,
            links == links_of(texts@),
            forall|k: int| 0 <= k < n ==> text::views(#[trigger] links_per@[k]@) == links[k],
            edges@ == link_edges(notes@, links, i as int),
        decreases n - i,
    {
        let ts = &links_per[i];
        let ghost base = edges@;
        let mut t: usize = 0;
        proof {
            assert(text::views(ts@).take(0) =~= Seq::<Seq<char>>::empty());
        }
        while t < ts.len()
            invariant
                i < n == notes.len(),
                t <= ts.len(),
                ts == links_per@[i as int],
                edges@ == add_links(base, notes@, i, text::views(ts@).take(t as int)),
            decreases ts.len() - t,
        {
            proof {
                assert(text::views(ts@).take(t + 1).drop_last() =~= text::views(ts@).take(
                    t as int,
                ));
                assert(text::views(ts@).take(t + 1).last() == ts@[t as int]@);
            }
            match resolve_target(notes, &ts[t]) {
                Some(j) => {
                    let (a, b) = if i <= j {
                        (i, j)
                    } else {
                        (j, i)
                    };
                    if i != j && !joined(&edges, edges.len(), a, b) {
                        proof {
                            assert(edges@.take(edges.len() as int) =~= edges@);
                        }
                        edges.push((i, j, EdgeKind::Link));
                    } else {
                        proof {
                            assert(edges@.take(edges.len() as int) =~= edges@);
                        }
                    }
                },
                None => {},
            }
            t += 1;
        }
        proof {
            assert(text::views(ts@).take(ts.len() as int) =~= text::views(ts@));
        }
        i += 1;
    }
    let nlinks = edges.len();
    let ghost linked = edges@;
    let mut i: usize = 0;
    while i < n
        invariant
            i <= n == notes.len(),
            tags_per.len() == n,
            tags == tags_of(texts@),
            forall|k: int| 0 <= k < n ==> text::views(#[trigger] tags_per@[k]@) == tags[k],
            nlinks <= edges.len(),
            edges@.take(nlinks as int) == linked,
            edges@ == linked + tag_edges(linked, tags, i as int, n as int),
        decreases n - i,
    {
        let ghost before = edges@;
        let mut j: usize = i + 1;
        proof {
            assert(tag_row(linked, tags, i as int, j as int) =~= Seq::<Edge>::empty());
            assert(before + tag_row(linked, tags, i as int, j as int) =~= before);
        }
        while j < n
            invariant
                i < j <= n == notes.len(),
                tags_per.len() == n,
                forall|k: int| 0 <= k < n ==> text::views(#[trigger] tags_per@[k]@) == tags[k],
                nlinks <= before.len(),
                before.take(nlinks as int) == linked,
                edges@ == before + tag_row(linked, tags, i as int, j as int),
            decreases n - j,
        {
            let s = shares(&tags_per[i], &tags_per[j]);
            let l = joined(&edges, nlinks, i, j);
            proof {
                assert(edges@.take(nlinks as int) =~= before.take(nlinks as int));
            }
            if s && !l {
                edges.push((i, j, EdgeKind::Tag));
                proof {
                    assert(edges@ =~= before + tag_row(linked, tags, i as int, j + 1));
                }
            }
            j += 1;
        }
        proof {
            assert(edges@.take(nlinks as int) =~= before.take(nlinks as int));
            assert(linked + tag_edges(linked, tags, i + 1, n as int) =~= before + tag_row(
                linked,
                tags,
                i as int,
                n as int,
            ));
        }
        i += 1;
    }
    edges
}

} // verus!
