//! What a note's text says about other notes: its `[[wiki links]]` and its
//! `#tags`.

use vstd::prelude::*;
use crate::text;

verus! {

// ---------------------------------------------------------------------------
// Wiki links
// ---------------------------------------------------------------------------

/// The target named by the inside of a `[[...]]`: the part before the first
/// `|` (for aliased links `[[target|text]]`), trimmed.
pub open spec fn link_target(inner: Seq<char>) -> Seq<char> {
    text::trim(
        match text::find(inner, seq!['|']) {
            Some(b) => inner.take(b),
            None => inner,
        },
    )
}

/// The targets of the `[[...]]` pairs in `s`, left to right: each `[[` is
/// closed by the first `]]` after it; a `[[` with no `]]` after it ends the
/// search.
pub open spec fn link_targets(s: Seq<char>) -> Seq<Seq<char>>
    decreases s.len(),
{
    match text::find(s, seq!['[', '[']) {
        Some(a) => if 0 <= a && a + 2 <= s.len() {
            let after = s.skip(a + 2);
            match text::find(after, seq![']', ']']) {
                Some(e) => if 0 <= e && e + 2 <= after.len() {
                    seq![link_target(after.take(e))] + link_targets(after.skip(e + 2))
                } else {
                    seq![]
                },
                None => seq![],
            }
        } else {
            seq![]
        },
        None => seq![],
    }
}

/// The link targets of all the lines, line after line.
pub open spec fn all_link_targets(ls: Seq<Seq<char>>) -> Seq<Seq<char>>
    decreases ls.len(),
{
    if ls.len() == 0 {
        seq![]
    } else {
        all_link_targets(ls.drop_last()) + link_targets(ls.last())
    }
}

/// The wiki links of a note: its non-empty link targets in order of first
/// appearance, each once.
pub open spec fn wiki_links(ls: Seq<Seq<char>>) -> Seq<Seq<char>> {
    text::dedup(text::nonempty(all_link_targets(ls)))
}

// ---------------------------------------------------------------------------
// Tags
// ---------------------------------------------------------------------------

/// A character that can be part of a tag: a letter or a digit
/// (`char::is_alphanumeric`, on ASCII exactly `a`-`z`, `A`-`Z` and `0`-`9`),
/// `-` or `_`.
pub open spec fn tag_char(c: char) -> bool {
    if (c as u32) < 128 {
        ||| 'a' <= c <= 'z'
        ||| 'A' <= c <= 'Z'
        ||| text::is_digit(c)
        ||| c == '-'
        ||| c == '_'
    } else {
        text::alphanumeric(c)
    }
}

/// The number of tag characters at the start of `s`.
pub open spec fn run_len(s: Seq<char>) -> nat
    decreases s.len(),
{
    if s.len() > 0 && tag_char(s[0]) {
        1 + run_len(s.drop_first())
    } else {
        0
    }
}

/// Position `i` of `cs` is at a word boundary: the start of the line, or
/// after whitespace or one of `( , [ ' "`.
pub open spec fn at_boundary(cs: Seq<char>, i: int) -> bool {
    ||| i == 0
    ||| text::is_ws(cs[i - 1])
    ||| cs[i - 1] == '('
    ||| cs[i - 1] == ','
    ||| cs[i - 1] == '['
    ||| cs[i - 1] == '\''
    ||| cs[i - 1] == '"'
}

/// The tag that starts at position `i` of `cs`, if one does: a `#` at a word
/// boundary followed by at least one tag character; the tag is the run of
/// tag characters, lowercased.
pub open spec fn tag_at(cs: Seq<char>, i: int) -> Option<Seq<char>> {
    let n = run_len(cs.skip(i + 1));
    if cs[i] == '#' && at_boundary(cs, i) && n > 0 {
        Some(text::lowercase(cs.subrange(i + 1, i + 1 + n)))
    } else {
        None
    }
}

/// The tags that start at positions `i..` of `cs`, in order.
pub open spec fn line_tags_from(cs: Seq<char>, i: int) -> Seq<Seq<char>>
    decreases cs.len() - i,
{
    if i < 0 || i >= cs.len() {
        seq![]
    } else {
        match tag_at(cs, i) {
            Some(t) => seq![t] + line_tags_from(cs, i + 1),
            None => line_tags_from(cs, i + 1),
        }
    }
}

/// The tags of all the lines, line after line.
pub open spec fn all_tags(ls: Seq<Seq<char>>) -> Seq<Seq<char>>
    decreases ls.len(),
{
    if ls.len() == 0 {
        seq![]
    } else {
        all_tags(ls.drop_last()) + line_tags_from(ls.last(), 0)
    }
}

/// The tags of a note: lowercased, in order of first appearance, each once.
pub open spec fn tags(ls: Seq<Seq<char>>) -> Seq<Seq<char>> {
    text::dedup(all_tags(ls))
}

// ---------------------------------------------------------------------------
// Lemmas
// ---------------------------------------------------------------------------

/// A run of `k` tag characters ended by a non-tag character (or the end).
proof fn lemma_run_len(s: Seq<char>, k: int)
    requires
        0 <= k <= s.len(),
        forall|t: int| 0 <= t < k ==> tag_char(#[trigger] s[t]),
        k == s.len() || !tag_char(s[k]),
    ensures
        run_len(s) == k,
    decreases k,
{
    if k > 0 {
        let r = s.drop_first();
        assert forall|t: int| 0 <= t < k - 1 implies tag_char(#[trigger] r[t]) by {
            assert(r[t] == s[t + 1]);
        }
        lemma_run_len(r, k - 1);
    }
}

/// Positions holding no `#` start no tag.
proof fn lemma_skip_no_hash(cs: Seq<char>, i: int, j: int)
    requires
        0 <= i <= j <= cs.len(),
        forall|t: int| i <= t < j ==> cs[t] != '#',
    ensures
        line_tags_from(cs, i) == line_tags_from(cs, j),
    decreases j - i,
{
    if i < j {
        lemma_skip_no_hash(cs, i + 1, j);
    }
}

/// Extending `raw` by one target extends the collected links accordingly.
proof fn lemma_collect_step(raw: Seq<Seq<char>>, t: Seq<char>)
    ensures
        text::nonempty(raw.push(t)) == (if t.len() == 0 {
            text::nonempty(raw)
        } else {
            text::nonempty(raw).push(t)
        }),
        text::dedup(raw.push(t)) == (if text::dedup(raw).contains(t) {
            text::dedup(raw)
        } else {
            text::dedup(raw).push(t)
        }),
{
    assert(raw.push(t).drop_last() =~= raw);
}

/// The wiki links of a note name each target once, and none of them is empty.
pub proof fn law_wiki_links_distinct(ls: Seq<Seq<char>>)
    ensures
        text::no_dups(wiki_links(ls)),
        forall|i: int| 0 <= i < wiki_links(ls).len() ==> (#[trigger] wiki_links(ls)[i]).len() > 0,
{
    let ne = text::nonempty(all_link_targets(ls));
    text::lemma_dedup_no_dups(ne);
    text::lemma_dedup_same_items(ne);
    text::lemma_nonempty_items(all_link_targets(ls));
    assert forall|i: int| 0 <= i < wiki_links(ls).len() implies (#[trigger] wiki_links(
        ls,
    )[i]).len() > 0 by {
        let x = wiki_links(ls)[i];
        assert(text::dedup(ne).contains(x));
        assert(ne.contains(x));
        let k = choose|k: int| 0 <= k < ne.len() && ne[k] == x;
        assert(ne[k].len() > 0);
    }
}

/// The link targets of lines `a` followed by lines `b` are those of `a`,
/// then those of `b`.
proof fn lemma_all_link_targets_concat(a: Seq<Seq<char>>, b: Seq<Seq<char>>)
    ensures
        all_link_targets(a + b) == all_link_targets(a) + all_link_targets(b),
    decreases b.len(),
{
    if b.len() == 0 {
        assert(a + b =~= a);
        assert(all_link_targets(a) + all_link_targets(b) =~= all_link_targets(a));
    } else {
        lemma_all_link_targets_concat(a, b.drop_last());
        assert((a + b).drop_last() =~= a + b.drop_last());
        assert((a + b).last() == b.last());
        assert(all_link_targets(a) + (all_link_targets(b.drop_last()) + link_targets(b.last()))
            =~= (all_link_targets(a) + all_link_targets(b.drop_last())) + link_targets(b.last()));
    }
}

/// The wiki links of two blocks of lines joined are the links of the first
/// block, then those links of the second that the first does not have, in
/// their order in the second.
pub proof fn law_wiki_links_concat(a: Seq<Seq<char>>, b: Seq<Seq<char>>)
    ensures
        wiki_links(a + b) == wiki_links(a) + text::without(wiki_links(b), wiki_links(a)),
{
    lemma_all_link_targets_concat(a, b);
    let x = text::nonempty(all_link_targets(a));
    let y = text::nonempty(all_link_targets(b));
    text::lemma_nonempty_concat(all_link_targets(a), all_link_targets(b));
    text::lemma_dedup_concat(x, y);
}

/// ASCII letters, digits, `-` and `_` continue a tag; `#` and whitespace
/// end it.
pub proof fn law_tag_chars(c: char)
    ensures
        ('a' <= c <= 'z' || 'A' <= c <= 'Z' || '0' <= c <= '9' || c == '-' || c == '_')
            ==> tag_char(c),
        c == '#' || c == ' ' || c == '\t' ==> !tag_char(c),
{
}

/// A line that is `#` followed by a word of tag characters (letters, digits,
/// `-`, `_`) has exactly one tag: the whole word, lowercased.
pub proof fn law_hash_word_is_tag(w: Seq<char>)
    requires
        w.len() > 0,
        forall|t: int| 0 <= t < w.len() ==> tag_char(#[trigger] w[t]),
    ensures
        tags(seq![seq!['#'] + w]) == seq![text::lowercase(w)],
{
    let line = seq!['#'] + w;
    let n = w.len() as int;
    assert(line.skip(1) =~= w);
    lemma_run_len(w, n);
    assert(line.subrange(1, 1 + n) =~= w);
    assert(tag_at(line, 0) == Some(text::lowercase(w)));
    assert forall|t: int| 1 <= t < line.len() implies line[t] != '#' by {
        assert(line[t] == w[t - 1]);
    }
    lemma_skip_no_hash(line, 1, line.len() as int);
    assert(line_tags_from(line, line.len() as int) == Seq::<Seq<char>>::empty());
    assert(line_tags_from(line, 0) =~= seq![text::lowercase(w)]);
    let ls = seq![line];
    assert(ls.drop_last() =~= Seq::<Seq<char>>::empty());
    assert(all_tags(ls.drop_last()) == Seq::<Seq<char>>::empty());
    assert(ls.last() == line);
    assert(all_tags(ls) =~= Seq::<Seq<char>>::empty() + line_tags_from(line, 0));
    assert(all_tags(ls) =~= seq![text::lowercase(w)]);
    let one = seq![text::lowercase(w)];
    assert(one.drop_last() =~= Seq::<Seq<char>>::empty());
    assert(text::dedup(one.drop_last()) == Seq::<Seq<char>>::empty());
    assert(!text::dedup(one.drop_last()).contains(one.last()));
    assert(text::dedup(one) =~= Seq::<Seq<char>>::empty().push(one.last()));
}

/// The tags of a note are listed once each.
pub proof fn law_tags_distinct(ls: Seq<Seq<char>>)
    ensures
        text::no_dups(tags(ls)),
{
    text::lemma_dedup_no_dups(all_tags(ls));
}

// ---------------------------------------------------------------------------
// Executable
// ---------------------------------------------------------------------------

/// Whether `v` holds a string equal to `t`.
pub fn contains_string(v: &Vec<String>, t: &String) -> (r: bool)
    ensures
        r == text::views(v@).contains(t@),
{
    let mut i: usize = 0;
    while i < v.len()
        invariant
            i <= v.len(),
            forall|j: int| 0 <= j < i ==> v@[j]@ != t@,
        decreases v.len() - i,
    {
        if v[i] == *t {
            assert(text::views(v@)[i as int] == t@);
            return true;
        }
        i += 1;
    }
    proof {
        if text::views(v@).contains(t@) {
            let j = choose|j: int| 0 <= j < text::views(v@).len() && text::views(v@)[j] == t@;
            assert(v@[j]@ == t@);
        }
    }
    false
}

/// Extract `[[wiki link]]` targets from note lines, in order, de-duplicated.
/// For aliased links `[[target|text]]`, the part before `|` is the target.
pub fn extract_wiki_links(lines: &[String]) -> (out: Vec<String>)
    ensures
        text::views(out@) == wiki_links(text::views(lines@)),
{
    let ghost ls = text::views(lines@);
    let open: Vec<char> = vec!['[', '['];
    let close: Vec<char> = vec![']', ']'];
    let bar: Vec<char> = vec!['|'];
    let mut out: Vec<String> = Vec::new();
    let ghost mut raw: Seq<Seq<char>> = seq![];
    let mut li: usize = 0;
    while li < lines.len()
        invariant
            li <= lines.len(),
            ls == text::views(lines@),
            open@ == seq!['[', '['],
            close@ == seq![']', ']'],
            bar@ == seq!['|'],
            raw == all_link_targets(ls.take(li as int)),
            text::views(out@) == text::dedup(text::nonempty(raw)),
        decreases lines.len() - li,
    {
        let cs = text::chars_of(lines[li].as_str());
        let n = cs.len();
        let ghost line = cs@;
        proof {
            assert(ls[li as int] == lines@[li as int]@);
            assert(ls.take(li + 1).drop_last() =~= ls.take(li as int));
            assert(cs@.subrange(0, n as int) =~= line);
        }
        let mut pos: usize = 0;
        loop
            invariant
                n == cs.len(),
                cs@ == line,
                line == ls[li as int],
                pos <= n,
                open@ == seq!['[', '['],
                close@ == seq![']', ']'],
                bar@ == seq!['|'],
                raw + link_targets(cs@.subrange(pos as int, n as int)) == all_link_targets(
                    ls.take(li + 1),
                ),
                text::views(out@) == text::dedup(text::nonempty(raw)),
            ensures
                raw == all_link_targets(ls.take(li + 1)),
                text::views(out@) == text::dedup(text::nonempty(raw)),
            decreases n - pos,
        {
            let ghost rest = cs@.subrange(pos as int, n as int);
            let a = match text::find_in(&cs, pos, n, &open) {
                Some(a) => a,
                None => {
                    proof {
                        assert(link_targets(rest) == Seq::<Seq<char>>::empty());
                        assert(raw + Seq::<Seq<char>>::empty() =~= raw);
                    }
                    break ;
                },
            };
            proof {
                text::lemma_find_some(rest, open@);
                assert(rest.skip(a - pos + 2) =~= cs@.subrange(a + 2, n as int));
            }
            let ghost after = cs@.subrange(a + 2, n as int);
            let e = match text::find_in(&cs, a + 2, n, &close) {
                Some(e) => e,
                None => {
                    proof {
                        assert(link_targets(rest) == Seq::<Seq<char>>::empty());
                        assert(raw + Seq::<Seq<char>>::empty() =~= raw);
                    }
                    break ;
                },
            };
            proof {
                text::lemma_find_some(after, close@);
                assert(after.take(e - (a + 2)) =~= cs@.subrange(a + 2, e as int));
                assert(after.skip(e - (a + 2) + 2) =~= cs@.subrange(e + 2, n as int));
            }
            let ghost inner = cs@.subrange(a + 2, e as int);
            let end = match text::find_in(&cs, a + 2, e, &bar) {
                Some(b) => {
                    proof {
                        text::lemma_find_some(inner, bar@);
                        assert(inner.take(b - (a + 2)) =~= cs@.subrange(a + 2, b as int));
                    }
                    b
                },
                None => {
                    proof {
                        assert(inner =~= cs@.subrange(a + 2, e as int));
                    }
                    e
                },
            };
            let (x, y) = text::trim_bounds(&cs, a + 2, end);
            let target = text::string_of(&cs, x, y);
            proof {
                assert(target@ == link_target(inner));
                assert(link_targets(rest) == seq![target@] + link_targets(
                    cs@.subrange(e + 2, n as int),
                ));
                lemma_collect_step(raw, target@);
                lemma_collect_step(text::nonempty(raw), target@);
                assert(raw.push(target@) + link_targets(cs@.subrange(e + 2, n as int)) =~= raw
                    + link_targets(rest));
            }
            if !target.as_str().is_empty() && !contains_string(&out, &target) {
                let ghost before = out@;
                out.push(target);
                proof {
                    assert(text::views(out@) =~= text::views(before).push(target@));
                }
            }
            proof {
                raw = raw.push(target@);
            }
            pos = e + 2;
        }
        li += 1;
    }
    assert(ls.take(lines.len() as int) =~= ls);
    out
}

/// Extract `#tags` from note lines (lowercased, de-duplicated). A `#` only
/// starts a tag at a word boundary and when followed by a tag character, so
/// markdown headings (`# Title`) are not mistaken for tags.
pub fn extract_tags(lines: &[String]) -> (out: Vec<String>)
    ensures
        text::views(out@) == tags(text::views(lines@)),
        forall|k: int| 0 <= k < out.len() ==> (#[trigger] out@[k])@.len() > 0,
{
    let ghost ls = text::views(lines@);
    let mut out: Vec<String> = Vec::new();
    let ghost mut raw: Seq<Seq<char>> = seq![];
    let mut li: usize = 0;
    while li < lines.len()
        invariant
            li <= lines.len(),
            ls == text::views(lines@),
            raw == all_tags(ls.take(li as int)),
            text::views(out@) == text::dedup(raw),
            forall|k: int| 0 <= k < out.len() ==> (#[trigger] out@[k])@.len() > 0,
        decreases lines.len() - li,
    {
        let cs = text::chars_of(lines[li].as_str());
        let n = cs.len();
        let ghost line = cs@;
        proof {
            assert(ls[li as int] == lines@[li as int]@);
            assert(ls.take(li + 1).drop_last() =~= ls.take(li as int));
        }
        let mut i: usize = 0;
        while i < n
            invariant
                n == cs.len(),
                cs@ == line,
                line == ls[li as int],
                i <= n,
                raw + line_tags_from(line, i as int) == all_tags(ls.take(li + 1)),
                text::views(out@) == text::dedup(raw),
                forall|k: int| 0 <= k < out.len() ==> (#[trigger] out@[k])@.len() > 0,
            decreases n - i,
        {
            if cs[i] != '#' {
                proof {
                    assert(tag_at(line, i as int) is None);
                }
                i += 1;
                continue;
            }
            let boundary = i == 0 || text::is_whitespace(cs[i - 1]) || cs[i - 1] == '(' || cs[i
                - 1] == ',' || cs[i - 1] == '[' || cs[i - 1] == '\'' || cs[i - 1] == '"';
            let start = i + 1;
            let mut j = start;
            while j < n && (text::is_alphanumeric(cs[j]) || cs[j] == '-' || cs[j] == '_')
                invariant
                    n == cs.len(),
                    cs@ == line,
                    start <= j <= n,
                    forall|t: int| start <= t < j ==> tag_char(#[trigger] line[t]) && line[t]
                        != '#',
                decreases n - j,
            {
                proof {
                    if cs@[j as int] == '#' {
                        assert(('#' as u32) < 128);
                    }
                }
                j += 1;
            }
            let ghost tail = line.skip(start as int);
            proof {
                assert forall|t: int| 0 <= t < j - start implies tag_char(#[trigger] tail[t]) by {
                    assert(tail[t] == line[start + t]);
                }
                if j < n {
                    assert(tail[j - start] == line[j as int]);
                }
                lemma_run_len(tail, j - start);
                lemma_skip_no_hash(line, start as int, j as int);
            }
            if boundary && j > start {
                let piece = text::string_of(&cs, start, j);
                let tag = text::to_lowercase(piece.as_str());
                proof {
                    assert(tag_at(line, i as int) == Some(tag@));
                    assert(line_tags_from(line, i as int) == seq![tag@] + line_tags_from(
                        line,
                        start as int,
                    ));
                    lemma_collect_step(raw, tag@);
                    assert(raw.push(tag@) + line_tags_from(line, j as int) =~= raw
                        + line_tags_from(line, i as int));
                }
                if !contains_string(&out, &tag) {
                    let ghost before = out@;
                    proof {
                        assert(piece@.len() == j - start);
                    }
                    out.push(tag);
                    proof {
                        assert(text::views(out@) =~= text::views(before).push(tag@));
                        assert forall|k: int| 0 <= k < out.len() implies (#[trigger] out@[k])@.len()
                            > 0 by {
                            if k < before.len() {
                                assert(out@[k] == before[k]);
                            }
                        }
                    }
                }
                proof {
                    raw = raw.push(tag@);
                }
            } else {
                proof {
                    assert(tag_at(line, i as int) is None);
                }
            }
            i = if j > i + 1 {
                j
            } else {
                i + 1
            };
        }
        li += 1;
    }
    assert(ls.take(lines.len() as int) =~= ls);
    out
}

} // verus!
