//! Note paths. A path's components are its `/`-separated pieces; empty pieces
//! and `.` pieces carry no name, as `std::path::Path` normalizes them away.

use vstd::prelude::*;
use crate::text;

verus! {

/// A piece of a path that names something (not empty, not `.`).
pub open spec fn named_piece(piece: Seq<char>) -> Seq<Seq<char>> {
    if piece.len() == 0 || piece == seq!['.'] {
        seq![]
    } else {
        seq![piece]
    }
}

/// The named components of a path, in order (`..` included).
pub open spec fn parts(p: Seq<char>) -> Seq<Seq<char>>
    decreases p.len(),
{
    match text::find(p, seq!['/']) {
        Some(k) => if 0 <= k < p.len() {
            named_piece(p.take(k)) + parts(p.skip(k + 1))
        } else {
            seq![]
        },
        None => named_piece(p),
    }
}

/// The name of the directory that holds `p`: its second-to-last component,
/// when that is a name (not `..`) — `Path::parent` then `Path::file_name`.
pub open spec fn parent_name(p: Seq<char>) -> Option<Seq<char>> {
    let ps = parts(p);
    if ps.len() >= 2 && ps[ps.len() - 2] != seq!['.', '.'] {
        Some(ps[ps.len() - 2])
    } else {
        None
    }
}

/// The final component of `p`, when it is a name (`Path::file_name`).
pub open spec fn file_name(p: Seq<char>) -> Option<Seq<char>> {
    let ps = parts(p);
    if ps.len() >= 1 && ps.last() != seq!['.', '.'] {
        Some(ps.last())
    } else {
        None
    }
}

/// `k` is the index of the last `.` in `s`.
pub open spec fn last_dot(s: Seq<char>, k: int) -> bool {
    0 <= k < s.len() && s[k] == '.' && forall|j: int| k < j < s.len() ==> s[j] != '.'
}

/// A file name without its extension: everything before the last `.`,
/// unless that `.` is the first character (`Path::file_stem`).
pub open spec fn stem(name: Seq<char>) -> Seq<char> {
    if exists|k: int| last_dot(name, k) && k > 0 {
        name.take(choose|k: int| last_dot(name, k) && k > 0)
    } else {
        name
    }
}

/// The components of `p` that name something, as strings.
pub fn path_parts(p: &str) -> (out: Vec<String>)
    ensures
        text::views(out@) == parts(p@),
{
    let cs = text::chars_of(p);
    let slash: Vec<char> = vec!['/'];
    let dot: Vec<char> = vec!['.'];
    let n = cs.len();
    let mut out: Vec<String> = Vec::new();
    let mut start: usize = 0;
    assert(cs@.subrange(0, n as int) =~= p@);
    loop
        invariant
            n == cs.len(),
            cs@ == p@,
            slash@ == seq!['/'],
            dot@ == seq!['.'],
            start <= n,
            text::views(out@) + parts(cs@.subrange(start as int, n as int)) == parts(p@),
        ensures
            text::views(out@) == parts(p@),
        decreases n - start,
    {
        let ghost rest = cs@.subrange(start as int, n as int);
        let found = text::find_in(&cs, start, n, &slash);
        let end = match found {
            Some(k) => k,
            None => n,
        };
        proof {
            if found is Some {
                text::lemma_find_some(rest, slash@);
            }
        }
        let piece = text::string_of(&cs, start, end);
        let named = end > start && !(end == start + 1 && cs[start] == '.');
        proof {
            assert(rest.take(end - start) =~= piece@);
            if end == start + 1 && cs@[start as int] == '.' {
                assert(piece@ =~= seq!['.']);
            }
            if end == start {
                assert(piece@.len() == 0);
            }
            if named {
                assert(piece@ != seq!['.']) by {
                    if end == start + 1 {
                        assert(piece@[0] != '.');
                    }
                }
            }
        }
        let ghost before = out@;
        if named {
            out.push(piece);
            proof {
                assert(text::views(out@) =~= text::views(before).push(piece@));
            }
        }
        proof {
            assert(text::views(out@) =~= text::views(before) + named_piece(piece@));
        }
        match found {
            Some(k) => {
                proof {
                    assert(rest.skip(k - start + 1) =~= cs@.subrange(k + 1, n as int));
                    assert(parts(rest) == named_piece(rest.take(k - start)) + parts(
                        rest.skip(k - start + 1),
                    ));
                    assert(text::views(out@) + parts(cs@.subrange(k + 1, n as int)) =~= text::views(before)
                        + parts(rest));
                }
                start = k + 1;
            },
            None => {
                proof {
                    assert(rest.take(n - start) =~= rest);
                    assert(text::views(out@) =~= text::views(before) + parts(rest));
                }
                return out;
            },
        }
    }
}

/// The notebook a note path belongs to: the name of its parent directory.
pub fn notebook_of_path(path: &str) -> (r: Option<String>)
    ensures
        match parent_name(path@) {
            Some(name) => r is Some && r->0@ == name,
            None => r is None,
        },
{
    let ps = path_parts(path);
    let k = ps.len();
    proof {
        assert(text::views(ps@).len() == k);
    }
    if k >= 2 {
        let name = ps[k - 2].clone();
        let dd = String::from_str("..");
        proof {
            reveal_strlit("..");
            assert(dd@ =~= seq!['.', '.']);
            assert(text::views(ps@)[k - 2] == ps@[k - 2]@);
        }
        if name == dd {
            None
        } else {
            Some(name)
        }
    } else {
        None
    }
}

/// The final named component of `path`, if any.
pub fn path_file_name(path: &str) -> (r: Option<String>)
    ensures
        match file_name(path@) {
            Some(name) => r is Some && r->0@ == name,
            None => r is None,
        },
{
    let ps = path_parts(path);
    let k = ps.len();
    proof {
        assert(text::views(ps@).len() == k);
    }
    if k >= 1 {
        let name = ps[k - 1].clone();
        let dd = String::from_str("..");
        proof {
            reveal_strlit("..");
            assert(dd@ =~= seq!['.', '.']);
            assert(text::views(ps@)[k - 1] == ps@[k - 1]@);
        }
        if name == dd {
            None
        } else {
            Some(name)
        }
    } else {
        None
    }
}

/// A file name without its extension.
pub fn file_stem_of(name: &String) -> (r: String)
    ensures
        r@ == stem(name@),
{
    let cs = text::chars_of(name.as_str());
    let n = cs.len();
    let mut k = n;
    while k > 0 && cs[k - 1] != '.'
        invariant
            k <= n == cs.len(),
            cs@ == name@,
            forall|j: int| k <= j < n ==> cs@[j] != '.',
        decreases k,
    {
        k -= 1;
    }
    if k >= 2 {
        proof {
            assert(last_dot(name@, k - 1));
            assert forall|m: int| last_dot(name@, m) && m > 0 implies m == k - 1 by {
                if m < k - 1 {
                    assert(name@[k - 1] == '.');
                } else if m > k - 1 {
                    assert(name@[m] != '.');
                }
            }
        }
        let r = text::string_of(&cs, 0, k - 1);
        proof {
            let c = choose|m: int| last_dot(name@, m) && m > 0;
            assert(c == k - 1);
            assert(r@ =~= name@.take(k - 1));
        }
        r
    } else {
        proof {
            assert forall|m: int| !(last_dot(name@, m) && m > 0) by {
                if last_dot(name@, m) && m > 0 {
                    if m >= k {
                        assert(cs@[m] != '.');
                    } else {
                        assert(k == 1);
                        assert(name@[0] == '.');
                    }
                }
            }
        }
        name.clone()
    }
}

} // verus!
