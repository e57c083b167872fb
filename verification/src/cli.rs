//! Command-line arguments.

use vstd::prelude::*;
use crate::text;

verus! {

/// `k` is the position of the first `x` or `X` in `s`.
pub open spec fn first_x(s: Seq<char>, k: int) -> bool {
    &&& 0 <= k < s.len()
    &&& (s[k] == 'x' || s[k] == 'X')
    &&& forall|j: int| 0 <= j < k ==> s[j] != 'x' && s[j] != 'X'
}

/// The `(width, height)` that a `WIDTHxHEIGHT` string denotes: split at the
/// first `x` or `X`, each side trimmed and read as a `u16`.
pub open spec fn size_of(s: Seq<char>) -> Option<(u16, u16)> {
    if exists|k: int| first_x(s, k) {
        let k = choose|k: int| first_x(s, k);
        match (
            text::parse_unsigned(text::trim(s.take(k)), u16::MAX as nat),
            text::parse_unsigned(text::trim(s.skip(k + 1)), u16::MAX as nat),
        ) {
            (Some(w), Some(h)) => Some((w as u16, h as u16)),
            _ => None,
        }
    } else {
        None
    }
}

/// A digit string has no surrounding whitespace.
proof fn lemma_trim_digits(s: Seq<char>)
    requires
        s.len() > 0,
        text::all_digits(s),
    ensures
        text::trim(s) == s,
{
    assert(text::is_digit(s[0]));
    assert(text::is_digit(s.last()));
    assert(text::trim_start(s) == s);
}

/// Printing a size as `WIDTHxHEIGHT` and parsing it back gives the size.
pub proof fn law_size_round_trip(w: u16, h: u16)
    ensures
        size_of(text::decimal(w as nat) + seq!['x'] + text::decimal(h as nat)) == Some((w, h)),
{
    let dw = text::decimal(w as nat);
    let dh = text::decimal(h as nat);
    text::lemma_decimal_nonempty(w as nat);
    text::lemma_decimal_nonempty(h as nat);
    let s = dw + seq!['x'] + dh;
    let k = dw.len() as int;
    assert(s[k] == 'x');
    assert forall|j: int| 0 <= j < k implies s[j] != 'x' && s[j] != 'X' by {
        assert(s[j] == dw[j]);
        assert(text::is_digit(dw[j]));
    }
    assert(first_x(s, k));
    let c = choose|m: int| first_x(s, m);
    assert(first_x(s, c));
    if c < k {
        assert(s[c] == dw[c]);
        assert(text::is_digit(dw[c]));
    } else if c > k {
        assert(s[k] == 'x');
    }
    assert(c == k);
    assert(s.take(k) =~= dw);
    assert(s.skip(k + 1) =~= dh);
    lemma_trim_digits(dw);
    lemma_trim_digits(dh);
    assert(text::is_digit(dw[0]));
    assert(text::is_digit(dh[0]));
    assert(text::parse_unsigned(dw, u16::MAX as nat) == Some(w as nat));
    assert(text::parse_unsigned(dh, u16::MAX as nat) == Some(h as nat));
}

/// Parse a `WIDTHxHEIGHT` string like `100x28`.
pub fn parse_size(s: &str) -> (r: Option<(u16, u16)>)
    ensures
        r == size_of(s@),
{
    let cs = text::chars_of(s);
    let n = cs.len();
    let mut k: usize = 0;
    while k < n && cs[k] != 'x' && cs[k] != 'X'
        invariant
            k <= n == cs.len(),
            cs@ == s@,
            forall|j: int| 0 <= j < k ==> cs@[j] != 'x' && cs@[j] != 'X',
        decreases n - k,
    {
        k += 1;
    }
    if k == n {
        proof {
            if exists|m: int| first_x(s@, m) {
                let m = choose|m: int| first_x(s@, m);
                assert(cs@[m] != 'x' && cs@[m] != 'X');
            }
        }
        return None;
    }
    proof {
        assert(first_x(s@, k as int));
        let c = choose|m: int| first_x(s@, m);
        if c < k {
            assert(cs@[c] != 'x' && cs@[c] != 'X');
        } else if c > k {
            assert(s@[k as int] != 'x' && s@[k as int] != 'X');
        }
        assert(c == k);
    }
    let (a, b) = text::trim_bounds(&cs, 0, k);
    let (x, y) = text::trim_bounds(&cs, k + 1, n);
    proof {
        assert(s@.take(k as int) =~= cs@.subrange(0, k as int));
        assert(s@.skip(k + 1) =~= cs@.subrange(k + 1, n as int));
        assert(cs@.subrange(a as int, b as int).subrange(0, (b - a) as int) =~= cs@.subrange(
            a as int,
            b as int,
        ));
        assert(cs@.subrange(x as int, y as int).subrange(0, (y - x) as int) =~= cs@.subrange(
            x as int,
            y as int,
        ));
    }
    let w = text::parse_unsigned_in(&cs, a, b, 0xffff);
    let h = text::parse_unsigned_in(&cs, x, y, 0xffff);
    match (w, h) {
        (Some(w), Some(h)) => Some((w as u16, h as u16)),
        _ => None,
    }
}

} // verus!
