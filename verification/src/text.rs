//! Character-level text handling shared by the parsers: searching, trimming,
//! splitting into lines, decimal numbers, and the two Unicode-table
//! questions (case folding and alphanumerics) that only std can answer.

use vstd::prelude::*;

verus! {

// ---------------------------------------------------------------------------
// Models
// ---------------------------------------------------------------------------

/// The character views of a sequence of strings.
pub open spec fn views(v: Seq<String>) -> Seq<Seq<char>> {
    v.map_values(|s: String| s@)
}

/// `p` occurs in `s` starting at index `k`.
pub open spec fn matches_at(s: Seq<char>, p: Seq<char>, k: int) -> bool {
    &&& 0 <= k
    &&& k + p.len() <= s.len()
    &&& s.subrange(k, k + p.len()) == p
}

/// `k` is the first index at which `p` occurs in `s`.
pub open spec fn first_match(s: Seq<char>, p: Seq<char>, k: int) -> bool {
    &&& matches_at(s, p, k)
    &&& forall|j: int| 0 <= j < k ==> !#[trigger] matches_at(s, p, j)
}

/// The index of the first occurrence of `p` in `s`, if any.
pub open spec fn find(s: Seq<char>, p: Seq<char>) -> Option<int> {
    if exists|k: int| first_match(s, p, k) {
        Some(choose|k: int| first_match(s, p, k))
    } else {
        None
    }
}

/// `p` occurs somewhere in `s` (the empty pattern occurs everywhere).
pub open spec fn contains_seq(s: Seq<char>, p: Seq<char>) -> bool {
    find(s, p) is Some
}

/// Unicode `White_Space`, the set that `char::is_whitespace` tests.
pub open spec fn is_ws(c: char) -> bool {
    ||| '\u{9}' <= c <= '\u{d}'
    ||| c == ' '
    ||| c == '\u{85}'
    ||| c == '\u{a0}'
    ||| c == '\u{1680}'
    ||| '\u{2000}' <= c <= '\u{200a}'
    ||| c == '\u{2028}'
    ||| c == '\u{2029}'
    ||| c == '\u{202f}'
    ||| c == '\u{205f}'
    ||| c == '\u{3000}'
}

/// `s` without its leading whitespace.
pub open spec fn trim_start(s: Seq<char>) -> Seq<char>
    decreases s.len(),
{
    if s.len() > 0 && is_ws(s[0]) {
        trim_start(s.drop_first())
    } else {
        s
    }
}

/// `s` without its trailing whitespace.
pub open spec fn trim_end(s: Seq<char>) -> Seq<char>
    decreases s.len(),
{
    if s.len() > 0 && is_ws(s.last()) {
        trim_end(s.drop_last())
    } else {
        s
    }
}

/// `s` without leading and trailing whitespace (`str::trim`).
pub open spec fn trim(s: Seq<char>) -> Seq<char> {
    trim_end(trim_start(s))
}

/// A line with its final `\r`, if any, removed.
pub open spec fn strip_cr(l: Seq<char>) -> Seq<char> {
    if l.len() > 0 && l.last() == '\r' {
        l.drop_last()
    } else {
        l
    }
}

/// The lines of `s` as `str::lines` yields them: split after each `\n`, the
/// `\n` and one `\r` before it dropped; no empty line after a final `\n`.
pub open spec fn lines(s: Seq<char>) -> Seq<Seq<char>>
    decreases s.len(),
{
    if s.len() == 0 {
        seq![]
    } else {
        match find(s, seq!['\n']) {
            Some(k) => if 0 <= k < s.len() {
                seq![strip_cr(s.take(k))] + lines(s.skip(k + 1))
            } else {
                seq![]
            },
            None => seq![s],
        }
    }
}

/// `k` is the first position of `x` in `s`.
pub open spec fn first_index(s: Seq<Seq<char>>, x: Seq<char>, k: int) -> bool {
    &&& 0 <= k < s.len()
    &&& s[k] == x
    &&& forall|j: int| 0 <= j < k ==> #[trigger] s[j] != x
}

/// The first position of `x` in `s`, if any.
pub open spec fn index_of(s: Seq<Seq<char>>, x: Seq<char>) -> Option<int> {
    if exists|k: int| first_index(s, x, k) {
        Some(choose|k: int| first_index(s, x, k))
    } else {
        None
    }
}

/// The number of non-whitespace characters at the start of `s`.
pub open spec fn word_len(s: Seq<char>) -> nat
    decreases s.len(),
{
    if s.len() > 0 && !is_ws(s[0]) {
        1 + word_len(s.drop_first())
    } else {
        0
    }
}

/// The whitespace-separated words of `s` from position `i` on.
pub open spec fn words_from(s: Seq<char>, i: int) -> Seq<Seq<char>>
    decreases s.len() - i,
{
    if i < 0 || i >= s.len() {
        seq![]
    } else if is_ws(s[i]) {
        words_from(s, i + 1)
    } else {
        let k = word_len(s.skip(i));
        if k == 0 || i + k > s.len() {
            seq![]
        } else {
            seq![s.subrange(i, i + k)] + words_from(s, i + k)
        }
    }
}

/// The whitespace-separated words of `s` (`str::split_whitespace`).
pub open spec fn words(s: Seq<char>) -> Seq<Seq<char>> {
    words_from(s, 0)
}

/// The items of `s`, each kept only at its first occurrence.
pub open spec fn dedup(s: Seq<Seq<char>>) -> Seq<Seq<char>>
    decreases s.len(),
{
    if s.len() == 0 {
        seq![]
    } else {
        let d = dedup(s.drop_last());
        if d.contains(s.last()) {
            d
        } else {
            d.push(s.last())
        }
    }
}

/// The items of `s` that do not occur in `excl`, in order.
pub open spec fn without(s: Seq<Seq<char>>, excl: Seq<Seq<char>>) -> Seq<Seq<char>>
    decreases s.len(),
{
    if s.len() == 0 {
        seq![]
    } else if excl.contains(s.last()) {
        without(s.drop_last(), excl)
    } else {
        without(s.drop_last(), excl).push(s.last())
    }
}

/// The non-empty items of `s`, in order.
pub open spec fn nonempty(s: Seq<Seq<char>>) -> Seq<Seq<char>>
    decreases s.len(),
{
    if s.len() == 0 {
        seq![]
    } else if s.last().len() == 0 {
        nonempty(s.drop_last())
    } else {
        nonempty(s.drop_last()).push(s.last())
    }
}

/// No item occurs twice.
pub open spec fn no_dups(s: Seq<Seq<char>>) -> bool {
    forall|i: int, j: int| 0 <= i < j < s.len() ==> s[i] != s[j]
}

/// The decimal digit `d` as a character.
pub open spec fn digit_char(d: nat) -> char {
    seq!['0', '1', '2', '3', '4', '5', '6', '7', '8', '9'][d as int]
}

/// `n` written in decimal, without leading zeros.
pub open spec fn decimal(n: nat) -> Seq<char>
    decreases n,
{
    if n < 10 {
        seq![digit_char(n)]
    } else {
        decimal(n / 10).push(digit_char(n % 10))
    }
}

pub open spec fn is_digit(c: char) -> bool {
    '0' <= c <= '9'
}

pub open spec fn all_digits(s: Seq<char>) -> bool {
    forall|i: int| 0 <= i < s.len() ==> is_digit(#[trigger] s[i])
}

/// The number that the decimal digits `s` denote.
pub open spec fn digits_value(s: Seq<char>) -> nat
    decreases s.len(),
{
    if s.len() == 0 {
        0
    } else {
        digits_value(s.drop_last()) * 10 + (s.last() as nat - '0' as nat) as nat
    }
}

/// What `str::parse` gives for an unsigned integer type whose largest value is
/// `max`: an optional `+`, then one or more decimal digits, and a value that fits.
pub open spec fn parse_unsigned(s: Seq<char>, max: nat) -> Option<nat> {
    let d = if s.len() > 0 && s[0] == '+' {
        s.drop_first()
    } else {
        s
    };
    if d.len() > 0 && all_digits(d) && digits_value(d) <= max {
        Some(digits_value(d))
    } else {
        None
    }
}

/// `x` and `y` are the same character once ASCII letters are folded to one case.
pub open spec fn same_ascii_nocase(x: char, y: char) -> bool {
    ||| x == y
    ||| 'A' <= x <= 'Z' && y as u32 == x as u32 + 32
    ||| 'A' <= y <= 'Z' && x as u32 == y as u32 + 32
}

/// `str::eq_ignore_ascii_case`.
pub open spec fn eq_ascii_nocase(a: Seq<char>, b: Seq<char>) -> bool {
    &&& a.len() == b.len()
    &&& forall|i: int| 0 <= i < a.len() ==> same_ascii_nocase(#[trigger] a[i], b[i])
}

// ---------------------------------------------------------------------------
// What only std's Unicode tables know
// ---------------------------------------------------------------------------

/// What `str::to_lowercase` returns for a string.
pub uninterp spec fn lowercase(s: Seq<char>) -> Seq<char>;

/// What `char::is_alphanumeric` returns for a character.
pub uninterp spec fn alphanumeric(c: char) -> bool;

/// Calls `str::to_lowercase`. Claimed: the result is `lowercase` of the input,
/// and it is empty exactly when the input is (each character lowercases to at
/// least one character).
#[verifier::external_body]
pub(crate) fn to_lowercase(s: &str) -> (r: String)
    ensures
        r@ == lowercase(s@),
        (r@.len() == 0) == (s@.len() == 0),
{
    s.to_lowercase()
}

/// Calls `char::is_alphanumeric`. Claimed: the result is `alphanumeric(c)`, and
/// on ASCII it is true exactly for the letters and the digits (the documented
/// `Alphabetic` and `Numeric` properties restricted to ASCII).
#[verifier::external_body]
pub(crate) fn is_alphanumeric(c: char) -> (b: bool)
    ensures
        b == alphanumeric(c),
        (c as u32) < 128 ==> (b == ('a' <= c <= 'z' || 'A' <= c <= 'Z' || '0' <= c <= '9')),
{
    c.is_alphanumeric()
}

/// Calls `String::push`: appends one character.
#[verifier::external_body]
pub(crate) fn push_char(s: &mut String, c: char)
    ensures
        final(s)@ == old(s)@.push(c),
{
    s.push(c);
}

/// Calls `String::pop`: removes and returns the last character, if any.
#[verifier::external_body]
pub(crate) fn pop_char(s: &mut String) -> (r: Option<char>)
    ensures
        old(s)@.len() == 0 ==> r is None && final(s)@ == old(s)@,
        old(s)@.len() > 0 ==> r == Some(old(s)@.last()) && final(s)@ == old(s)@.drop_last(),
{
    s.pop()
}

// ---------------------------------------------------------------------------
// Lemmas
// ---------------------------------------------------------------------------

pub proof fn lemma_find_first(s: Seq<char>, p: Seq<char>, k: int)
    requires
        first_match(s, p, k),
    ensures
        find(s, p) == Some(k),
{
    let c = choose|k: int| first_match(s, p, k);
    assert(first_match(s, p, c));
    if c < k {
        assert(!matches_at(s, p, c));
    } else if k < c {
        assert(!matches_at(s, p, k));
    }
}

pub proof fn lemma_find_none(s: Seq<char>, p: Seq<char>)
    requires
        forall|j: int| !#[trigger] matches_at(s, p, j),
    ensures
        find(s, p) is None,
{
    if exists|k: int| first_match(s, p, k) {
        let k = choose|k: int| first_match(s, p, k);
        assert(matches_at(s, p, k));
    }
}

/// A string that neither starts nor ends with whitespace is its own trim.
pub proof fn lemma_trim_unchanged(s: Seq<char>)
    requires
        s.len() > 0,
        !is_ws(s[0]),
        !is_ws(s.last()),
    ensures
        trim(s) == s,
{
    assert(trim_start(s) == s);
    assert(trim_end(s) == s);
}

/// A pattern that occurs somewhere has a first occurrence, at or before
/// any given one.
pub proof fn lemma_first_match_exists(s: Seq<char>, p: Seq<char>, k: int)
    requires
        matches_at(s, p, k),
    ensures
        exists|j: int| j <= k && first_match(s, p, j),
    decreases k,
{
    if exists|j: int| 0 <= j < k && #[trigger] matches_at(s, p, j) {
        let j = choose|j: int| 0 <= j < k && #[trigger] matches_at(s, p, j);
        lemma_first_match_exists(s, p, j);
    } else {
        assert(first_match(s, p, k));
    }
}

/// `p` occurs in `s` exactly when it matches at some position.
pub proof fn lemma_contains_seq(s: Seq<char>, p: Seq<char>)
    ensures
        contains_seq(s, p) <==> exists|k: int| #[trigger] matches_at(s, p, k),
{
    if exists|k: int| #[trigger] matches_at(s, p, k) {
        let k = choose|k: int| #[trigger] matches_at(s, p, k);
        lemma_first_match_exists(s, p, k);
    }
    if contains_seq(s, p) {
        lemma_find_some(s, p);
    }
}

pub proof fn lemma_find_some(s: Seq<char>, p: Seq<char>)
    requires
        find(s, p) is Some,
    ensures
        first_match(s, p, find(s, p)->0),
        0 <= find(s, p)->0 <= s.len() - p.len(),
{
}

/// An item that occurs has a first position, holding that item.
pub proof fn lemma_index_of_found(s: Seq<Seq<char>>, x: Seq<char>, i: int)
    requires
        0 <= i < s.len(),
        s[i] == x,
    ensures
        index_of(s, x) matches Some(k) && 0 <= k <= i && s[k] == x,
    decreases i,
{
    if exists|j: int| 0 <= j < i && s[j] == x {
        let j = choose|j: int| 0 <= j < i && s[j] == x;
        lemma_index_of_found(s, x, j);
    } else {
        assert(first_index(s, x, i));
        let c = choose|c: int| first_index(s, x, c);
        assert(first_index(s, x, c));
        if c > i {
            assert(s[i] != x);
        }
    }
}

/// A run of `k` non-whitespace characters ended by whitespace (or the end).
pub proof fn lemma_word_len(s: Seq<char>, k: int)
    requires
        0 <= k <= s.len(),
        forall|t: int| 0 <= t < k ==> !is_ws(#[trigger] s[t]),
        k == s.len() || is_ws(s[k]),
    ensures
        word_len(s) == k,
    decreases k,
{
    if k > 0 {
        let r = s.drop_first();
        assert forall|t: int| 0 <= t < k - 1 implies !is_ws(#[trigger] r[t]) by {
            assert(r[t] == s[t + 1]);
        }
        lemma_word_len(r, k - 1);
    }
}

/// `dedup` keeps no item twice.
pub proof fn lemma_dedup_no_dups(s: Seq<Seq<char>>)
    ensures
        no_dups(dedup(s)),
    decreases s.len(),
{
    if s.len() > 0 {
        lemma_dedup_no_dups(s.drop_last());
    }
}

/// Every item of `dedup(s)` is an item of `s`, and the other way round.
pub proof fn lemma_dedup_same_items(s: Seq<Seq<char>>)
    ensures
        forall|x: Seq<char>| dedup(s).contains(x) <==> s.contains(x),
    decreases s.len(),
{
    if s.len() > 0 {
        let p = s.drop_last();
        lemma_dedup_same_items(p);
        let d = dedup(p);
        assert forall|x: Seq<char>| dedup(s).contains(x) <==> s.contains(x) by {
            if s.contains(x) {
                let i = choose|i: int| 0 <= i < s.len() && s[i] == x;
                if i < s.len() - 1 {
                    assert(p[i] == x);
                    assert(p.contains(x));
                    assert(d.contains(x));
                    if !d.contains(s.last()) {
                        let j = choose|j: int| 0 <= j < d.len() && d[j] == x;
                        assert(d.push(s.last())[j] == x);
                    }
                } else {
                    if !d.contains(s.last()) {
                        assert(d.push(s.last())[d.len() as int] == x);
                    }
                }
            }
            if dedup(s).contains(x) {
                if d.contains(x) {
                    assert(p.contains(x));
                    let j = choose|j: int| 0 <= j < p.len() && p[j] == x;
                    assert(s[j] == x);
                } else {
                    let j = choose|j: int| 0 <= j < dedup(s).len() && dedup(s)[j] == x;
                    if d.contains(s.last()) {
                        assert(d[j] == x);
                    } else if j < d.len() {
                        assert(d.push(s.last())[j] == d[j]);
                    } else {
                        assert(x == s.last());
                        assert(s[s.len() - 1] == x);
                    }
                }
            }
        }
    }
}

/// Every item of `nonempty(s)` is non-empty.
pub proof fn lemma_nonempty_items(s: Seq<Seq<char>>)
    ensures
        forall|i: int| 0 <= i < nonempty(s).len() ==> #[trigger] nonempty(s)[i].len() > 0,
    decreases s.len(),
{
    if s.len() > 0 {
        let p = s.drop_last();
        lemma_nonempty_items(p);
        assert forall|i: int| 0 <= i < nonempty(s).len() implies #[trigger] nonempty(s)[i].len()
            > 0 by {
            if s.last().len() > 0 && i < nonempty(p).len() {
                assert(nonempty(s)[i] == nonempty(p)[i]);
            }
        }
    }
}

/// The non-empty items of `x + y` are those of `x`, then those of `y`.
pub proof fn lemma_nonempty_concat(x: Seq<Seq<char>>, y: Seq<Seq<char>>)
    ensures
        nonempty(x + y) == nonempty(x) + nonempty(y),
    decreases y.len(),
{
    if y.len() == 0 {
        assert(x + y =~= x);
        assert(nonempty(x) + nonempty(y) =~= nonempty(x));
    } else {
        lemma_nonempty_concat(x, y.drop_last());
        assert((x + y).drop_last() =~= x + y.drop_last());
        assert((x + y).last() == y.last());
        if y.last().len() > 0 {
            assert(nonempty(x) + nonempty(y.drop_last()).push(y.last()) =~= (nonempty(x)
                + nonempty(y.drop_last())).push(y.last()));
        }
    }
}

/// An item is kept by `without(s, excl)` exactly when it is in `s` and not
/// in `excl`.
pub proof fn lemma_without_contains(s: Seq<Seq<char>>, excl: Seq<Seq<char>>, v: Seq<char>)
    ensures
        without(s, excl).contains(v) <==> s.contains(v) && !excl.contains(v),
    decreases s.len(),
{
    if s.len() > 0 {
        let p = s.drop_last();
        lemma_without_contains(p, excl, v);
        let w = without(p, excl);
        if s.contains(v) && !excl.contains(v) {
            let i = choose|i: int| 0 <= i < s.len() && s[i] == v;
            if i < p.len() {
                assert(p[i] == v);
                let j = choose|j: int| 0 <= j < w.len() && w[j] == v;
                if !excl.contains(s.last()) {
                    assert(w.push(s.last())[j] == v);
                }
            } else {
                assert(w.push(s.last())[w.len() as int] == v);
            }
        }
        if without(s, excl).contains(v) {
            let j = choose|j: int| 0 <= j < without(s, excl).len() && without(s, excl)[j] == v;
            if excl.contains(s.last()) || j < w.len() {
                if !excl.contains(s.last()) {
                    assert(w.push(s.last())[j] == w[j]);
                }
                assert(w.contains(v));
                let i = choose|i: int| 0 <= i < p.len() && p[i] == v;
                assert(s[i] == v);
            } else {
                assert(v == s.last());
                assert(s[s.len() - 1] == v);
            }
        }
    }
}

/// Deduplicating `x + y` keeps the items of `dedup(x)`, then the items of
/// `dedup(y)` that `x` does not hold.
pub proof fn lemma_dedup_concat(x: Seq<Seq<char>>, y: Seq<Seq<char>>)
    ensures
        dedup(x + y) == dedup(x) + without(dedup(y), dedup(x)),
    decreases y.len(),
{
    let dx = dedup(x);
    if y.len() == 0 {
        assert(x + y =~= x);
        assert(dx + without(dedup(y), dx) =~= dx);
    } else {
        let yp = y.drop_last();
        let l = y.last();
        lemma_dedup_concat(x, yp);
        assert((x + y).drop_last() =~= x + yp);
        assert((x + y).last() == l);
        let d = dedup(x + yp);
        let e = dedup(yp);
        let wp = without(e, dx);
        assert(d == dx + wp);
        lemma_without_contains(e, dx, l);
        if e.contains(l) {
            assert(dedup(y) == e);
            if dx.contains(l) {
                let k = choose|k: int| 0 <= k < dx.len() && dx[k] == l;
                assert(d[k] == l);
            } else {
                let k = choose|k: int| 0 <= k < wp.len() && wp[k] == l;
                assert(d[dx.len() + k] == l);
            }
            assert(dedup(x + y) == d);
        } else {
            assert(dedup(y) == e.push(l));
            assert(e.push(l).drop_last() =~= e);
            assert(e.push(l).last() == l);
            if dx.contains(l) {
                let k = choose|k: int| 0 <= k < dx.len() && dx[k] == l;
                assert(d[k] == l);
                assert(without(dedup(y), dx) == wp);
                assert(dedup(x + y) == d);
            } else {
                assert(without(dedup(y), dx) == wp.push(l));
                if d.contains(l) {
                    let k = choose|k: int| 0 <= k < d.len() && d[k] == l;
                    if k < dx.len() {
                        assert(dx[k] == l);
                    } else {
                        assert(wp[k - dx.len()] == l);
                    }
                }
                assert(dedup(x + y) == d.push(l));
                assert(dx + wp.push(l) =~= (dx + wp).push(l));
            }
        }
    }
}

pub proof fn lemma_digit_char(d: nat)
    requires
        d < 10,
    ensures
        is_digit(digit_char(d)),
        digit_char(d) as nat - '0' as nat == d,
{
    let ds = seq!['0', '1', '2', '3', '4', '5', '6', '7', '8', '9'];
    assert(ds[0] == '0' && ds[1] == '1' && ds[2] == '2' && ds[3] == '3' && ds[4] == '4');
    assert(ds[5] == '5' && ds[6] == '6' && ds[7] == '7' && ds[8] == '8' && ds[9] == '9');
}

pub proof fn lemma_decimal_nonempty(n: nat)
    ensures
        decimal(n).len() > 0,
        all_digits(decimal(n)),
        digits_value(decimal(n)) == n,
    decreases n,
{
    if n < 10 {
        lemma_digit_char(n);
        let d = decimal(n);
        assert(d.drop_last() =~= Seq::<char>::empty());
        assert(digits_value(Seq::<char>::empty()) == 0);
        assert(digits_value(d) == digits_value(d.drop_last()) * 10 + (d.last() as nat
            - '0' as nat) as nat);
    } else {
        lemma_decimal_nonempty(n / 10);
        lemma_digit_char(n % 10);
        let d = decimal(n);
        assert(d.drop_last() =~= decimal(n / 10));
        assert(digits_value(d) == digits_value(d.drop_last()) * 10 + (d.last() as nat
            - '0' as nat) as nat);
        assert(n == (n / 10) * 10 + n % 10);
        assert forall|i: int| 0 <= i < d.len() implies is_digit(#[trigger] d[i]) by {
            if i < d.len() - 1 {
                assert(d[i] == decimal(n / 10)[i]);
            }
        }
    }
}

// ---------------------------------------------------------------------------
// Executable helpers
// ---------------------------------------------------------------------------

/// `char::is_whitespace`.
pub fn is_whitespace(c: char) -> (b: bool)
    ensures
        b == is_ws(c),
{
    ('\u{9}' <= c && c <= '\u{d}') || c == ' ' || c == '\u{85}' || c == '\u{a0}' || c
        == '\u{1680}' || ('\u{2000}' <= c && c <= '\u{200a}') || c == '\u{2028}' || c
        == '\u{2029}' || c == '\u{202f}' || c == '\u{205f}' || c == '\u{3000}'
}

/// The characters of `s`, in order.
pub fn chars_of(s: &str) -> (out: Vec<char>)
    ensures
        out@ == s@,
{
    let mut out: Vec<char> = Vec::new();
    for c in it: s.chars()
        invariant
            out@ == it.seq().take(it.index() as int),
    {
        out.push(c);
    }
    out
}

/// The string made of the characters `cs[from..to]`.
pub fn string_of(cs: &Vec<char>, from: usize, to: usize) -> (out: String)
    requires
        from <= to <= cs.len(),
    ensures
        out@ == cs@.subrange(from as int, to as int),
{
    let mut out = String::new();
    let mut i = from;
    while i < to
        invariant
            from <= i <= to <= cs.len(),
            out@ == cs@.subrange(from as int, i as int),
        decreases to - i,
    {
        push_char(&mut out, cs[i]);
        i += 1;
    }
    out
}

/// Whether `pat` occurs in `cs` at index `k`.
pub fn matches_here(cs: &Vec<char>, to: usize, k: usize, pat: &Vec<char>) -> (b: bool)
    requires
        to <= cs.len(),
        k + pat.len() <= to,
    ensures
        b == (cs@.subrange(k as int, k + pat.len()) == pat@),
{
    let mut j: usize = 0;
    while j < pat.len()
        invariant
            k + pat.len() <= to <= cs.len(),
            j <= pat.len(),
            forall|t: int| 0 <= t < j ==> cs@[k + t] == pat@[t],
        decreases pat.len() - j,
    {
        if cs[k + j] != pat[j] {
            assert(cs@.subrange(k as int, k + pat.len())[j as int] != pat@[j as int]);
            return false;
        }
        j += 1;
    }
    assert(cs@.subrange(k as int, k + pat.len()) =~= pat@);
    true
}

/// The first index at or after `from` where `pat` occurs inside `cs[from..to]`.
pub fn find_in(cs: &Vec<char>, from: usize, to: usize, pat: &Vec<char>) -> (r: Option<usize>)
    requires
        from <= to <= cs.len(),
    ensures
        match r {
            Some(k) => from <= k && find(cs@.subrange(from as int, to as int), pat@) == Some(
                k - from,
            ),
            None => find(cs@.subrange(from as int, to as int), pat@) is None,
        },
{
    let ghost sub = cs@.subrange(from as int, to as int);
    if pat.len() > to - from {
        proof {
            assert forall|j: int| !#[trigger] matches_at(sub, pat@, j) by {}
            lemma_find_none(sub, pat@);
        }
        return None;
    }
    if pat.len() == 0 {
        proof {
            assert(sub.subrange(0, 0) =~= pat@);
            assert(first_match(sub, pat@, 0));
            lemma_find_first(sub, pat@, 0);
        }
        return Some(from);
    }
    let mut i = from;
    while i <= to - pat.len()
        invariant
            from <= i <= to - pat.len() + 1,
            to <= cs.len(),
            pat.len() > 0,
            pat.len() <= to - from,
            sub == cs@.subrange(from as int, to as int),
            forall|j: int| 0 <= j < i - from ==> !#[trigger] matches_at(sub, pat@, j),
        decreases to - i,
    {
        let m = matches_here(cs, to, i, pat);
        proof {
            assert(sub.subrange(i - from, i - from + pat.len()) =~= cs@.subrange(
                i as int,
                i + pat.len(),
            ));
        }
        if m {
            proof {
                assert(first_match(sub, pat@, i - from));
                lemma_find_first(sub, pat@, i - from);
            }
            return Some(i);
        }
        i += 1;
    }
    proof {
        assert forall|j: int| !#[trigger] matches_at(sub, pat@, j) by {
            if 0 <= j < i - from {
            }
        }
        lemma_find_none(sub, pat@);
    }
    None
}

/// The bounds of `cs[from..to]` with surrounding whitespace removed.
pub fn trim_bounds(cs: &Vec<char>, from: usize, to: usize) -> (r: (usize, usize))
    requires
        from <= to <= cs.len(),
    ensures
        from <= r.0 <= r.1 <= to,
        cs@.subrange(r.0 as int, r.1 as int) == trim(cs@.subrange(from as int, to as int)),
{
    let mut a = from;
    while a < to && is_whitespace(cs[a])
        invariant
            from <= a <= to <= cs.len(),
            trim_start(cs@.subrange(from as int, to as int)) == trim_start(
                cs@.subrange(a as int, to as int),
            ),
        decreases to - a,
    {
        assert(cs@.subrange(a as int, to as int).drop_first() =~= cs@.subrange(a + 1, to as int));
        a += 1;
    }
    let mut b = to;
    while b > a && is_whitespace(cs[b - 1])
        invariant
            from <= a <= b <= to <= cs.len(),
            trim_end(cs@.subrange(a as int, to as int)) == trim_end(
                cs@.subrange(a as int, b as int),
            ),
        decreases b - a,
    {
        assert(cs@.subrange(a as int, b as int).drop_last() =~= cs@.subrange(a as int, b - 1));
        b -= 1;
    }
    (a, b)
}

/// The whitespace-separated words of `s` (`str::split_whitespace`).
pub fn split_words(s: &str) -> (out: Vec<String>)
    ensures
        views(out@) == words(s@),
{
    let cs = chars_of(s);
    let n = cs.len();
    let mut out: Vec<String> = Vec::new();
    let mut i: usize = 0;
    while i < n
        invariant
            i <= n == cs.len(),
            cs@ == s@,
            views(out@) + words_from(s@, i as int) == words(s@),
        decreases n - i,
    {
        if is_whitespace(cs[i]) {
            i += 1;
        } else {
            let mut j = i;
            while j < n && !is_whitespace(cs[j])
                invariant
                    i <= j <= n == cs.len(),
                    forall|t: int| i <= t < j ==> !is_ws(#[trigger] cs@[t]),
                decreases n - j,
            {
                j += 1;
            }
            let ghost tail = s@.skip(i as int);
            proof {
                assert forall|t: int| 0 <= t < j - i implies !is_ws(#[trigger] tail[t]) by {
                    assert(tail[t] == cs@[i + t]);
                }
                if j < n {
                    assert(tail[j - i] == cs@[j as int]);
                }
                lemma_word_len(tail, j - i);
            }
            let w = string_of(&cs, i, j);
            let ghost before = out@;
            out.push(w);
            proof {
                assert(views(out@) =~= views(before).push(w@));
                assert(views(out@) + words_from(s@, j as int) =~= views(before) + words_from(
                    s@,
                    i as int,
                ));
            }
            i = j;
        }
    }
    proof {
        assert(views(out@) + words_from(s@, n as int) =~= views(out@));
    }
    out
}

/// `str::trim`, as an owned string.
pub fn trimmed(s: &str) -> (r: String)
    ensures
        r@ == trim(s@),
{
    let cs = chars_of(s);
    let (a, b) = trim_bounds(&cs, 0, cs.len());
    assert(cs@.subrange(0, cs@.len() as int) =~= s@);
    string_of(&cs, a, b)
}

/// `str::lines`, as owned strings.
pub fn lines_of(s: &str) -> (out: Vec<String>)
    ensures
        views(out@) == lines(s@),
{
    let cs = chars_of(s);
    let nl: Vec<char> = vec!['\n'];
    let n = cs.len();
    let mut out: Vec<String> = Vec::new();
    let mut start: usize = 0;
    assert(cs@.subrange(0, n as int) =~= s@);
    while start < n
        invariant
            n == cs.len(),
            cs@ == s@,
            nl@ == seq!['\n'],
            start <= n,
            views(out@) + lines(cs@.subrange(start as int, n as int)) == lines(s@),
        decreases n - start,
    {
        let ghost rest = cs@.subrange(start as int, n as int);
        match find_in(&cs, start, n, &nl) {
            Some(k) => {
                proof {
                    lemma_find_some(rest, nl@);
                    assert(rest.take(k - start) =~= cs@.subrange(start as int, k as int));
                    assert(rest.skip(k - start + 1) =~= cs@.subrange(k + 1, n as int));
                }
                let line = if k > start && cs[k - 1] == '\r' {
                    proof {
                        assert(cs@.subrange(start as int, k as int).drop_last() =~= cs@.subrange(
                            start as int,
                            k - 1,
                        ));
                    }
                    string_of(&cs, start, k - 1)
                } else {
                    string_of(&cs, start, k)
                };
                proof {
                    assert(views(out@.push(line)) =~= views(out@).push(line@));
                    assert(seq![strip_cr(rest.take(k - start))] + lines(rest.skip(k - start + 1))
                        == lines(rest));
                }
                out.push(line);
                proof {
                    assert(views(out@) + lines(cs@.subrange(k + 1, n as int)) =~= views(
                        out@.drop_last(),
                    ) + lines(rest));
                }
                start = k + 1;
            },
            None => {
                let line = string_of(&cs, start, n);
                proof {
                    assert(views(out@.push(line)) =~= views(out@).push(line@));
                    assert(lines(rest) == seq![rest]);
                }
                out.push(line);
                proof {
                    assert(cs@.subrange(n as int, n as int) =~= Seq::<char>::empty());
                    assert(views(out@) + lines(cs@.subrange(n as int, n as int)) =~= views(
                        out@.drop_last(),
                    ) + lines(rest));
                }
                start = n;
            },
        }
    }
    proof {
        assert(cs@.subrange(n as int, n as int) =~= Seq::<char>::empty());
        assert(views(out@) + lines(Seq::<char>::empty()) =~= views(out@));
    }
    out
}

/// The single decimal digit `d`.
pub fn digit(d: usize) -> (c: char)
    requires
        d < 10,
    ensures
        c == digit_char(d as nat),
{
    let ghost ds = seq!['0', '1', '2', '3', '4', '5', '6', '7', '8', '9'];
    proof {
        assert(ds[0] == '0' && ds[1] == '1' && ds[2] == '2' && ds[3] == '3' && ds[4] == '4');
        assert(ds[5] == '5' && ds[6] == '6' && ds[7] == '7' && ds[8] == '8' && ds[9] == '9');
    }
    if d == 0 {
        '0'
    } else if d == 1 {
        '1'
    } else if d == 2 {
        '2'
    } else if d == 3 {
        '3'
    } else if d == 4 {
        '4'
    } else if d == 5 {
        '5'
    } else if d == 6 {
        '6'
    } else if d == 7 {
        '7'
    } else if d == 8 {
        '8'
    } else {
        '9'
    }
}

/// Appends `n` in decimal to `s`.
pub fn push_decimal(s: &mut String, n: usize)
    ensures
        final(s)@ == old(s)@ + decimal(n as nat),
    decreases n,
{
    if n < 10 {
        push_char(s, digit(n));
        assert(old(s)@.push(digit_char(n as nat)) =~= old(s)@ + decimal(n as nat));
    } else {
        push_decimal(s, n / 10);
        push_char(s, digit(n % 10));
        assert(old(s)@ + decimal(n as nat / 10) + seq![digit_char(n as nat % 10)] =~= old(s)@
            + decimal(n as nat));
    }
}

/// `str::parse` for an unsigned integer type whose largest value is `max`,
/// applied to `cs[from..to]`.
pub fn parse_unsigned_in(cs: &Vec<char>, from: usize, to: usize, max: u64) -> (r: Option<u64>)
    requires
        from <= to <= cs.len(),
        max < 0x1_0000_0000,
    ensures
        match parse_unsigned(cs@.subrange(from as int, to as int), max as nat) {
            Some(v) => r == Some(v as u64),
            None => r is None,
        },
{
    let ghost s = cs@.subrange(from as int, to as int);
    let start = if from < to && cs[from] == '+' {
        from + 1
    } else {
        from
    };
    let ghost d = cs@.subrange(start as int, to as int);
    proof {
        if from < to && cs@[from as int] == '+' {
            assert(s.drop_first() =~= d);
        } else {
            assert(s =~= d);
        }
    }
    if start == to {
        return None;
    }
    let mut i = start;
    while i < to
        invariant
            from <= start <= i <= to <= cs.len(),
            d == cs@.subrange(start as int, to as int),
            s == cs@.subrange(from as int, to as int),
            d == (if s.len() > 0 && s[0] == '+' { s.drop_first() } else { s }),
            forall|t: int| start <= t < i ==> is_digit(cs@[t]),
        decreases to - i,
    {
        if !('0' <= cs[i] && cs[i] <= '9') {
            assert(d[i - start] == cs@[i as int]);
            return None;
        }
        i += 1;
    }
    assert(all_digits(d)) by {
        assert forall|t: int| 0 <= t < d.len() implies is_digit(#[trigger] d[t]) by {
            assert(d[t] == cs@[start + t]);
        }
    }
    let mut v: u64 = 0;
    let mut i = start;
    while i < to
        invariant
            from <= start <= i <= to <= cs.len(),
            max < 0x1_0000_0000,
            d == cs@.subrange(start as int, to as int),
            s == cs@.subrange(from as int, to as int),
            d == (if s.len() > 0 && s[0] == '+' { s.drop_first() } else { s }),
            all_digits(d),
            v as nat == digits_value(cs@.subrange(start as int, i as int)),
            v <= max,
        decreases to - i,
    {
        let ghost pre = cs@.subrange(start as int, i as int);
        let ghost nxt = cs@.subrange(start as int, i + 1);
        assert(nxt.drop_last() =~= pre);
        assert(is_digit(d[i - start]));
        assert(d[i - start] == cs@[i as int]);
        let dv = (cs[i] as u32 - '0' as u32) as u64;
        assert(nxt.last() == cs@[i as int]);
        v = v * 10 + dv;
        if v > max {
            proof {
                lemma_digits_prefix_le(d, (i + 1 - start) as int);
                assert(d.take((i + 1 - start) as int) =~= nxt);
            }
            return None;
        }
        i += 1;
    }
    assert(cs@.subrange(start as int, i as int) =~= d);
    Some(v)
}

/// The value of a digit prefix is at most the value of the whole.
pub proof fn lemma_digits_prefix_le(s: Seq<char>, k: int)
    requires
        0 <= k <= s.len(),
        all_digits(s),
    ensures
        digits_value(s.take(k)) <= digits_value(s),
    decreases s.len() - k,
{
    if k < s.len() {
        lemma_digits_prefix_le(s, k + 1);
        assert(s.take(k + 1).drop_last() =~= s.take(k));
        assert(is_digit(s[k]));
    } else {
        assert(s.take(k) =~= s);
    }
}

/// `str::eq_ignore_ascii_case`.
pub fn eq_ignore_ascii_case(a: &String, b: &String) -> (r: bool)
    ensures
        r == eq_ascii_nocase(a@, b@),
{
    let x = chars_of(a.as_str());
    let y = chars_of(b.as_str());
    if x.len() != y.len() {
        return false;
    }
    let mut i: usize = 0;
    while i < x.len()
        invariant
            x@ == a@,
            y@ == b@,
            x.len() == y.len(),
            i <= x.len(),
            forall|t: int| 0 <= t < i ==> same_ascii_nocase(#[trigger] x@[t], y@[t]),
        decreases x.len() - i,
    {
        let (c, d) = (x[i], y[i]);
        if !(c == d || ('A' <= c && c <= 'Z' && d as u32 == c as u32 + 32) || ('A' <= d && d <= 'Z'
            && c as u32 == d as u32 + 32)) {
            return false;
        }
        i += 1;
    }
    true
}

/// The first position of a string equal to `x` in `v`.
pub fn position(v: &Vec<String>, x: &String) -> (r: Option<usize>)
    ensures
        match index_of(views(v@), x@) {
            Some(k) => r == Some(k as usize),
            None => r is None,
        },
{
    let ghost s = views(v@);
    let mut i: usize = 0;
    while i < v.len()
        invariant
            i <= v.len(),
            s == views(v@),
            forall|j: int| 0 <= j < i ==> #[trigger] s[j] != x@,
        decreases v.len() - i,
    {
        if v[i] == *x {
            proof {
                assert(first_index(s, x@, i as int));
                let c = choose|c: int| first_index(s, x@, c);
                if c < i {
                    assert(s[c] != x@);
                } else if c > i {
                    assert(s[i as int] != x@);
                }
            }
            return Some(i);
        }
        i += 1;
    }
    proof {
        if exists|c: int| first_index(s, x@, c) {
            let c = choose|c: int| first_index(s, x@, c);
            assert(s[c] != x@);
        }
    }
    None
}

/// Whether `p` occurs in `s` (`str::contains` with a string pattern).
pub fn contains_str(s: &str, p: &str) -> (r: bool)
    ensures
        r == contains_seq(s@, p@),
{
    let cs = chars_of(s);
    let ps = chars_of(p);
    let r = find_in(&cs, 0, cs.len(), &ps);
    assert(cs@.subrange(0, cs@.len() as int) =~= s@);
    r.is_some()
}

} // verus!
