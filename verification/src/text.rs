//! Character-level text primitives with exact specifications.
//!
//! Text is handled as `Vec<char>` plus half-open index ranges `(lo, hi)`;
//! every operation is specified over `Seq<char>` so that callers can state
//! what a parse or a rewrite does in terms of the input's characters.

use vstd::prelude::*;

verus! {

// ---------------------------------------------------------------------------
// Conversions between `str`/`String` and `Vec<char>`
// ---------------------------------------------------------------------------

/// Appends one character to a `String` (`String::push`).
#[verifier::external_body]
pub(crate) fn push_char(s: &mut String, c: char)
    ensures
        final(s)@ == old(s)@.push(c),
{
    s.push(c);
}

/// The characters of `s`, in order.
pub fn chars_of(s: &str) -> (r: Vec<char>)
    ensures
        r@ == s@,
{
    let mut v: Vec<char> = Vec::new();
    for c in it: s.chars()
        invariant
            v@ == it.seq().take(it.index() as int),
            it.seq() == s@,
    {
        v.push(c);
    }
    v
}

/// A `String` holding the characters `s[lo..hi]`.
pub fn string_of_range(s: &Vec<char>, lo: usize, hi: usize) -> (r: String)
    requires
        lo <= hi <= s@.len(),
    ensures
        r@ == s@.subrange(lo as int, hi as int),
{
    let mut out = String::new();
    let mut i: usize = lo;
    while i < hi
        invariant
            lo <= i <= hi <= s@.len(),
            out@ == s@.subrange(lo as int, i as int),
        decreases hi - i,
    {
        push_char(&mut out, s[i]);
        i += 1;
        assert(out@ =~= s@.subrange(lo as int, i as int));
    }
    out
}

/// A `String` holding all characters of `s`.
pub fn string_of(s: &Vec<char>) -> (r: String)
    ensures
        r@ == s@,
{
    let r = string_of_range(s, 0, s.len());
    assert(s@.subrange(0, s@.len() as int) =~= s@);
    r
}

/// Appends `s[lo..hi]` to `out`.
pub fn push_range(out: &mut String, s: &Vec<char>, lo: usize, hi: usize)
    requires
        lo <= hi <= s@.len(),
    ensures
        final(out)@ == old(out)@ + s@.subrange(lo as int, hi as int),
{
    let mut i: usize = lo;
    while i < hi
        invariant
            lo <= i <= hi <= s@.len(),
            out@ == old(out)@ + s@.subrange(lo as int, i as int),
        decreases hi - i,
    {
        push_char(out, s[i]);
        i += 1;
        assert(out@ =~= old(out)@ + s@.subrange(lo as int, i as int));
    }
}

/// Appends all characters of `t` to `out`.
pub fn push_str(out: &mut String, t: &str)
    ensures
        final(out)@ == old(out)@ + t@,
{
    let v = chars_of(t);
    push_range(out, &v, 0, v.len());
    assert(v@.subrange(0, v@.len() as int) =~= v@);
}

// ---------------------------------------------------------------------------
// Whitespace and trimming
// ---------------------------------------------------------------------------

/// Unicode `White_Space`, the set that `char::is_whitespace` tests.
pub open spec fn is_ws(c: char) -> bool {
    let u = c as u32;
    ||| u == 0x20
    ||| (0x09 <= u && u <= 0x0d)
    ||| u == 0x85
    ||| u == 0xa0
    ||| u == 0x1680
    ||| (0x2000 <= u && u <= 0x200a)
    ||| u == 0x2028
    ||| u == 0x2029
    ||| u == 0x202f
    ||| u == 0x205f
    ||| u == 0x3000
}

/// Whether `c` is whitespace in the sense of [`is_ws`].
pub fn is_whitespace(c: char) -> (r: bool)
    ensures
        r == is_ws(c),
{
    let u = c as u32;
    u == 0x20 || (0x09 <= u && u <= 0x0d) || u == 0x85 || u == 0xa0 || u == 0x1680 || (0x2000
        <= u && u <= 0x200a) || u == 0x2028 || u == 0x2029 || u == 0x202f || u == 0x205f || u
        == 0x3000
}

/// `s` without its leading whitespace.
pub open spec fn trim_start(s: Seq<char>) -> Seq<char>
    decreases s.len(),
{
    if s.len() > 0 && is_ws(s[0]) {
        trim_start(s.drop_first())
    } else {
        s
    }
}

/// `s` without its trailing whitespace.
pub open spec fn trim_end(s: Seq<char>) -> Seq<char>
    decreases s.len(),
{
    if s.len() > 0 && is_ws(s.last()) {
        trim_end(s.drop_last())
    } else {
        s
    }
}

/// `s` without leading and trailing whitespace (`str::trim`).
pub open spec fn trim(s: Seq<char>) -> Seq<char> {
    trim_end(trim_start(s))
}

/// Range of `s[lo..hi]` without leading whitespace.
pub fn trim_start_range(s: &Vec<char>, lo: usize, hi: usize) -> (r: usize)
    requires
        lo <= hi <= s@.len(),
    ensures
        lo <= r <= hi,
        s@.subrange(r as int, hi as int) == trim_start(s@.subrange(lo as int, hi as int)),
{
    let mut a = lo;
    while a < hi && is_whitespace(s[a])
        invariant
            lo <= a <= hi <= s@.len(),
            trim_start(s@.subrange(lo as int, hi as int)) == trim_start(
                s@.subrange(a as int, hi as int),
            ),
        decreases hi - a,
    {
        assert(s@.subrange(a as int, hi as int).drop_first() =~= s@.subrange(
            a as int + 1,
            hi as int,
        ));
        a += 1;
    }
    a
}

/// Range of `s[lo..hi]` without trailing whitespace.
pub fn trim_end_range(s: &Vec<char>, lo: usize, hi: usize) -> (r: usize)
    requires
        lo <= hi <= s@.len(),
    ensures
        lo <= r <= hi,
        s@.subrange(lo as int, r as int) == trim_end(s@.subrange(lo as int, hi as int)),
{
    let mut b = hi;
    while b > lo && is_whitespace(s[b - 1])
        invariant
            lo <= b <= hi <= s@.len(),
            trim_end(s@.subrange(lo as int, hi as int)) == trim_end(
                s@.subrange(lo as int, b as int),
            ),
        decreases b - lo,
    {
        assert(s@.subrange(lo as int, b as int).drop_last() =~= s@.subrange(
            lo as int,
            b as int - 1,
        ));
        b -= 1;
    }
    b
}

/// Range of `s[lo..hi]` trimmed at both ends.
pub fn trim_range(s: &Vec<char>, lo: usize, hi: usize) -> (r: (usize, usize))
    requires
        lo <= hi <= s@.len(),
    ensures
        lo <= r.0 <= r.1 <= hi,
        s@.subrange(r.0 as int, r.1 as int) == trim(s@.subrange(lo as int, hi as int)),
{
    let a = trim_start_range(s, lo, hi);
    let b = trim_end_range(s, a, hi);
    (a, b)
}

// ---------------------------------------------------------------------------
// Comparisons
// ---------------------------------------------------------------------------

/// Whether `s[lo..hi]` equals `t`.
pub fn range_eq(s: &Vec<char>, lo: usize, hi: usize, t: &Vec<char>) -> (r: bool)
    requires
        lo <= hi <= s@.len(),
    ensures
        r == (s@.subrange(lo as int, hi as int) == t@),
{
    if hi - lo != t.len() {
        return false;
    }
    let mut i: usize = 0;
    while i < t.len()
        invariant
            lo <= hi <= s@.len(),
            hi - lo == t@.len(),
            i <= t@.len(),
            forall|j: int| 0 <= j < i ==> s@[lo + j] == t@[j],
        decreases t@.len() - i,
    {
        if s[lo + i] != t[i] {
            assert(s@.subrange(lo as int, hi as int)[i as int] != t@[i as int]);
            return false;
        }
        i += 1;
    }
    assert(s@.subrange(lo as int, hi as int) =~= t@);
    true
}

/// Whether `a` and `b` hold the same characters.
pub fn chars_eq(a: &Vec<char>, b: &Vec<char>) -> (r: bool)
    ensures
        r == (a@ == b@),
{
    let r = range_eq(a, 0, a.len(), b);
    assert(a@.subrange(0, a@.len() as int) =~= a@);
    r
}

/// Whether `a` and `b` hold the same characters (`str == str`).
pub fn str_eq(a: &str, b: &str) -> (r: bool)
    ensures
        r == (a@ == b@),
{
    let va = chars_of(a);
    let vb = chars_of(b);
    chars_eq(&va, &vb)
}

/// Whether `s[lo..hi]` equals the characters of `t`.
pub fn range_eq_str(s: &Vec<char>, lo: usize, hi: usize, t: &str) -> (r: bool)
    requires
        lo <= hi <= s@.len(),
    ensures
        r == (s@.subrange(lo as int, hi as int) == t@),
{
    let vt = chars_of(t);
    range_eq(s, lo, hi, &vt)
}

/// `p` is a prefix of `s`.
pub open spec fn has_prefix(s: Seq<char>, p: Seq<char>) -> bool {
    p.len() <= s.len() && s.take(p.len() as int) == p
}

/// `p` is a suffix of `s`.
pub open spec fn has_suffix(s: Seq<char>, p: Seq<char>) -> bool {
    p.len() <= s.len() && s.skip(s.len() - p.len()) == p
}

/// Whether `s[lo..hi]` starts with `p`.
pub fn range_starts_with(s: &Vec<char>, lo: usize, hi: usize, p: &Vec<char>) -> (r: bool)
    requires
        lo <= hi <= s@.len(),
    ensures
        r == has_prefix(s@.subrange(lo as int, hi as int), p@),
{
    if p.len() > hi - lo {
        return false;
    }
    let r = range_eq(s, lo, lo + p.len(), p);
    assert(s@.subrange(lo as int, hi as int).take(p@.len() as int) =~= s@.subrange(
        lo as int,
        lo + p@.len(),
    ));
    r
}

/// Whether `s[lo..hi]` ends with `p`.
pub fn range_ends_with(s: &Vec<char>, lo: usize, hi: usize, p: &Vec<char>) -> (r: bool)
    requires
        lo <= hi <= s@.len(),
    ensures
        r == has_suffix(s@.subrange(lo as int, hi as int), p@),
{
    if p.len() > hi - lo {
        return false;
    }
    let r = range_eq(s, hi - p.len(), hi, p);
    assert(s@.subrange(lo as int, hi as int).skip((hi - lo) - p@.len()) =~= s@.subrange(
        hi - p@.len(),
        hi as int,
    ));
    r
}

/// ASCII lower-casing of one character (`char::to_ascii_lowercase`).
pub open spec fn lower_char(c: char) -> char {
    if 'A' <= c && c <= 'Z' {
        ((c as u32) + 32) as char
    } else {
        c
    }
}

/// ASCII lower-casing of a sequence (`str::to_ascii_lowercase`).
pub open spec fn lower(s: Seq<char>) -> Seq<char> {
    s.map_values(|c: char| lower_char(c))
}

/// ASCII lower-case of one character.
pub fn to_lower_char(c: char) -> (r: char)
    ensures
        r == lower_char(c),
{
    if 'A' <= c && c <= 'Z' {
        ((c as u8) + 32) as char
    } else {
        c
    }
}

/// ASCII lower-case copy of `s[lo..hi]`.
pub fn lower_range(s: &Vec<char>, lo: usize, hi: usize) -> (r: Vec<char>)
    requires
        lo <= hi <= s@.len(),
    ensures
        r@ == lower(s@.subrange(lo as int, hi as int)),
{
    let mut out: Vec<char> = Vec::new();
    let mut i = lo;
    while i < hi
        invariant
            lo <= i <= hi <= s@.len(),
            out@ == lower(s@.subrange(lo as int, i as int)),
        decreases hi - i,
    {
        out.push(to_lower_char(s[i]));
        i += 1;
        assert(out@ =~= lower(s@.subrange(lo as int, i as int)));
    }
    out
}

// ---------------------------------------------------------------------------
// Searching
// ---------------------------------------------------------------------------

/// Index of the first `c` in `s`.
pub open spec fn index_of(s: Seq<char>, c: char) -> Option<int>
    decreases s.len(),
{
    if s.len() == 0 {
        None
    } else if s[0] == c {
        Some(0)
    } else {
        match index_of(s.drop_first(), c) {
            Some(i) => Some(i + 1),
            None => None,
        }
    }
}

/// Index of the last `c` in `s`.
pub open spec fn rindex_of(s: Seq<char>, c: char) -> Option<int>
    decreases s.len(),
{
    if s.len() == 0 {
        None
    } else if s.last() == c {
        Some(s.len() - 1)
    } else {
        rindex_of(s.drop_last(), c)
    }
}

/// What [`index_of`] finds: the first occurrence, or none at all.
pub proof fn lemma_index_of(s: Seq<char>, c: char)
    ensures
        match index_of(s, c) {
            Some(i) => 0 <= i < s.len() && s[i] == c && forall|j: int| 0 <= j < i ==> s[j] != c,
            None => forall|j: int| 0 <= j < s.len() ==> s[j] != c,
        },
    decreases s.len(),
{
    if s.len() > 0 && s[0] != c {
        lemma_index_of(s.drop_first(), c);
        match index_of(s.drop_first(), c) {
            Some(i) => {
                assert forall|j: int| 0 <= j < i + 1 implies s[j] != c by {
                    if j > 0 {
                        assert(s[j] == s.drop_first()[j - 1]);
                    }
                }
            },
            None => {
                assert forall|j: int| 0 <= j < s.len() implies s[j] != c by {
                    if j > 0 {
                        assert(s[j] == s.drop_first()[j - 1]);
                    }
                }
            },
        }
    }
}

/// What [`rindex_of`] finds: the last occurrence, or none at all.
pub proof fn lemma_rindex_of(s: Seq<char>, c: char)
    ensures
        match rindex_of(s, c) {
            Some(i) => 0 <= i < s.len() && s[i] == c && forall|j: int| i < j < s.len() ==> s[j]
                != c,
            None => forall|j: int| 0 <= j < s.len() ==> s[j] != c,
        },
    decreases s.len(),
{
    if s.len() > 0 && s.last() != c {
        lemma_rindex_of(s.drop_last(), c);
        match rindex_of(s.drop_last(), c) {
            Some(i) => {
                assert forall|j: int| i < j < s.len() implies s[j] != c by {
                    if j < s.len() - 1 {
                        assert(s[j] == s.drop_last()[j]);
                    }
                }
            },
            None => {
                assert forall|j: int| 0 <= j < s.len() implies s[j] != c by {
                    if j < s.len() - 1 {
                        assert(s[j] == s.drop_last()[j]);
                    }
                }
            },
        }
    }
}

/// Position of the first `c` in `s[lo..hi]` (absolute index).
pub fn find_char(s: &Vec<char>, lo: usize, hi: usize, c: char) -> (r: Option<usize>)
    requires
        lo <= hi <= s@.len(),
    ensures
        r matches Some(p) ==> lo <= p < hi && s@[p as int] == c,
        match index_of(s@.subrange(lo as int, hi as int), c) {
            Some(i) => r == Some((lo + i) as usize),
            None => r is None,
        },
{
    proof {
        lemma_index_of(s@.subrange(lo as int, hi as int), c);
    }
    let mut i = lo;
    while i < hi
        invariant
            lo <= i <= hi <= s@.len(),
            forall|j: int| lo <= j < i ==> s@[j] != c,
        decreases hi - i,
    {
        if s[i] == c {
            let ghost sub = s@.subrange(lo as int, hi as int);
            assert(sub[i - lo] == c);
            assert forall|j: int| 0 <= j < i - lo implies sub[j] != c by {
                assert(sub[j] == s@[lo + j]);
            }
            proof {
                lemma_index_of(sub, c);
                match index_of(sub, c) {
                    Some(k) => {
                        if k < i - lo {
                            assert(sub[k] != c);
                        }
                        if k > i - lo {
                            assert(sub[i - lo] != c);
                        }
                    },
                    None => {
                        assert(sub[i - lo] != c);
                    },
                }
            }
            return Some(i);
        }
        i += 1;
    }
    let ghost sub = s@.subrange(lo as int, hi as int);
    assert forall|j: int| 0 <= j < sub.len() implies sub[j] != c by {
        assert(sub[j] == s@[lo + j]);
    }
    None
}

/// Position of the last `c` in `s[lo..hi]` (absolute index).
pub fn rfind_char(s: &Vec<char>, lo: usize, hi: usize, c: char) -> (r: Option<usize>)
    requires
        lo <= hi <= s@.len(),
    ensures
        r matches Some(p) ==> lo <= p < hi && s@[p as int] == c,
        match rindex_of(s@.subrange(lo as int, hi as int), c) {
            Some(i) => r == Some((lo + i) as usize),
            None => r is None,
        },
{
    proof {
        lemma_rindex_of(s@.subrange(lo as int, hi as int), c);
    }
    let mut i = hi;
    while i > lo
        invariant
            lo <= i <= hi <= s@.len(),
            forall|j: int| i <= j < hi ==> s@[j] != c,
        decreases i - lo,
    {
        if s[i - 1] == c {
            let ghost sub = s@.subrange(lo as int, hi as int);
            assert(sub[i - 1 - lo] == c);
            assert forall|j: int| i - 1 - lo < j < sub.len() implies sub[j] != c by {
                assert(sub[j] == s@[lo + j]);
            }
            proof {
                lemma_rindex_of(sub, c);
                match rindex_of(sub, c) {
                    Some(k) => {
                        if k < i - 1 - lo {
                            assert(sub[i - 1 - lo] != c);
                        }
                        if k > i - 1 - lo {
                            assert(sub[k] != c);
                        }
                    },
                    None => {
                        assert(sub[i - 1 - lo] != c);
                    },
                }
            }
            return Some(i - 1);
        }
        i -= 1;
    }
    let ghost sub = s@.subrange(lo as int, hi as int);
    assert forall|j: int| 0 <= j < sub.len() implies sub[j] != c by {
        assert(sub[j] == s@[lo + j]);
    }
    None
}

/// Whether `c` occurs in `s[lo..hi]`.
pub fn range_contains_char(s: &Vec<char>, lo: usize, hi: usize, c: char) -> (r: bool)
    requires
        lo <= hi <= s@.len(),
    ensures
        r == s@.subrange(lo as int, hi as int).contains(c),
{
    let f = find_char(s, lo, hi, c);
    proof {
        let sub = s@.subrange(lo as int, hi as int);
        lemma_index_of(sub, c);
        if f is None {
            assert(!sub.contains(c));
        } else {
            assert(sub[f->0 - lo] == c);
        }
    }
    f.is_some()
}

/// `t` occurs as a contiguous part of `s` (`str::contains` with a string).
pub open spec fn contains_seq(s: Seq<char>, t: Seq<char>) -> bool {
    exists|i: int| 0 <= i && i + t.len() <= s.len() && #[trigger] s.subrange(i, i + t.len()) == t
}

/// Whether `t` occurs in `s[lo..hi]`.
pub fn range_contains_seq(s: &Vec<char>, lo: usize, hi: usize, t: &Vec<char>) -> (r: bool)
    requires
        lo <= hi <= s@.len(),
    ensures
        r == contains_seq(s@.subrange(lo as int, hi as int), t@),
{
    let ghost sub = s@.subrange(lo as int, hi as int);
    if t.len() == 0 {
        assert(sub.subrange(0int, 0int + t@.len()) =~= t@);
        return true;
    }
    let mut i = lo;
    while i < hi && t.len() <= hi - i
        invariant
            lo <= i <= hi <= s@.len(),
            sub == s@.subrange(lo as int, hi as int),
            forall|k: int| 0 <= k < i - lo ==> #[trigger] sub.subrange(k, k + t@.len()) != t@,
        decreases hi - i,
    {
        if range_eq(s, i, i + t.len(), t) {
            assert(sub.subrange(i - lo, i - lo + t@.len()) =~= s@.subrange(
                i as int,
                i + t@.len(),
            ));
            return true;
        }
        assert(sub.subrange(i - lo, i - lo + t@.len()) =~= s@.subrange(i as int, i + t@.len()));
        i += 1;
    }
    assert forall|k: int| 0 <= k && k + t@.len() <= sub.len() implies #[trigger] sub.subrange(
        k,
        k + t@.len(),
    ) != t@ by {
        assert(k < i - lo);
    }
    false
}


// ---------------------------------------------------------------------------
// Splitting
// ---------------------------------------------------------------------------

/// Every range lies inside `lo..hi` and is well ordered.
pub open spec fn ranges_within(r: Seq<(usize, usize)>, lo: int, hi: int) -> bool {
    forall|i: int| 0 <= i < r.len() ==> lo <= (#[trigger] r[i]).0 <= r[i].1 <= hi
}

/// The pieces of `s` that the ranges `r` select.
pub open spec fn pieces_of(s: Seq<char>, r: Seq<(usize, usize)>) -> Seq<Seq<char>> {
    r.map_values(|p: (usize, usize)| s.subrange(p.0 as int, p.1 as int))
}

/// The pieces of `s` separated by `c` (`str::split` with a char).
pub open spec fn split_char(s: Seq<char>, c: char) -> Seq<Seq<char>>
    decreases s.len(),
{
    if s.len() == 0 {
        seq![Seq::<char>::empty()]
    } else {
        let init = split_char(s.drop_last(), c);
        if s.last() == c {
            init.push(Seq::<char>::empty())
        } else {
            init.update(init.len() - 1, init.last().push(s.last()))
        }
    }
}

/// Splitting always yields at least one piece.
pub proof fn lemma_split_char_nonempty(s: Seq<char>, c: char)
    ensures
        split_char(s, c).len() >= 1,
    decreases s.len(),
{
    if s.len() > 0 {
        lemma_split_char_nonempty(s.drop_last(), c);
    }
}

/// Text that ends with the separator (or is empty) splits apart from what
/// follows it: its last, empty piece gives way to the pieces of the rest.
pub proof fn lemma_split_char_append(s: Seq<char>, u: Seq<char>, c: char)
    requires
        s.len() == 0 || s.last() == c,
    ensures
        split_char(s + u, c) == split_char(s, c).drop_last() + split_char(u, c),
    decreases u.len(),
{
    lemma_split_char_nonempty(s, c);
    if u.len() == 0 {
        assert(s + u =~= s);
        if s.len() > 0 {
            lemma_split_char_nonempty(s.drop_last(), c);
        }
        assert(split_char(s, c).last() == Seq::<char>::empty());
        assert(split_char(s, c).drop_last() + split_char(u, c) =~= split_char(s, c));
    } else {
        lemma_split_char_append(s, u.drop_last(), c);
        lemma_split_char_nonempty(u.drop_last(), c);
        assert((s + u).drop_last() =~= s + u.drop_last());
        assert((s + u).last() == u.last());
        let a = split_char(s, c).drop_last();
        let b = split_char(u.drop_last(), c);
        if u.last() == c {
            assert((a + b).push(Seq::<char>::empty()) =~= a + b.push(Seq::<char>::empty()));
        } else {
            assert((a + b).update((a + b).len() - 1, (a + b).last().push(u.last())) =~= a
                + b.update(b.len() - 1, b.last().push(u.last())));
        }
    }
}

/// Text without the separator is a single piece.
pub proof fn lemma_split_char_single(u: Seq<char>, c: char)
    requires
        !u.contains(c),
    ensures
        split_char(u, c) == seq![u],
    decreases u.len(),
{
    if u.len() == 0 {
        assert(u =~= Seq::<char>::empty());
    } else {
        assert(!u.drop_last().contains(c)) by {
            if u.drop_last().contains(c) {
                let k = choose|k: int| 0 <= k < u.drop_last().len() && u.drop_last()[k] == c;
                assert(u[k] == c);
            }
        }
        lemma_split_char_single(u.drop_last(), c);
        assert(u[u.len() - 1] != c);
        assert(u.last() != c);
        assert(split_char(u.drop_last(), c).last() == u.drop_last());
        assert(split_char(u.drop_last(), c).len() == 1);
        assert(u.drop_last().push(u.last()) =~= u);
        assert(seq![u.drop_last()].update(0, u.drop_last().push(u.last())) =~= seq![u]);
    }
}

/// Pieces joined by the separator split back into the same pieces, when no
/// piece holds the separator.
pub proof fn lemma_split_char_join(pieces: Seq<Seq<char>>, c: char)
    requires
        pieces.len() >= 1,
        forall|i: int| 0 <= i < pieces.len() ==> !(#[trigger] pieces[i]).contains(c),
    ensures
        split_char(join(pieces, seq![c]), c) == pieces,
    decreases pieces.len(),
{
    if pieces.len() == 1 {
        lemma_split_char_single(pieces[0], c);
        assert(seq![pieces[0]] =~= pieces);
    } else {
        let init = pieces.drop_last();
        assert forall|i: int| 0 <= i < init.len() implies !(#[trigger] init[i]).contains(c) by {
            assert(init[i] == pieces[i]);
        }
        lemma_split_char_join(init, c);
        let a = join(init, seq![c]) + seq![c];
        assert(a.last() == c);
        lemma_split_char_append(a, pieces.last(), c);
        assert(pieces[pieces.len() - 1] == pieces.last());
        lemma_split_char_single(pieces.last(), c);
        assert(a.drop_last() =~= join(init, seq![c]));
        assert(join(pieces, seq![c]) =~= a + pieces.last());
        assert(split_char(a, c) == split_char(join(init, seq![c]), c).push(Seq::<char>::empty()));
        assert(split_char(a, c).drop_last() =~= init);
        assert(init + seq![pieces.last()] =~= pieces);
    }
}

/// Every character of a piece is a character of the text other than the
/// separator.
pub proof fn lemma_split_char_chars(s: Seq<char>, c: char)
    ensures
        forall|i: int, k: int|
            0 <= i < split_char(s, c).len() && 0 <= k < split_char(s, c)[i].len() ==> {
                let x = #[trigger] split_char(s, c)[i][k];
                x != c && s.contains(x)
            },
    decreases s.len(),
{
    if s.len() > 0 {
        let init = split_char(s.drop_last(), c);
        lemma_split_char_chars(s.drop_last(), c);
        lemma_split_char_nonempty(s.drop_last(), c);
        assert forall|i: int, k: int|
            0 <= i < split_char(s, c).len() && 0 <= k < split_char(s, c)[i].len() implies {
            let x = #[trigger] split_char(s, c)[i][k];
            x != c && s.contains(x)
        } by {
            let x = split_char(s, c)[i][k];
            if s.last() == c {
                if i < init.len() {
                    assert(x == init[i][k]);
                    let j = choose|j: int| 0 <= j < s.drop_last().len() && s.drop_last()[j] == x;
                    assert(s[j] == x);
                }
            } else if i < init.len() - 1 {
                assert(x == init[i][k]);
                let j = choose|j: int| 0 <= j < s.drop_last().len() && s.drop_last()[j] == x;
                assert(s[j] == x);
            } else if k < init.last().len() {
                assert(x == init[i][k]);
                let j = choose|j: int| 0 <= j < s.drop_last().len() && s.drop_last()[j] == x;
                assert(s[j] == x);
            } else {
                assert(x == s.last());
                assert(s[s.len() - 1] == x);
            }
        }
    }
}

/// No line of a text holds a newline.
pub proof fn lemma_lines_no_newline(s: Seq<char>)
    ensures
        forall|i: int| 0 <= i < lines(s).len() ==> !(#[trigger] lines(s)[i]).contains('\n'),
{
    lemma_split_char_chars(s, '\n');
    let parts = split_char(s, '\n');
    assert forall|i: int| 0 <= i < lines(s).len() implies !(#[trigger] lines(s)[i]).contains(
        '\n',
    ) by {
        let l = lines(s)[i];
        lemma_split_char_nonempty(s, '\n');
        let n = parts.len();
        if s.len() > 0 {
            if i < n - 1 {
                assert(l == strip_cr(parts.take(n - 1)[i]));
                assert(l == strip_cr(parts[i]));
            } else {
                assert(l == parts[n - 1]);
            }
        }
        assert(l == strip_cr(parts[i]) || l == parts[i]);
        if l.contains('\n') {
            let k = choose|k: int| 0 <= k < l.len() && l[k] == '\n';
            assert(l[k] == parts[i][k]);
        }
    }
}

/// A joined text holds only characters of the pieces and the separator.
pub proof fn lemma_join_lacks(pieces: Seq<Seq<char>>, sep: Seq<char>, x: char)
    requires
        !sep.contains(x),
        forall|i: int| 0 <= i < pieces.len() ==> !(#[trigger] pieces[i]).contains(x),
    ensures
        !join(pieces, sep).contains(x),
    decreases pieces.len(),
{
    if pieces.len() > 1 {
        let init = pieces.drop_last();
        assert forall|i: int| 0 <= i < init.len() implies !(#[trigger] init[i]).contains(x) by {
            assert(init[i] == pieces[i]);
        }
        lemma_join_lacks(init, sep, x);
        let j = join(pieces, sep);
        let a = join(init, sep);
        let l = pieces[pieces.len() - 1];
        assert(j =~= a + sep + l);
        if j.contains(x) {
            let k = choose|k: int| 0 <= k < j.len() && j[k] == x;
            if k < a.len() {
                assert(a[k] == x);
            } else if k < a.len() + sep.len() {
                assert(sep[k - a.len()] == x);
            } else {
                assert(l[k - a.len() - sep.len()] == x);
            }
        }
    } else if pieces.len() == 1 {
        assert(pieces[0] == join(pieces, sep));
    }
}

/// A join ends as its last piece does.
pub proof fn lemma_join_last(pieces: Seq<Seq<char>>, sep: Seq<char>)
    requires
        pieces.len() > 0,
        pieces.last().len() > 0,
    ensures
        join(pieces, sep).len() > 0,
        join(pieces, sep).last() == pieces.last().last(),
{
}

/// A line fit to be written as one line of text: no newline in it, and no
/// carriage return at its end.
pub open spec fn fits_one_line(l: Seq<char>) -> bool {
    !l.contains('\n') && !(l.len() > 0 && l.last() == '\r')
}

/// Writing one more line after whole lines adds exactly that line.
pub proof fn lemma_lines_append(r: Seq<char>, t: Seq<char>)
    requires
        r.len() == 0 || r.last() == '\n',
        fits_one_line(t),
    ensures
        lines(r + t + seq!['\n']) == lines(r).push(t),
{
    let x = r + t + seq!['\n'];
    let tn = t + seq!['\n'];
    assert(x =~= r + tn);
    lemma_split_char_append(r, tn, '\n');
    lemma_split_char_single(t, '\n');
    assert(tn.drop_last() =~= t);
    assert(split_char(tn, '\n') =~= seq![t, Seq::<char>::empty()]);
    lemma_split_char_nonempty(r, '\n');
    let p = split_char(r, '\n').drop_last();
    let parts = split_char(x, '\n');
    assert(parts =~= p + seq![t, Seq::<char>::empty()]);
    assert(x.last() == '\n');
    assert(parts.take(parts.len() - 1) =~= p.push(t));
    assert(strip_cr(t) == t);
    assert(p.push(t).map_values(|q: Seq<char>| strip_cr(q)) =~= p.map_values(
        |q: Seq<char>| strip_cr(q),
    ).push(t));
    if r.len() == 0 {
        assert(p =~= Seq::<Seq<char>>::empty());
        assert(lines(r) =~= Seq::<Seq<char>>::empty());
    } else {
        assert(split_char(r, '\n').take(split_char(r, '\n').len() - 1) =~= p);
    }
}

/// Writing a line after whole lines adds it, read back without one
/// carriage return at its end.
pub proof fn lemma_lines_append_any(r: Seq<char>, t: Seq<char>)
    requires
        r.len() == 0 || r.last() == '\n',
        !t.contains('\n'),
    ensures
        lines(r + t + seq!['\n']) == lines(r).push(strip_cr(t)),
{
    let x = r + t + seq!['\n'];
    let tn = t + seq!['\n'];
    assert(x =~= r + tn);
    lemma_split_char_append(r, tn, '\n');
    lemma_split_char_single(t, '\n');
    assert(tn.drop_last() =~= t);
    assert(split_char(tn, '\n') =~= seq![t, Seq::<char>::empty()]);
    lemma_split_char_nonempty(r, '\n');
    let p = split_char(r, '\n').drop_last();
    let parts = split_char(x, '\n');
    assert(parts =~= p + seq![t, Seq::<char>::empty()]);
    assert(x.last() == '\n');
    assert(parts.take(parts.len() - 1) =~= p.push(t));
    assert(p.push(t).map_values(|q: Seq<char>| strip_cr(q)) =~= p.map_values(
        |q: Seq<char>| strip_cr(q),
    ).push(strip_cr(t)));
    if r.len() == 0 {
        assert(p =~= Seq::<Seq<char>>::empty());
        assert(lines(r) =~= Seq::<Seq<char>>::empty());
    } else {
        assert(split_char(r, '\n').take(split_char(r, '\n').len() - 1) =~= p);
    }
}

/// The first piece of a split starts the text: it begins with the text's
/// first character, or is empty when the text begins with the separator.
pub proof fn lemma_split_first(s: Seq<char>, c: char)
    ensures
        s.len() > 0 ==> {
            let f = split_char(s, c)[0];
            (f.len() > 0 && f[0] == s[0]) || (f.len() == 0 && s[0] == c)
        },
    decreases s.len(),
{
    if s.len() > 0 {
        let d = s.drop_last();
        let init = split_char(d, c);
        lemma_split_first(d, c);
        lemma_split_char_nonempty(d, c);
        if d.len() > 0 {
            assert(d[0] == s[0]);
        }
        if d.len() > 0 && d.last() != c {
            lemma_split_char_nonempty(d.drop_last(), c);
            assert(init.last().len() > 0);
        }
        if d.len() > 0 && d.last() == c {
            lemma_split_char_nonempty(d.drop_last(), c);
            assert(init.len() >= 2);
        }
    }
}

/// Appending one range to a range list appends its piece.
pub proof fn lemma_pieces_push(s: Seq<char>, r: Seq<(usize, usize)>, p: (usize, usize))
    ensures
        pieces_of(s, r.push(p)) == pieces_of(s, r).push(s.subrange(p.0 as int, p.1 as int)),
{
    assert(pieces_of(s, r.push(p)) =~= pieces_of(s, r).push(s.subrange(p.0 as int, p.1 as int)));
}

/// Ranges of the pieces of `s[lo..hi]` separated by `c`.
pub fn split_ranges(s: &Vec<char>, lo: usize, hi: usize, c: char) -> (r: Vec<(usize, usize)>)
    requires
        lo <= hi <= s@.len(),
    ensures
        ranges_within(r@, lo as int, hi as int),
        pieces_of(s@, r@) == split_char(s@.subrange(lo as int, hi as int), c),
{
    let mut done: Vec<(usize, usize)> = Vec::new();
    let mut cur = lo;
    let mut i = lo;
    assert(s@.subrange(lo as int, lo as int) =~= Seq::<char>::empty());
    assert(pieces_of(s@, done@).push(s@.subrange(cur as int, i as int)) =~= split_char(
        s@.subrange(lo as int, i as int),
        c,
    ));
    while i < hi
        invariant
            lo <= cur <= i <= hi <= s@.len(),
            ranges_within(done@, lo as int, i as int),
            split_char(s@.subrange(lo as int, i as int), c) == pieces_of(s@, done@).push(
                s@.subrange(cur as int, i as int),
            ),
        decreases hi - i,
    {
        let ghost prev = s@.subrange(lo as int, i as int);
        assert(s@.subrange(lo as int, i + 1).drop_last() =~= prev);
        assert(s@.subrange(lo as int, i + 1).last() == s@[i as int]);
        if s[i] == c {
            proof {
                lemma_pieces_push(s@, done@, (cur, i));
            }
            done.push((cur, i));
            cur = i + 1;
            assert(s@.subrange(cur as int, i + 1) =~= Seq::<char>::empty());
        } else {
            assert(s@.subrange(cur as int, i as int).push(s@[i as int]) =~= s@.subrange(
                cur as int,
                i + 1,
            ));
        }
        i += 1;
        assert(split_char(s@.subrange(lo as int, i as int), c) =~= pieces_of(s@, done@).push(
            s@.subrange(cur as int, i as int),
        ));
    }
    proof {
        lemma_pieces_push(s@, done@, (cur, hi));
    }
    done.push((cur, hi));
    done
}

/// `p` without one trailing carriage return.
pub open spec fn strip_cr(p: Seq<char>) -> Seq<char> {
    if p.len() > 0 && p.last() == '\r' {
        p.drop_last()
    } else {
        p
    }
}

/// The lines of `s` (`str::lines`): pieces between `'\n'`, each stripped of
/// one `'\r'` before its `'\n'`, with no final empty line.
pub open spec fn lines(s: Seq<char>) -> Seq<Seq<char>> {
    let parts = split_char(s, '\n');
    if s.len() == 0 {
        Seq::empty()
    } else if s.last() == '\n' {
        parts.take(parts.len() - 1).map_values(|p: Seq<char>| strip_cr(p))
    } else {
        parts.take(parts.len() - 1).map_values(|p: Seq<char>| strip_cr(p)).push(parts.last())
    }
}

/// Ranges of the lines of `s`.
pub fn line_ranges(s: &Vec<char>) -> (r: Vec<(usize, usize)>)
    ensures
        ranges_within(r@, 0, s@.len() as int),
        pieces_of(s@, r@) == lines(s@),
{
    let parts = split_ranges(s, 0, s.len(), '\n');
    let ghost whole = s@.subrange(0, s@.len() as int);
    assert(whole =~= s@);
    proof {
        lemma_split_char_nonempty(s@, '\n');
    }
    let mut out: Vec<(usize, usize)> = Vec::new();
    if s.len() == 0 {
        assert(pieces_of(s@, out@) =~= lines(s@));
        return out;
    }
    let n = parts.len();
    let mut k: usize = 0;
    while k + 1 < n
        invariant
            n == parts@.len(),
            n >= 1,
            k + 1 <= n,
            ranges_within(parts@, 0, s@.len() as int),
            pieces_of(s@, parts@) == split_char(s@, '\n'),
            ranges_within(out@, 0, s@.len() as int),
            out@.len() == k,
            forall|j: int|
                0 <= j < k ==> s@.subrange((#[trigger] out@[j]).0 as int, out@[j].1 as int)
                    == strip_cr(split_char(s@, '\n')[j]),
        decreases n - k,
    {
        let (a, b) = parts[k];
        assert(s@.subrange(a as int, b as int) == split_char(s@, '\n')[k as int]);
        if b > a && s[b - 1] == '\r' {
            assert(s@.subrange(a as int, b - 1) =~= s@.subrange(a as int, b as int).drop_last());
            out.push((a, b - 1));
        } else {
            out.push((a, b));
        }
        k += 1;
    }
    let ghost parts_spec = split_char(s@, '\n');
    if s[s.len() - 1] != '\n' {
        let last = parts[n - 1];
        out.push(last);
        assert(pieces_of(s@, out@) =~= parts_spec.take(parts_spec.len() - 1).map_values(
            |p: Seq<char>| strip_cr(p),
        ).push(parts_spec.last()));
    } else {
        assert(pieces_of(s@, out@) =~= parts_spec.take(parts_spec.len() - 1).map_values(
            |p: Seq<char>| strip_cr(p),
        ));
    }
    out
}

/// The maximal runs of non-whitespace in `s` (`str::split_whitespace`).
pub open spec fn words(s: Seq<char>) -> Seq<Seq<char>>
    decreases s.len(),
{
    if s.len() == 0 {
        Seq::empty()
    } else {
        let w = words(s.drop_last());
        if is_ws(s.last()) {
            w
        } else if s.len() >= 2 && !is_ws(s[s.len() - 2]) {
            w.update(w.len() - 1, w.last().push(s.last()))
        } else {
            w.push(seq![s.last()])
        }
    }
}

/// Ranges of the whitespace-separated words of `s[lo..hi]`.
pub fn word_ranges(s: &Vec<char>, lo: usize, hi: usize) -> (r: Vec<(usize, usize)>)
    requires
        lo <= hi <= s@.len(),
    ensures
        ranges_within(r@, lo as int, hi as int),
        pieces_of(s@, r@) == words(s@.subrange(lo as int, hi as int)),
{
    let mut done: Vec<(usize, usize)> = Vec::new();
    let mut cur = lo;
    let mut in_word = false;
    let mut i = lo;
    assert(pieces_of(s@, done@) =~= words(s@.subrange(lo as int, i as int)));
    while i < hi
        invariant
            lo <= cur <= i <= hi <= s@.len(),
            ranges_within(done@, lo as int, i as int),
            in_word == (i > lo && !is_ws(s@[i - 1])),
            in_word ==> cur < i,
            words(s@.subrange(lo as int, i as int)) == (if in_word {
                pieces_of(s@, done@).push(s@.subrange(cur as int, i as int))
            } else {
                pieces_of(s@, done@)
            }),
        decreases hi - i,
    {
        let ghost prev = s@.subrange(lo as int, i as int);
        let ghost next = s@.subrange(lo as int, i + 1);
        assert(next.drop_last() =~= prev);
        assert(next.last() == s@[i as int]);
        proof {
            if next.len() >= 2 {
                assert(next[next.len() - 2] == s@[i - 1]);
            }
        }
        let ws = is_whitespace(s[i]);
        if ws {
            if in_word {
                proof {
                    lemma_pieces_push(s@, done@, (cur, i));
                }
                done.push((cur, i));
            }
            in_word = false;
        } else if in_word {
            assert(s@.subrange(cur as int, i as int).push(s@[i as int]) =~= s@.subrange(
                cur as int,
                i + 1,
            ));
        } else {
            cur = i;
            in_word = true;
            assert(s@.subrange(cur as int, i + 1) =~= seq![s@[i as int]]);
        }
        i += 1;
        assert(words(s@.subrange(lo as int, i as int)) =~= (if in_word {
            pieces_of(s@, done@).push(s@.subrange(cur as int, i as int))
        } else {
            pieces_of(s@, done@)
        }));
    }
    if in_word {
        proof {
            lemma_pieces_push(s@, done@, (cur, hi));
        }
        done.push((cur, hi));
    }
    done
}

/// At most `n` pieces of `s` separated by `c`, the last holding the rest
/// (`str::splitn` with a char).
pub open spec fn splitn(s: Seq<char>, n: nat, c: char) -> Seq<Seq<char>>
    decreases n,
{
    if n == 0 {
        Seq::empty()
    } else if n == 1 {
        seq![s]
    } else {
        match index_of(s, c) {
            Some(i) => seq![s.take(i)] + splitn(s.skip(i + 1), (n - 1) as nat, c),
            None => seq![s],
        }
    }
}

/// Ranges of at most `n` pieces of `s[lo..hi]` separated by `c`.
pub fn splitn_ranges(s: &Vec<char>, lo: usize, hi: usize, n: usize, c: char) -> (r: Vec<
    (usize, usize),
>)
    requires
        lo <= hi <= s@.len(),
    ensures
        ranges_within(r@, lo as int, hi as int),
        pieces_of(s@, r@) == splitn(s@.subrange(lo as int, hi as int), n as nat, c),
{
    let mut done: Vec<(usize, usize)> = Vec::new();
    if n == 0 {
        assert(pieces_of(s@, done@) =~= Seq::<Seq<char>>::empty());
        return done;
    }
    let mut cur = lo;
    assert(pieces_of(s@, done@) + splitn(s@.subrange(cur as int, hi as int), n as nat, c)
        =~= splitn(s@.subrange(lo as int, hi as int), n as nat, c));
    loop
        invariant
            lo <= cur <= hi <= s@.len(),
            done@.len() < n,
            ranges_within(done@, lo as int, hi as int),
            pieces_of(s@, done@) + splitn(
                s@.subrange(cur as int, hi as int),
                (n - done@.len()) as nat,
                c,
            ) == splitn(s@.subrange(lo as int, hi as int), n as nat, c),
        decreases n - done@.len(),
    {
        let ghost rest = s@.subrange(cur as int, hi as int);
        let ghost m = (n - done@.len()) as nat;
        if n - done.len() == 1 {
            proof {
                lemma_pieces_push(s@, done@, (cur, hi));
            }
            done.push((cur, hi));
            assert(pieces_of(s@, done@) =~= splitn(s@.subrange(lo as int, hi as int), n as nat, c));
            return done;
        }
        match find_char(s, cur, hi, c) {
            Some(j) => {
                proof {
                    lemma_pieces_push(s@, done@, (cur, j));
                    lemma_index_of(rest, c);
                }
                assert(rest.take(j - cur) =~= s@.subrange(cur as int, j as int));
                assert(rest.skip(j - cur + 1) =~= s@.subrange(j + 1, hi as int));
                done.push((cur, j));
                cur = j + 1;
                assert(pieces_of(s@, done@) + splitn(
                    s@.subrange(cur as int, hi as int),
                    (n - done@.len()) as nat,
                    c,
                ) =~= splitn(s@.subrange(lo as int, hi as int), n as nat, c));
            },
            None => {
                proof {
                    lemma_pieces_push(s@, done@, (cur, hi));
                }
                done.push((cur, hi));
                assert(pieces_of(s@, done@) =~= splitn(
                    s@.subrange(lo as int, hi as int),
                    n as nat,
                    c,
                ));
                return done;
            },
        }
    }
}

/// `s` joined with `sep` between consecutive pieces (`[T]::join`).
pub open spec fn join(pieces: Seq<Seq<char>>, sep: Seq<char>) -> Seq<char>
    decreases pieces.len(),
{
    if pieces.len() == 0 {
        Seq::empty()
    } else if pieces.len() == 1 {
        pieces[0]
    } else {
        join(pieces.drop_last(), sep) + sep + pieces.last()
    }
}

/// Joining one more piece adds the separator and that piece.
pub proof fn lemma_join_take(pieces: Seq<Seq<char>>, sep: Seq<char>, k: int)
    requires
        0 <= k < pieces.len(),
    ensures
        join(pieces.take(k + 1), sep) == if k == 0 {
            pieces[0]
        } else {
            join(pieces.take(k), sep) + sep + pieces[k]
        },
{
    assert(pieces.take(k + 1).drop_last() =~= pieces.take(k));
    assert(pieces.take(k + 1).last() == pieces[k]);
}

/// Appends the strings of `v` with `sep` between consecutive ones.
pub fn push_joined(out: &mut String, v: &[String], sep: char)
    ensures
        final(out)@ == old(out)@ + join(v@.map_values(|x: String| x@), seq![sep]),
{
    let ghost views = v@.map_values(|x: String| x@);
    let mut k: usize = 0;
    assert(views.take(0) =~= Seq::<Seq<char>>::empty());
    assert(out@ =~= old(out)@ + join(views.take(0), seq![sep]));
    while k < v.len()
        invariant
            k <= v@.len(),
            views == v@.map_values(|x: String| x@),
            out@ == old(out)@ + join(views.take(k as int), seq![sep]),
        decreases v@.len() - k,
    {
        proof {
            lemma_join_take(views, seq![sep], k as int);
        }
        if k > 0 {
            push_char(out, sep);
        }
        push_str(out, v[k].as_str());
        k += 1;
        assert(out@ =~= old(out)@ + join(views.take(k as int), seq![sep]));
    }
    assert(views.take(k as int) =~= views);
}

/// `s` with the prefix `p` removed, if `s` starts with `p` (`str::strip_prefix`).
pub open spec fn strip_prefix(s: Seq<char>, p: Seq<char>) -> Option<Seq<char>> {
    if has_prefix(s, p) {
        Some(s.skip(p.len() as int))
    } else {
        None
    }
}

/// `s` with the suffix `p` removed, if `s` ends with `p` (`str::strip_suffix`).
pub open spec fn strip_suffix(s: Seq<char>, p: Seq<char>) -> Option<Seq<char>> {
    if has_suffix(s, p) {
        Some(s.take(s.len() - p.len()))
    } else {
        None
    }
}

// ---------------------------------------------------------------------------
// Decimal integers
// ---------------------------------------------------------------------------

/// An ASCII decimal digit.
pub open spec fn is_digit(c: char) -> bool {
    '0' <= c && c <= '9'
}

/// The value of a digit character.
pub open spec fn digit_val(c: char) -> nat {
    ((c as u32) - 48) as nat
}

/// Every character is a decimal digit.
pub open spec fn all_digits(s: Seq<char>) -> bool {
    forall|i: int| 0 <= i < s.len() ==> is_digit(#[trigger] s[i])
}

/// The value of a string of decimal digits.
pub open spec fn digits_value(s: Seq<char>) -> nat
    decreases s.len(),
{
    if s.len() == 0 {
        0
    } else {
        digits_value(s.drop_last()) * 10 + digit_val(s.last())
    }
}

/// The value that `str::parse` gives for an unsigned integer type whose
/// largest value is `max`: an optional `'+'`, then one or more digits.
pub open spec fn parse_unsigned(s: Seq<char>, max: int) -> Option<int> {
    let d = if s.len() > 0 && s[0] == '+' {
        s.drop_first()
    } else {
        s
    };
    if d.len() == 0 || !all_digits(d) || digits_value(d) > max {
        None
    } else {
        Some(digits_value(d) as int)
    }
}

/// The value that `str::parse` gives for a signed integer type with range
/// `min..=max`: an optional sign, then one or more digits.
pub open spec fn parse_signed(s: Seq<char>, min: int, max: int) -> Option<int> {
    if s.len() > 0 && s[0] == '-' {
        let d = s.drop_first();
        if d.len() == 0 || !all_digits(d) || 0 - digits_value(d) < min {
            None
        } else {
            Some(0 - digits_value(d))
        }
    } else {
        parse_unsigned(s, max)
    }
}

/// The bound above every value of interest (`u64::MAX + 1`).
pub open spec fn digits_cap() -> int {
    0x1_0000_0000_0000_0000
}

/// `min(digits_value(s[lo..hi]), 2^64)` when `s[lo..hi]` is a non-empty run
/// of digits.
fn digits_capped(s: &Vec<char>, lo: usize, hi: usize) -> (r: Option<u128>)
    requires
        lo <= hi <= s@.len(),
    ensures
        match r {
            Some(v) => {
                let d = s@.subrange(lo as int, hi as int);
                &&& d.len() > 0
                &&& all_digits(d)
                &&& v == if digits_value(d) < digits_cap() {
                    digits_value(d) as int
                } else {
                    digits_cap()
                }
            },
            None => {
                let d = s@.subrange(lo as int, hi as int);
                d.len() == 0 || !all_digits(d)
            },
        },
{
    if lo == hi {
        return None;
    }
    let cap: u128 = 0x1_0000_0000_0000_0000;
    let mut acc: u128 = 0;
    let mut i = lo;
    while i < hi
        invariant
            lo <= i <= hi <= s@.len(),
            cap == digits_cap(),
            all_digits(s@.subrange(lo as int, i as int)),
            acc == if digits_value(s@.subrange(lo as int, i as int)) < digits_cap() {
                digits_value(s@.subrange(lo as int, i as int)) as int
            } else {
                digits_cap()
            },
        decreases hi - i,
    {
        let c = s[i];
        if !('0' <= c && c <= '9') {
            assert(!is_digit(s@.subrange(lo as int, hi as int)[i - lo]));
            return None;
        }
        let d = (c as u32 - 48) as u128;
        let ghost prev = s@.subrange(lo as int, i as int);
        let ghost next = s@.subrange(lo as int, i + 1);
        assert(next.drop_last() =~= prev);
        assert(next.last() == c);
        assert(digits_value(next) == digits_value(prev) * 10 + digit_val(c));
        if acc >= cap {
            acc = cap;
        } else {
            acc = acc * 10 + d;
            if acc > cap {
                acc = cap;
            }
        }
        i += 1;
        assert forall|k: int| 0 <= k < next.len() implies is_digit(#[trigger] next[k]) by {
            if k < prev.len() {
                assert(next[k] == prev[k]);
            }
        }
    }
    Some(acc)
}

/// `s[lo..hi]` parsed as an unsigned integer no larger than `max`.
pub fn parse_unsigned_range(s: &Vec<char>, lo: usize, hi: usize, max: u64) -> (r: Option<u64>)
    requires
        lo <= hi <= s@.len(),
    ensures
        match parse_unsigned(s@.subrange(lo as int, hi as int), max as int) {
            Some(v) => r == Some(v as u64),
            None => r is None,
        },
{
    let ghost t = s@.subrange(lo as int, hi as int);
    let start = if lo < hi && s[lo] == '+' {
        lo + 1
    } else {
        lo
    };
    assert(s@.subrange(start as int, hi as int) =~= (if t.len() > 0 && t[0] == '+' {
        t.drop_first()
    } else {
        t
    }));
    match digits_capped(s, start, hi) {
        Some(v) => {
            if v > max as u128 {
                None
            } else {
                Some(v as u64)
            }
        },
        None => None,
    }
}

/// `s[lo..hi]` parsed as a signed integer in `min..=max`.
pub fn parse_signed_range(s: &Vec<char>, lo: usize, hi: usize, min: i64, max: i64) -> (r: Option<
    i64,
>)
    requires
        lo <= hi <= s@.len(),
        min <= 0 <= max,
    ensures
        match parse_signed(s@.subrange(lo as int, hi as int), min as int, max as int) {
            Some(v) => r == Some(v as i64),
            None => r is None,
        },
{
    let ghost t = s@.subrange(lo as int, hi as int);
    if lo < hi && s[lo] == '-' {
        assert(s@.subrange(lo + 1, hi as int) =~= t.drop_first());
        match digits_capped(s, lo + 1, hi) {
            Some(v) => {
                let lim: u128 = (0i128 - min as i128) as u128;
                if v > lim {
                    None
                } else {
                    Some((0i128 - v as i128) as i64)
                }
            },
            None => None,
        }
    } else {
        match parse_unsigned_range(s, lo, hi, max as u64) {
            Some(v) => Some(v as i64),
            None => None,
        }
    }
}

/// An octal digit.
pub open spec fn is_octal_digit(c: char) -> bool {
    '0' <= c && c <= '7'
}

/// Every character is an octal digit.
pub open spec fn all_octal(s: Seq<char>) -> bool {
    forall|i: int| 0 <= i < s.len() ==> is_octal_digit(#[trigger] s[i])
}

/// The value of a string of octal digits.
pub open spec fn octal_value(s: Seq<char>) -> nat
    decreases s.len(),
{
    if s.len() == 0 {
        0
    } else {
        octal_value(s.drop_last()) * 8 + digit_val(s.last())
    }
}

/// The value that `u32::from_str_radix(s, 8)` gives: an optional `'+'`,
/// then one or more octal digits, no larger than `u32::MAX`.
pub open spec fn parse_octal_u32(s: Seq<char>) -> Option<int> {
    let d = if s.len() > 0 && s[0] == '+' {
        s.drop_first()
    } else {
        s
    };
    if d.len() == 0 || !all_octal(d) || octal_value(d) > u32::MAX {
        None
    } else {
        Some(octal_value(d) as int)
    }
}

/// `s[lo..hi]` read as an octal `u32` (`u32::from_str_radix(.., 8)`).
pub fn parse_octal_u32_range(s: &Vec<char>, lo: usize, hi: usize) -> (r: Option<u32>)
    requires
        lo <= hi <= s@.len(),
    ensures
        match parse_octal_u32(s@.subrange(lo as int, hi as int)) {
            Some(v) => r == Some(v as u32),
            None => r is None,
        },
{
    let ghost t = s@.subrange(lo as int, hi as int);
    let start = if lo < hi && s[lo] == '+' {
        lo + 1
    } else {
        lo
    };
    let ghost d = s@.subrange(start as int, hi as int);
    assert(d =~= (if t.len() > 0 && t[0] == '+' {
        t.drop_first()
    } else {
        t
    }));
    if start == hi {
        return None;
    }
    let cap: u64 = 0x1_0000_0000;
    let mut acc: u64 = 0;
    let mut i = start;
    assert(s@.subrange(start as int, start as int) =~= Seq::<char>::empty());
    while i < hi
        invariant
            start <= i <= hi <= s@.len(),
            lo <= start,
            cap == 0x1_0000_0000,
            t == s@.subrange(lo as int, hi as int),
            d == s@.subrange(start as int, hi as int),
            d == (if t.len() > 0 && t[0] == '+' {
                t.drop_first()
            } else {
                t
            }),
            all_octal(s@.subrange(start as int, i as int)),
            acc == if octal_value(s@.subrange(start as int, i as int)) < cap {
                octal_value(s@.subrange(start as int, i as int)) as int
            } else {
                cap as int
            },
        decreases hi - i,
    {
        let c = s[i];
        if !('0' <= c && c <= '7') {
            assert(!is_octal_digit(s@.subrange(start as int, hi as int)[i - start]));
            return None;
        }
        let dv = (c as u32 - 48) as u64;
        let ghost prev = s@.subrange(start as int, i as int);
        let ghost next = s@.subrange(start as int, i + 1);
        assert(next.drop_last() =~= prev);
        assert(next.last() == c);
        assert(octal_value(next) == octal_value(prev) * 8 + digit_val(c));
        if acc >= cap {
            acc = cap;
        } else {
            acc = acc * 8 + dv;
            if acc > cap {
                acc = cap;
            }
        }
        i += 1;
        assert forall|k: int| 0 <= k < next.len() implies is_octal_digit(#[trigger] next[k]) by {
            if k < prev.len() {
                assert(next[k] == prev[k]);
            }
        }
    }
    if acc > u32::MAX as u64 {
        None
    } else {
        Some(acc as u32)
    }
}

/// The decimal character of a digit value below ten.
pub open spec fn digit_char(d: nat) -> char {
    ((d + 48) as u32) as char
}

/// Decimal representation of `n` (`u64::to_string`).
pub open spec fn decimal(n: nat) -> Seq<char>
    decreases n,
{
    if n < 10 {
        seq![digit_char(n)]
    } else {
        decimal(n / 10).push(digit_char(n % 10))
    }
}

/// Decimal representation of a signed `n` (`i64::to_string`).
pub open spec fn signed_decimal(n: int) -> Seq<char> {
    if n < 0 {
        seq!['-'] + decimal((0 - n) as nat)
    } else {
        decimal(n as nat)
    }
}

/// What the decimal representation of `n` is made of: one or more digits
/// whose value is `n`.
pub proof fn lemma_decimal_digits(n: nat)
    ensures
        decimal(n).len() >= 1,
        all_digits(decimal(n)),
        digits_value(decimal(n)) == n,
    decreases n,
{
    if n < 10 {
        let c = digit_char(n);
        assert(c as u32 == n + 48);
        assert(is_digit(c));
        assert(decimal(n)[0] == c);
        assert(decimal(n).drop_last() =~= Seq::<char>::empty());
        assert(digit_val(c) == n);
        assert(digits_value(Seq::<char>::empty()) == 0);
        assert(decimal(n).last() == c);
    } else {
        lemma_decimal_digits(n / 10);
        let s = decimal(n / 10);
        let c = digit_char(n % 10);
        assert(c as u32 == n % 10 + 48);
        assert(decimal(n) == s.push(c));
        assert(s.push(c).drop_last() =~= s);
        assert forall|i: int| 0 <= i < s.push(c).len() implies is_digit(#[trigger] s.push(c)[i]) by {
            if i < s.len() {
                assert(s.push(c)[i] == s[i]);
            }
        }
        assert(digit_val(c) == n % 10);
        assert(s.push(c).last() == c);
        assert(digits_value(s.push(c)) == digits_value(s) * 10 + digit_val(c));
        assert((n / 10) * 10 + n % 10 == n);
    }
}

/// Digits read back as the number they were written from.
pub proof fn lemma_parse_decimal(n: nat, max: int)
    requires
        n <= max,
    ensures
        parse_unsigned(decimal(n), max) == Some(n as int),
        parse_signed(decimal(n), 0 - max - 1, max) == Some(n as int),
        fits_one_line(decimal(n)),
        trim(decimal(n)) == decimal(n),
{
    lemma_decimal_digits(n);
    let d = decimal(n);
    assert(is_digit(d[0]));
    assert(is_digit(d[d.len() - 1]));
    assert(d.last() == d[d.len() - 1]);
    if d.contains('\n') {
        let k = choose|k: int| 0 <= k < d.len() && d[k] == '\n';
        assert(is_digit(d[k]));
    }
    lemma_trim_fixed(d);
}

/// Appends the decimal representation of `n`.
pub fn push_decimal(out: &mut String, n: u64)
    ensures
        final(out)@ == old(out)@ + decimal(n as nat),
    decreases n,
{
    if n >= 10 {
        push_decimal(out, n / 10);
    }
    let d = (n % 10) as u8;
    let c = (d + 48) as char;
    assert(c == digit_char((n % 10) as nat));
    push_char(out, c);
    assert(out@ =~= old(out)@ + decimal(n as nat));
}

/// Appends the decimal representation of a signed `n`.
pub fn push_signed_decimal(out: &mut String, n: i64)
    ensures
        final(out)@ == old(out)@ + signed_decimal(n as int),
{
    if n < 0 {
        push_char(out, '-');
        let m = (0i128 - n as i128) as u64;
        push_decimal(out, m);
        assert(out@ =~= old(out)@ + signed_decimal(n as int));
    } else {
        push_decimal(out, n as u64);
    }
}


// ---------------------------------------------------------------------------
// Small conveniences
// ---------------------------------------------------------------------------

/// Whether the characters of `v` equal those of `t`.
pub fn eq_str(v: &Vec<char>, t: &str) -> (r: bool)
    ensures
        r == (v@ == t@),
{
    let r = range_eq_str(v, 0, v.len(), t);
    assert(v@.subrange(0, v@.len() as int) =~= v@);
    r
}

/// An owned copy of `s`.
pub fn owned(s: &str) -> (r: String)
    ensures
        r@ == s@,
{
    s.to_owned()
}

/// `a` followed by `b`, as a new `String`.
pub fn concat(a: &str, b: &str) -> (r: String)
    ensures
        r@ == a@ + b@,
{
    let mut out = String::new();
    push_str(&mut out, a);
    push_str(&mut out, b);
    assert(out@ =~= a@ + b@);
    out
}

/// ASCII lower-case copy of all of `s`.
pub fn lower_all(s: &Vec<char>) -> (r: Vec<char>)
    ensures
        r@ == lower(s@),
{
    let r = lower_range(s, 0, s.len());
    assert(s@.subrange(0, s@.len() as int) =~= s@);
    r
}

/// `s` without any trailing `c` (`str::trim_end_matches` with a char).
pub open spec fn trim_end_char(s: Seq<char>, c: char) -> Seq<char>
    decreases s.len(),
{
    if s.len() > 0 && s.last() == c {
        trim_end_char(s.drop_last(), c)
    } else {
        s
    }
}

/// `s` without any leading `c` (`str::trim_start_matches` with a char).
pub open spec fn trim_start_char(s: Seq<char>, c: char) -> Seq<char>
    decreases s.len(),
{
    if s.len() > 0 && s[0] == c {
        trim_start_char(s.drop_first(), c)
    } else {
        s
    }
}

/// End of `s[lo..hi]` without trailing `c`.
pub fn trim_end_char_range(s: &Vec<char>, lo: usize, hi: usize, c: char) -> (r: usize)
    requires
        lo <= hi <= s@.len(),
    ensures
        lo <= r <= hi,
        s@.subrange(lo as int, r as int) == trim_end_char(s@.subrange(lo as int, hi as int), c),
{
    let mut b = hi;
    while b > lo && s[b - 1] == c
        invariant
            lo <= b <= hi <= s@.len(),
            trim_end_char(s@.subrange(lo as int, hi as int), c) == trim_end_char(
                s@.subrange(lo as int, b as int),
                c,
            ),
        decreases b - lo,
    {
        assert(s@.subrange(lo as int, b as int).drop_last() =~= s@.subrange(
            lo as int,
            b as int - 1,
        ));
        b -= 1;
    }
    b
}

/// Start of `s[lo..hi]` without leading `c`.
pub fn trim_start_char_range(s: &Vec<char>, lo: usize, hi: usize, c: char) -> (r: usize)
    requires
        lo <= hi <= s@.len(),
    ensures
        lo <= r <= hi,
        s@.subrange(r as int, hi as int) == trim_start_char(s@.subrange(lo as int, hi as int), c),
{
    let mut a = lo;
    while a < hi && s[a] == c
        invariant
            lo <= a <= hi <= s@.len(),
            trim_start_char(s@.subrange(lo as int, hi as int), c) == trim_start_char(
                s@.subrange(a as int, hi as int),
                c,
            ),
        decreases hi - a,
    {
        assert(s@.subrange(a as int, hi as int).drop_first() =~= s@.subrange(
            a as int + 1,
            hi as int,
        ));
        a += 1;
    }
    a
}

/// `s` without leading and trailing `c` (`str::trim_matches` with a char).
pub open spec fn trim_matches(s: Seq<char>, c: char) -> Seq<char> {
    trim_end_char(trim_start_char(s, c), c)
}

/// Range of `s[lo..hi]` without leading and trailing `c`.
pub fn trim_matches_range(s: &Vec<char>, lo: usize, hi: usize, c: char) -> (r: (usize, usize))
    requires
        lo <= hi <= s@.len(),
    ensures
        lo <= r.0 <= r.1 <= hi,
        s@.subrange(r.0 as int, r.1 as int) == trim_matches(s@.subrange(lo as int, hi as int), c),
{
    let a = trim_start_char_range(s, lo, hi, c);
    let b = trim_end_char_range(s, a, hi, c);
    (a, b)
}

/// `s` without every leading repetition of `p` (`str::trim_start_matches`
/// with a string).
pub open spec fn strip_all_prefix(s: Seq<char>, p: Seq<char>) -> Seq<char>
    decreases s.len(),
{
    if p.len() > 0 && has_prefix(s, p) {
        strip_all_prefix(s.skip(p.len() as int), p)
    } else {
        s
    }
}

/// Start of `s[lo..hi]` without every leading repetition of `p`.
pub fn strip_all_prefix_range(s: &Vec<char>, lo: usize, hi: usize, p: &Vec<char>) -> (r: usize)
    requires
        lo <= hi <= s@.len(),
    ensures
        lo <= r <= hi,
        s@.subrange(r as int, hi as int) == strip_all_prefix(s@.subrange(lo as int, hi as int), p@),
{
    let mut a = lo;
    if p.len() == 0 {
        return a;
    }
    while range_starts_with(s, a, hi, p)
        invariant
            lo <= a <= hi <= s@.len(),
            p@.len() > 0,
            strip_all_prefix(s@.subrange(lo as int, hi as int), p@) == strip_all_prefix(
                s@.subrange(a as int, hi as int),
                p@,
            ),
        decreases hi - a,
    {
        assert(s@.subrange(a as int, hi as int).skip(p@.len() as int) =~= s@.subrange(
            a + p@.len(),
            hi as int,
        ));
        a = a + p.len();
    }
    a
}

/// Trimming never lengthens.
pub proof fn lemma_trim_len(s: Seq<char>)
    ensures
        trim_start(s).len() <= s.len(),
        trim(s).len() <= s.len(),
    decreases s.len(),
{
    lemma_trim_start_len(s);
    lemma_trim_end_len(trim_start(s));
}

proof fn lemma_trim_start_len(s: Seq<char>)
    ensures
        trim_start(s).len() <= s.len(),
    decreases s.len(),
{
    if s.len() > 0 && is_ws(s[0]) {
        lemma_trim_start_len(s.drop_first());
    }
}

proof fn lemma_trim_end_len(s: Seq<char>)
    ensures
        trim_end(s).len() <= s.len(),
    decreases s.len(),
{
    if s.len() > 0 && is_ws(s.last()) {
        lemma_trim_end_len(s.drop_last());
    }
}

/// Trimming the start drops a prefix, after which no whitespace leads.
pub proof fn lemma_trim_start_skip(s: Seq<char>) -> (a: int)
    ensures
        0 <= a <= s.len(),
        trim_start(s) == s.skip(a),
        a < s.len() ==> !is_ws(s[a]),
    decreases s.len(),
{
    if s.len() > 0 && is_ws(s[0]) {
        let a = lemma_trim_start_skip(s.drop_first());
        assert(s.drop_first().skip(a) =~= s.skip(a + 1));
        if a < s.drop_first().len() {
            assert(s.drop_first()[a] == s[a + 1]);
        }
        a + 1
    } else {
        assert(s.skip(0) =~= s);
        0
    }
}

/// Trimming the end keeps a prefix, which no whitespace ends.
pub proof fn lemma_trim_end_take(s: Seq<char>) -> (b: int)
    ensures
        0 <= b <= s.len(),
        trim_end(s) == s.take(b),
        b > 0 ==> !is_ws(s[b - 1]),
    decreases s.len(),
{
    if s.len() > 0 && is_ws(s.last()) {
        let b = lemma_trim_end_take(s.drop_last());
        assert(s.drop_last().take(b) =~= s.take(b));
        if b > 0 {
            assert(s.drop_last()[b - 1] == s[b - 1]);
        }
        b
    } else {
        assert(s.take(s.len() as int) =~= s);
        s.len() as int
    }
}

/// `trim(s)` is a stretch of `s` that neither starts nor ends with
/// whitespace.
pub proof fn lemma_trim_range(s: Seq<char>) -> (r: (int, int))
    ensures
        0 <= r.0 <= r.1 <= s.len(),
        trim(s) == s.subrange(r.0, r.1),
        trim(s).len() > 0 ==> !is_ws(trim(s)[0]) && !is_ws(trim(s).last()),
{
    let a = lemma_trim_start_skip(s);
    let t = trim_start(s);
    let b = lemma_trim_end_take(t);
    assert(t.take(b) =~= s.subrange(a, a + b));
    if b > 0 {
        assert(trim(s)[0] == t[0]);
        assert(trim(s).last() == t[b - 1]);
    }
    (a, a + b)
}

/// Text that neither starts nor ends with whitespace is its own trim.
pub proof fn lemma_trim_fixed(x: Seq<char>)
    requires
        x.len() > 0 ==> !is_ws(x[0]) && !is_ws(x.last()),
    ensures
        trim(x) == x,
{
}

/// Whether some string of `list` holds exactly the characters `s[lo..hi]`.
pub fn range_in_list(s: &Vec<char>, lo: usize, hi: usize, list: &[String]) -> (r: bool)
    requires
        lo <= hi <= s@.len(),
    ensures
        r == list@.map_values(|x: String| x@).contains(s@.subrange(lo as int, hi as int)),
{
    let ghost want = s@.subrange(lo as int, hi as int);
    let ghost views = list@.map_values(|x: String| x@);
    let mut i: usize = 0;
    while i < list.len()
        invariant
            i <= list@.len(),
            lo <= hi <= s@.len(),
            want == s@.subrange(lo as int, hi as int),
            views == list@.map_values(|x: String| x@),
            forall|j: int| 0 <= j < i ==> views[j] != want,
        decreases list@.len() - i,
    {
        let v = chars_of(list[i].as_str());
        if range_eq(s, lo, hi, &v) {
            assert(views[i as int] == want);
            return true;
        }
        i += 1;
    }
    false
}

} // verus!
