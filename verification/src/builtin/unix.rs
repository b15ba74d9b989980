//! `pam_unix`: the shadow(5) and opasswd(5) rewrites, the password-history
//! lookup and the account-aging decision.
//!
//! Reading and writing the files, the clock and `crypt(3)` stay with the
//! caller; everything decided from their contents is here.

use vstd::prelude::*;
use vstd::string::StringSliceAdditionalSpecFns;

use crate::config::strings_view;
use crate::constants::{
    PAM_AUTHTOK_RECOVERY_ERR, PAM_AUTH_ERR, PAM_DISALLOW_NULL_AUTHTOK, PAM_ACCT_EXPIRED, PAM_AUTHINFO_UNAVAIL, PAM_NEW_AUTHTOK_REQD, PAM_SUCCESS, PAM_USER_UNKNOWN,
};
use crate::text::{
    decimal, is_digit, lemma_decimal_digits, lemma_lines_append_any, lemma_split_char_nonempty,
    lemma_split_first, strip_cr, fits_one_line, is_ws, lemma_join_lacks, lemma_join_last, lemma_lines_append,
    lemma_lines_no_newline, lemma_split_char_chars, lemma_split_char_join, lemma_trim_fixed,
    lemma_trim_range, chars_of, index_of, join, parse_signed, parse_signed_range, lemma_index_of, line_ranges, lines, pieces_of, push_char,
    push_range, push_str, ranges_within, signed_decimal, split_char, split_ranges, string_of_range, trim,
    trim_range,
};

verus! {

// ---------------------------------------------------------------------------
// Constant-time comparison
// ---------------------------------------------------------------------------

/// Whether `a` and `b` hold the same bytes; once the lengths agree, every
/// byte pair is examined whatever the earlier pairs were.
pub fn ct_eq_bytes(a: &[u8], b: &[u8]) -> (r: bool)
    ensures
        r == (a@ == b@),
{
    if a.len() != b.len() {
        return false;
    }
    let mut v: u8 = 0;
    let mut i: usize = 0;
    while i < a.len()
        invariant
            i <= a@.len(),
            a@.len() == b@.len(),
            (v == 0) == (forall|j: int| 0 <= j < i ==> a@[j] == b@[j]),
        decreases a@.len() - i,
    {
        let x = a[i];
        let y = b[i];
        let w = v | (x ^ y);
        assert((w == 0) == (v == 0 && x == y)) by (bit_vector)
            requires
                w == v | (x ^ y),
        ;
        v = w;
        i += 1;
    }
    assert(a@ =~= b@ <==> forall|j: int| 0 <= j < a@.len() ==> a@[j] == b@[j]);
    v == 0
}

// ---------------------------------------------------------------------------
// Comma-separated hash lists
// ---------------------------------------------------------------------------

/// The non-empty items of `ps`, in order.
pub open spec fn keep_nonempty(ps: Seq<Seq<char>>) -> Seq<Seq<char>>
    decreases ps.len(),
{
    if ps.len() == 0 {
        Seq::empty()
    } else {
        let init = keep_nonempty(ps.drop_last());
        if ps.last().len() > 0 {
            init.push(ps.last())
        } else {
            init
        }
    }
}

/// The trimmed `,`-separated items of `s`.
pub open spec fn trimmed_items(s: Seq<char>) -> Seq<Seq<char>> {
    split_char(s, ',').map_values(|p: Seq<char>| trim(p))
}

/// The hashes of an opasswd(5) hash field: its trimmed, non-empty
/// `,`-separated items.
pub open spec fn hash_list(s: Seq<char>) -> Seq<Seq<char>> {
    keep_nonempty(trimmed_items(s))
}

/// Ranges of the hashes in `s[lo..hi]`.
fn hash_ranges(s: &Vec<char>, lo: usize, hi: usize) -> (r: Vec<(usize, usize)>)
    requires
        lo <= hi <= s@.len(),
    ensures
        ranges_within(r@, lo as int, hi as int),
        pieces_of(s@, r@) == hash_list(s@.subrange(lo as int, hi as int)),
{
    let parts = split_ranges(s, lo, hi, ',');
    let ghost m = trimmed_items(s@.subrange(lo as int, hi as int));
    let mut out: Vec<(usize, usize)> = Vec::new();
    let mut j: usize = 0;
    assert(m.take(0) =~= Seq::<Seq<char>>::empty());
    assert(pieces_of(s@, out@) =~= keep_nonempty(m.take(0)));
    while j < parts.len()
        invariant
            j <= parts@.len(),
            lo <= hi <= s@.len(),
            ranges_within(parts@, lo as int, hi as int),
            pieces_of(s@, parts@) == split_char(s@.subrange(lo as int, hi as int), ','),
            m == trimmed_items(s@.subrange(lo as int, hi as int)),
            m.len() == parts@.len(),
            ranges_within(out@, lo as int, hi as int),
            pieces_of(s@, out@) == keep_nonempty(m.take(j as int)),
        decreases parts@.len() - j,
    {
        let (a, b) = parts[j];
        let (c, d) = trim_range(s, a, b);
        assert(m[j as int] == s@.subrange(c as int, d as int));
        assert(m.take(j + 1).drop_last() =~= m.take(j as int));
        assert(m.take(j + 1).last() == m[j as int]);
        if c < d {
            out.push((c, d));
        }
        j += 1;
        assert(pieces_of(s@, out@) =~= keep_nonempty(m.take(j as int)));
    }
    assert(m.take(j as int) =~= m);
    out
}

/// The characters of each string slice.
pub open spec fn strs_view(v: Seq<&str>) -> Seq<Seq<char>> {
    v.map_values(|s: &str| s@)
}

// ---------------------------------------------------------------------------
// opasswd(5): `user:hash1,hash2,...`, most recent first
// ---------------------------------------------------------------------------

/// The name and the hash field of an opasswd line: the text before and
/// after its first `:` (`str::split_once`), or `None` without a `:`.
pub open spec fn opasswd_entry(line: Seq<char>) -> Option<(Seq<char>, Seq<char>)> {
    match index_of(line, ':') {
        Some(i) => Some((line.take(i), line.skip(i + 1))),
        None => None,
    }
}

/// The hashes stored for `user` in the lines `ls`: those of the first line
/// whose name is `user`, or none.
pub open spec fn history_of(ls: Seq<Seq<char>>, user: Seq<char>) -> Seq<Seq<char>>
    decreases ls.len(),
{
    if ls.len() == 0 {
        Seq::empty()
    } else {
        match opasswd_entry(ls[0]) {
            Some((name, hashes)) => if name == user {
                hash_list(hashes)
            } else {
                history_of(ls.drop_first(), user)
            },
            None => history_of(ls.drop_first(), user),
        }
    }
}

/// Ranges of the name and hash field of `s[a..b]` split at its first `:`.
fn entry_ranges(s: &Vec<char>, a: usize, b: usize) -> (r: Option<(usize, usize)>)
    requires
        a <= b <= s@.len(),
    ensures
        match opasswd_entry(s@.subrange(a as int, b as int)) {
            Some((name, hashes)) => r matches Some((n_end, h_start)) && a <= n_end < h_start <= b
                && name == s@.subrange(a as int, n_end as int) && hashes == s@.subrange(
                h_start as int,
                b as int,
            ),
            None => r is None,
        },
{
    let ghost line = s@.subrange(a as int, b as int);
    proof {
        lemma_index_of(line, ':');
    }
    match crate::text::find_char(s, a, b, ':') {
        Some(k) => {
            assert(line.take(k - a) =~= s@.subrange(a as int, k as int));
            assert(line.skip(k - a + 1) =~= s@.subrange(k + 1, b as int));
            Some((k, k + 1))
        },
        None => None,
    }
}

/// `user`'s stored hashes in opasswd(5) text, most recent first: the
/// trimmed, non-empty `,`-separated items after the first `:` of the first
/// line whose name is `user`; none when no line names `user`.
pub fn opasswd_hashes_for<'a>(text: &'a str, user: &str) -> (r: Vec<&'a str>)
    ensures
        strs_view(r@) == history_of(lines(text@), user@),
{
    let s = chars_of(text);
    let u = chars_of(user);
    let lr = line_ranges(&s);
    let ghost ls = lines(s@);
    let mut i: usize = 0;
    assert(ls.skip(0) =~= ls);
    while i < lr.len()
        invariant
            i <= lr@.len(),
            ranges_within(lr@, 0, s@.len() as int),
            pieces_of(s@, lr@) == ls,
            ls == lines(text@),
            s@ == text@,
            u@ == user@,
            history_of(ls, user@) == history_of(ls.skip(i as int), user@),
        decreases lr@.len() - i,
    {
        let (a, b) = lr[i];
        assert(ls[i as int] == s@.subrange(a as int, b as int));
        assert(ls.skip(i as int)[0] == ls[i as int]);
        assert(ls.skip(i as int).drop_first() =~= ls.skip(i + 1));
        match entry_ranges(&s, a, b) {
            Some((n_end, h_start)) => {
                if crate::text::range_eq(&s, a, n_end, &u) {
                    let hr = hash_ranges(&s, h_start, b);
                    let mut out: Vec<&'a str> = Vec::new();
                    let mut k: usize = 0;
                    while k < hr.len()
                        invariant
                            k <= hr@.len(),
                            ranges_within(hr@, h_start as int, b as int),
                            b <= s@.len(),
                            s@ == text@,
                            strs_view(out@) == pieces_of(s@, hr@).take(k as int),
                        decreases hr@.len() - k,
                    {
                        let (x, y) = hr[k];
                        let piece = text.substring_char(x, y);
                        assert(piece@ == pieces_of(s@, hr@)[k as int]);
                        let ghost prev = out@;
                        out.push(piece);
                        assert(out@ == prev.push(piece));
                        assert(strs_view(out@) =~= strs_view(prev).push(piece@));
                        k += 1;
                        assert(strs_view(out@) =~= pieces_of(s@, hr@).take(k as int));
                    }
                    assert(pieces_of(s@, hr@).take(k as int) =~= pieces_of(s@, hr@));
                    return out;
                }
            },
            None => {},
        }
        i += 1;
    }
    assert(ls.skip(i as int) =~= Seq::<Seq<char>>::empty());
    Vec::new()
}


/// The entries of opasswd lines, in order: each line with a `:` gives its
/// name and its hash list; other lines are dropped.
pub open spec fn opasswd_entries(ls: Seq<Seq<char>>) -> Seq<(Seq<char>, Seq<Seq<char>>)>
    decreases ls.len(),
{
    if ls.len() == 0 {
        Seq::empty()
    } else {
        let init = opasswd_entries(ls.drop_last());
        match opasswd_entry(ls.last()) {
            Some((name, hashes)) => init.push((name, hash_list(hashes))),
            None => init,
        }
    }
}

/// `hs` cut to at most `n` items (`Vec::truncate`).
pub open spec fn capped(hs: Seq<Seq<char>>, n: nat) -> Seq<Seq<char>> {
    if n < hs.len() {
        hs.take(n as int)
    } else {
        hs
    }
}

/// An entry after recording `new_hash` for `user`: `user`'s hashes get
/// `new_hash` in front and are cut to `remember` items; other entries stay.
pub open spec fn updated_entry(
    e: (Seq<char>, Seq<Seq<char>>),
    user: Seq<char>,
    new_hash: Seq<char>,
    remember: nat,
) -> (Seq<char>, Seq<Seq<char>>) {
    if e.0 == user {
        (e.0, capped(seq![new_hash] + e.1, remember))
    } else {
        e
    }
}

/// The line of one entry, without its newline: `name:hash1,hash2,...`.
pub open spec fn entry_line(e: (Seq<char>, Seq<Seq<char>>)) -> Seq<char> {
    e.0 + seq![':'] + join(e.1, seq![','])
}

/// The opasswd text of `es`: one line per entry, each ended by a newline.
pub open spec fn render_entries(es: Seq<(Seq<char>, Seq<Seq<char>>)>) -> Seq<char>
    decreases es.len(),
{
    if es.len() == 0 {
        Seq::empty()
    } else {
        render_entries(es.drop_last()) + entry_line(es.last()) + seq!['\n']
    }
}

/// Some entry of `es` is named `user`.
pub open spec fn names_user(es: Seq<(Seq<char>, Seq<Seq<char>>)>, user: Seq<char>) -> bool {
    exists|i: int| 0 <= i < es.len() && #[trigger] es[i].0 == user
}

/// The entries after recording `new_hash` for `user`: every entry named
/// `user` updated, and a new entry `user:new_hash` at the end when there
/// was none.
pub open spec fn updated_entries(
    es: Seq<(Seq<char>, Seq<Seq<char>>)>,
    user: Seq<char>,
    new_hash: Seq<char>,
    remember: nat,
) -> Seq<(Seq<char>, Seq<Seq<char>>)> {
    let up = es.map_values(
        |e: (Seq<char>, Seq<Seq<char>>)| updated_entry(e, user, new_hash, remember),
    );
    if names_user(es, user) {
        up
    } else {
        up.push((user, seq![new_hash]))
    }
}

/// The opasswd text after recording `new_hash` for `user`.
pub open spec fn opasswd_update(
    text: Seq<char>,
    user: Seq<char>,
    new_hash: Seq<char>,
    remember: nat,
) -> Seq<char> {
    render_entries(updated_entries(opasswd_entries(lines(text)), user, new_hash, remember))
}

/// The strings of `s[r]` for each range `r`.
fn strings_of_ranges(s: &Vec<char>, r: &Vec<(usize, usize)>, lo: usize, hi: usize) -> (out: Vec<
    String,
>)
    requires
        lo <= hi <= s@.len(),
        ranges_within(r@, lo as int, hi as int),
    ensures
        strings_view(out@) == pieces_of(s@, r@),
{
    let mut out: Vec<String> = Vec::new();
    let mut k: usize = 0;
    while k < r.len()
        invariant
            k <= r@.len(),
            lo <= hi <= s@.len(),
            ranges_within(r@, lo as int, hi as int),
            strings_view(out@) == pieces_of(s@, r@).take(k as int),
        decreases r@.len() - k,
    {
        let (x, y) = r[k];
        let piece = string_of_range(s, x, y);
        let ghost prev = out@;
        out.push(piece);
        assert(strings_view(out@) =~= strings_view(prev).push(piece@));
        k += 1;
        assert(strings_view(out@) =~= pieces_of(s@, r@).take(k as int));
    }
    assert(pieces_of(s@, r@).take(k as int) =~= pieces_of(s@, r@));
    out
}

/// opasswd(5) text after recording `new_hash` as `user`'s most recent
/// password: every line named `user` gets `new_hash` in front of its
/// hashes, cut to `remember` hashes; a line `user:new_hash` is added at the
/// end when no line names `user`.  Lines without a `:` are dropped and every
/// line is written back as `name:hash1,hash2,...` with a final newline.
pub fn opasswd_update_text(text: &str, user: &str, new_hash: &str, remember: usize) -> (r: String)
    ensures
        r@ == opasswd_update(text@, user@, new_hash@, remember as nat),
{
    let s = chars_of(text);
    let u = chars_of(user);
    let lr = line_ranges(&s);
    let ghost ls = lines(s@);
    let ghost upd = |e: (Seq<char>, Seq<Seq<char>>)| updated_entry(e, user@, new_hash@, remember as nat);
    let mut out = String::new();
    let mut found = false;
    let mut i: usize = 0;
    assert(ls.take(0) =~= Seq::<Seq<char>>::empty());
    assert(opasswd_entries(ls.take(0)).map_values(upd) =~= Seq::<(Seq<char>, Seq<Seq<char>>)>::empty());
    while i < lr.len()
        invariant
            i <= lr@.len(),
            ranges_within(lr@, 0, s@.len() as int),
            pieces_of(s@, lr@) == ls,
            ls == lines(text@),
            s@ == text@,
            u@ == user@,
            upd == (|e: (Seq<char>, Seq<Seq<char>>)| updated_entry(e, user@, new_hash@, remember as nat)),
            out@ == render_entries(opasswd_entries(ls.take(i as int)).map_values(upd)),
            found == names_user(opasswd_entries(ls.take(i as int)), user@),
        decreases lr@.len() - i,
    {
        let (a, b) = lr[i];
        let ghost line = s@.subrange(a as int, b as int);
        let ghost es = opasswd_entries(ls.take(i as int));
        assert(ls[i as int] == line);
        assert(ls.take(i + 1).drop_last() =~= ls.take(i as int));
        assert(ls.take(i + 1).last() == line);
        match entry_ranges(&s, a, b) {
            Some((n_end, h_start)) => {
                let ghost e = (s@.subrange(a as int, n_end as int), hash_list(s@.subrange(h_start as int, b as int)));
                assert(opasswd_entries(ls.take(i + 1)) == es.push(e));
                let hr = hash_ranges(&s, h_start, b);
                let mut hs = strings_of_ranges(&s, &hr, h_start, b);
                let is_user = crate::text::range_eq(&s, a, n_end, &u);
                if is_user {
                    found = true;
                    hs.insert(0, new_hash.to_string());
                    hs.truncate(remember);
                    assert(strings_view(hs@) =~= capped(seq![new_hash@] + e.1, remember as nat));
                }
                assert(strings_view(hs@) == upd(e).1);
                push_range(&mut out, &s, a, n_end);
                push_char(&mut out, ':');
                crate::text::push_joined(&mut out, &hs, ',');
                push_char(&mut out, '\n');
                assert(es.push(e).map_values(upd) =~= es.map_values(upd).push(upd(e)));
                assert(es.map_values(upd).push(upd(e)).drop_last() =~= es.map_values(upd));
                assert(upd(e).0 == e.0);
                assert(out@ =~= render_entries(es.map_values(upd).push(upd(e))));
                proof {
                    if is_user {
                        assert(es.push(e)[es.len() as int].0 == user@);
                    } else if names_user(es.push(e), user@) {
                        let j = choose|j: int| 0 <= j < es.push(e).len() && #[trigger] es.push(e)[j].0 == user@;
                        assert(j < es.len());
                        assert(es[j].0 == user@);
                    }
                    if names_user(es, user@) {
                        let j = choose|j: int| 0 <= j < es.len() && #[trigger] es[j].0 == user@;
                        assert(es.push(e)[j].0 == user@);
                    }
                }
            },
            None => {
                assert(opasswd_entries(ls.take(i + 1)) == es);
            },
        }
        i += 1;
    }
    let ghost es = opasswd_entries(ls);
    assert(ls.take(i as int) =~= ls);
    if !found {
        push_str(&mut out, user);
        push_char(&mut out, ':');
        push_str(&mut out, new_hash);
        push_char(&mut out, '\n');
        let ghost ne = (user@, seq![new_hash@]);
        assert(join(ne.1, seq![',']) == new_hash@);
        assert(es.map_values(upd).push(ne).drop_last() =~= es.map_values(upd));
        assert(out@ =~= render_entries(es.map_values(upd).push(ne)));
    }
    assert(es.map_values(upd) =~= es.map_values(
        |e: (Seq<char>, Seq<Seq<char>>)| updated_entry(e, user@, new_hash@, remember as nat),
    ));
    out
}


// ---------------------------------------------------------------------------
// shadow(5): `name:hash:lstchg:min:max:warn:inactive:expire:reserved`
// ---------------------------------------------------------------------------

/// A blank line or a `#` comment.
pub open spec fn is_blank_or_comment(line: Seq<char>) -> bool {
    line.len() == 0 || line[0] == '#'
}

/// Whether a shadow line is `user`'s entry with all nine fields.
pub open spec fn shadow_line_matches(line: Seq<char>, user: Seq<char>) -> bool {
    let f = split_char(line, ':');
    !is_blank_or_comment(line) && f[0] == user && f.len() >= 9
}

/// A shadow line after setting `user`'s hash to `new_hash` and its date of
/// last change to `today`: fields 1 and 2 replaced, every other field and
/// every other line unchanged.
pub open spec fn shadow_line_out(
    line: Seq<char>,
    user: Seq<char>,
    new_hash: Seq<char>,
    today: int,
) -> Seq<char> {
    if shadow_line_matches(line, user) {
        join(
            split_char(line, ':').update(1, new_hash).update(2, signed_decimal(today)),
            seq![':'],
        )
    } else {
        line
    }
}

/// The shadow text of the lines `ls` after the update, each line ended by
/// a newline.
pub open spec fn shadow_rewrite(
    ls: Seq<Seq<char>>,
    user: Seq<char>,
    new_hash: Seq<char>,
    today: int,
) -> Seq<char>
    decreases ls.len(),
{
    if ls.len() == 0 {
        Seq::empty()
    } else {
        shadow_rewrite(ls.drop_last(), user, new_hash, today) + shadow_line_out(
            ls.last(),
            user,
            new_hash,
            today,
        ) + seq!['\n']
    }
}

/// Some line of `ls` is `user`'s entry with all nine fields.
pub open spec fn shadow_has_user(ls: Seq<Seq<char>>, user: Seq<char>) -> bool {
    exists|i: int| 0 <= i < ls.len() && #[trigger] shadow_line_matches(ls[i], user)
}

/// Shadow text with `user`'s hash (field 1) replaced by `new_hash` and its
/// date of last change (field 2) by `today`, every other field and line
/// kept verbatim; `None` when no line is `user`'s entry with nine fields.
pub fn rewrite_shadow_text(text: &str, user: &str, new_hash: &str, today: i64) -> (r: Option<
    String,
>)
    ensures
        r is Some <==> shadow_has_user(lines(text@), user@),
        r matches Some(out) ==> out@ == shadow_rewrite(lines(text@), user@, new_hash@, today as int),
{
    let s = chars_of(text);
    let u = chars_of(user);
    let lr = line_ranges(&s);
    let ghost ls = lines(s@);
    let mut out = String::new();
    let mut found = false;
    let mut i: usize = 0;
    assert(ls.take(0) =~= Seq::<Seq<char>>::empty());
    while i < lr.len()
        invariant
            i <= lr@.len(),
            ranges_within(lr@, 0, s@.len() as int),
            pieces_of(s@, lr@) == ls,
            ls == lines(text@),
            s@ == text@,
            u@ == user@,
            out@ == shadow_rewrite(ls.take(i as int), user@, new_hash@, today as int),
            found == shadow_has_user(ls.take(i as int), user@),
        decreases lr@.len() - i,
    {
        let (a, b) = lr[i];
        let ghost line = s@.subrange(a as int, b as int);
        let ghost prev = ls.take(i as int);
        assert(ls[i as int] == line);
        assert(ls.take(i + 1).drop_last() =~= prev);
        assert(ls.take(i + 1).last() == line);
        let ghost f = split_char(line, ':');
        let mut matched = false;
        if a < b && s[a] != '#' {
            let fr = split_ranges(&s, a, b, ':');
            proof {
                crate::text::lemma_split_char_nonempty(line, ':');
            }
            let (f0, f1) = fr[0];
            assert(f[0] == s@.subrange(f0 as int, f1 as int));
            if fr.len() >= 9 && crate::text::range_eq(&s, f0, f1, &u) {
                matched = true;
                let ghost g = f.update(1, new_hash@).update(2, signed_decimal(today as int));
                let ghost base = out@;
                let mut k: usize = 0;
                assert(g.take(0) =~= Seq::<Seq<char>>::empty());
                assert(out@ =~= base + join(g.take(0), seq![':']));
                while k < fr.len()
                    invariant
                        k <= fr@.len(),
                        fr@.len() >= 9,
                        a <= b <= s@.len(),
                        ranges_within(fr@, a as int, b as int),
                        pieces_of(s@, fr@) == f,
                        g == f.update(1, new_hash@).update(2, signed_decimal(today as int)),
                        out@ == base + join(g.take(k as int), seq![':']),
                    decreases fr@.len() - k,
                {
                    proof {
                        crate::text::lemma_join_take(g, seq![':'], k as int);
                    }
                    if k > 0 {
                        push_char(&mut out, ':');
                    }
                    if k == 1 {
                        push_str(&mut out, new_hash);
                    } else if k == 2 {
                        crate::text::push_signed_decimal(&mut out, today);
                    } else {
                        let (x, y) = fr[k];
                        push_range(&mut out, &s, x, y);
                    }
                    k += 1;
                    assert(out@ =~= base + join(g.take(k as int), seq![':']));
                }
                assert(g.take(k as int) =~= g);
            }
        }
        if !matched {
            push_range(&mut out, &s, a, b);
        }
        assert(matched == shadow_line_matches(line, user@));
        push_char(&mut out, '\n');
        assert(out@ =~= shadow_rewrite(ls.take(i + 1), user@, new_hash@, today as int));
        proof {
            let nx = ls.take(i + 1);
            if matched {
                assert(shadow_line_matches(nx[i as int], user@));
            } else if shadow_has_user(nx, user@) {
                let j = choose|j: int| 0 <= j < nx.len() && #[trigger] shadow_line_matches(nx[j], user@);
                assert(prev[j] == nx[j]);
            }
            if shadow_has_user(prev, user@) {
                let j = choose|j: int| 0 <= j < prev.len() && #[trigger] shadow_line_matches(prev[j], user@);
                assert(nx[j] == prev[j]);
            }
        }
        found = found || matched;
        i += 1;
    }
    assert(ls.take(i as int) =~= ls);
    if found {
        Some(out)
    } else {
        None
    }
}


// ---------------------------------------------------------------------------
// Account aging
// ---------------------------------------------------------------------------

/// The outcome of the account check.
#[derive(PartialEq, Eq, Structural, Clone, Copy, Debug)]
pub enum AccountStatus {
    /// The account may be used.
    Okay,
    /// The account expired (shadow field 7).
    Expired,
    /// The password is older than its maximum age (fields 2 and 4).
    NewAuthTok,
    /// The user is in neither shadow nor passwd.
    Unknown,
    /// The account data could not be read.
    Error,
}

/// A shadow field as `str::parse::<i64>` reads it.
pub open spec fn field_i64(f: Seq<char>) -> Option<int> {
    parse_signed(f, i64::MIN as int, i64::MAX as int)
}

/// A shadow field read as a number, or -1 when it is not one.
pub open spec fn field_or_minus_one(f: Seq<char>) -> int {
    match field_i64(f) {
        Some(v) => v,
        None => -1,
    }
}

/// The aging status of one shadow entry's fields on day `now` (days since
/// the epoch): expired once `now` is past a non-negative expiry day; a new
/// password required once `now` is past the last change plus the maximum
/// age (both present, the maximum positive); otherwise fine.
pub open spec fn aging_status(f: Seq<Seq<char>>, now: int) -> AccountStatus {
    if f.len() > 7 && f[7].len() > 0 && (field_i64(f[7]) matches Some(exp) && exp >= 0 && now > exp) {
        AccountStatus::Expired
    } else if f.len() > 4 && field_or_minus_one(f[2]) >= 0 && field_or_minus_one(f[4]) > 0 && now
        > field_or_minus_one(f[2]) + field_or_minus_one(f[4]) {
        AccountStatus::NewAuthTok
    } else {
        AccountStatus::Okay
    }
}

/// Password aging: with no expiry day set, a password last changed on day
/// `l >= 0` (field 2) with a maximum age of `m > 0` days (field 4) must be
/// changed exactly when day `now` is past `l + m`, whatever the other
/// fields hold, and the account is not expired.
pub proof fn law_password_aging(f: Seq<Seq<char>>, now: int, l: int, m: int)
    requires
        f.len() > 4,
        field_i64(f[2]) == Some(l),
        l >= 0,
        field_i64(f[4]) == Some(m),
        m > 0,
        f.len() <= 7 || f[7].len() == 0,
    ensures
        (aging_status(f, now) == AccountStatus::NewAuthTok) == (now > l + m),
        aging_status(f, now) != AccountStatus::Expired,
{
}

/// Account expiry: once day `now` is past a set expiry day `e >= 0`
/// (field 7), the account is expired, whatever the aging fields hold.
pub proof fn law_account_expiry(f: Seq<Seq<char>>, now: int, e: int)
    requires
        f.len() > 7,
        f[7].len() > 0,
        field_i64(f[7]) == Some(e),
        e >= 0,
        now > e,
    ensures
        aging_status(f, now) == AccountStatus::Expired,
{
}

/// The fields of the first line of `ls` whose first field is `user`.
pub open spec fn first_entry(ls: Seq<Seq<char>>, user: Seq<char>) -> Option<Seq<Seq<char>>>
    decreases ls.len(),
{
    if ls.len() == 0 {
        None
    } else if split_char(ls[0], ':')[0] == user {
        Some(split_char(ls[0], ':'))
    } else {
        first_entry(ls.drop_first(), user)
    }
}

/// The account outcome for `user`: from the aging fields of `user`'s first
/// line in the shadow text when there is one; otherwise (no such line, or no
/// readable shadow file) fine when `user` is in passwd and unknown when not.
pub open spec fn account_outcome(
    shadow: Option<Seq<char>>,
    user: Seq<char>,
    now: int,
    in_passwd: bool,
) -> AccountStatus {
    let fallback = if in_passwd {
        AccountStatus::Okay
    } else {
        AccountStatus::Unknown
    };
    match shadow {
        Some(text) => match first_entry(lines(text), user) {
            Some(f) => aging_status(f, now),
            None => fallback,
        },
        None => fallback,
    }
}

/// The account check of `user` on day `now_days`, given the shadow file's
/// text (`None` when it cannot be opened) and whether the user database
/// knows `user`.
pub fn account_status(shadow: Option<&str>, user: &str, now_days: i64, in_passwd: bool) -> (r:
    AccountStatus)
    ensures
        r == account_outcome(
            match shadow {
                Some(t) => Some(t@),
                None => None,
            },
            user@,
            now_days as int,
            in_passwd,
        ),
{
    let fallback = if in_passwd {
        AccountStatus::Okay
    } else {
        AccountStatus::Unknown
    };
    let text = match shadow {
        Some(t) => t,
        None => return fallback,
    };
    let s = chars_of(text);
    let u = chars_of(user);
    let lr = line_ranges(&s);
    let ghost ls = lines(s@);
    let mut i: usize = 0;
    assert(ls.skip(0) =~= ls);
    while i < lr.len()
        invariant
            i <= lr@.len(),
            ranges_within(lr@, 0, s@.len() as int),
            pieces_of(s@, lr@) == ls,
            ls == lines(text@),
            s@ == text@,
            u@ == user@,
            first_entry(ls, user@) == first_entry(ls.skip(i as int), user@),
            shadow == Some(text),
        decreases lr@.len() - i,
    {
        let (a, b) = lr[i];
        let ghost line = s@.subrange(a as int, b as int);
        assert(ls[i as int] == line);
        assert(ls.skip(i as int)[0] == line);
        assert(ls.skip(i as int).drop_first() =~= ls.skip(i + 1));
        let fr = split_ranges(&s, a, b, ':');
        let ghost f = split_char(line, ':');
        proof {
            crate::text::lemma_split_char_nonempty(line, ':');
        }
        let (f0, f1) = fr[0];
        assert(f[0] == s@.subrange(f0 as int, f1 as int));
        if crate::text::range_eq(&s, f0, f1, &u) {
            assert(first_entry(ls.skip(i as int), user@) == Some(f));
            assert(pieces_of(s@, fr@) == f);
            return aging_of_ranges(&s, &fr, a, b, now_days);
        }
        i += 1;
    }
    assert(ls.skip(i as int) =~= Seq::<Seq<char>>::empty());
    fallback
}

/// `aging_status` of the fields whose ranges are `fr`.
fn aging_of_ranges(s: &Vec<char>, fr: &Vec<(usize, usize)>, a: usize, b: usize, now: i64) -> (r:
    AccountStatus)
    requires
        a <= b <= s@.len(),
        ranges_within(fr@, a as int, b as int),
    ensures
        r == aging_status(pieces_of(s@, fr@), now as int),
{
    let ghost f = pieces_of(s@, fr@);
    if fr.len() > 7 {
        let (x, y) = fr[7];
        assert(f[7] == s@.subrange(x as int, y as int));
        if x < y {
            match parse_signed_range(s, x, y, i64::MIN, i64::MAX) {
                Some(exp) => {
                    if exp >= 0 && now > exp {
                        return AccountStatus::Expired;
                    }
                },
                None => {},
            }
        }
    }
    if fr.len() > 4 {
        let (x2, y2) = fr[2];
        let (x4, y4) = fr[4];
        assert(f[2] == s@.subrange(x2 as int, y2 as int));
        assert(f[4] == s@.subrange(x4 as int, y4 as int));
        let lstchg: i64 = match parse_signed_range(s, x2, y2, i64::MIN, i64::MAX) {
            Some(v) => v,
            None => -1,
        };
        let max: i64 = match parse_signed_range(s, x4, y4, i64::MIN, i64::MAX) {
            Some(v) => v,
            None => -1,
        };
        if lstchg >= 0 && max > 0 && (now as i128) > (lstchg as i128) + (max as i128) {
            return AccountStatus::NewAuthTok;
        }
    }
    AccountStatus::Okay
}

/// The PAM status that `acct_mgmt` answers for an account outcome.
pub fn account_status_code(st: AccountStatus) -> (r: i32)
    ensures
        r == match st {
            AccountStatus::Okay => PAM_SUCCESS,
            AccountStatus::Expired => PAM_ACCT_EXPIRED,
            AccountStatus::NewAuthTok => PAM_NEW_AUTHTOK_REQD,
            AccountStatus::Unknown => PAM_USER_UNKNOWN,
            AccountStatus::Error => PAM_AUTHINFO_UNAVAIL,
        },
{
    match st {
        AccountStatus::Okay => PAM_SUCCESS,
        AccountStatus::Expired => PAM_ACCT_EXPIRED,
        AccountStatus::NewAuthTok => PAM_NEW_AUTHTOK_REQD,
        AccountStatus::Unknown => PAM_USER_UNKNOWN,
        AccountStatus::Error => PAM_AUTHINFO_UNAVAIL,
    }
}


// ---------------------------------------------------------------------------
// What a history update gives back
// ---------------------------------------------------------------------------

/// A hash as an opasswd(5) line can hold it: non-empty, neither starting
/// nor ending with whitespace, with no `,` and no newline.
pub open spec fn is_clean_hash(h: Seq<char>) -> bool {
    h.len() > 0 && !is_ws(h[0]) && !is_ws(h.last()) && !h.contains(',') && !h.contains('\n')
}

/// An entry as an opasswd(5) line can hold it: a name with no `:` and no
/// newline, and clean hashes.
pub open spec fn is_clean_entry(e: (Seq<char>, Seq<Seq<char>>)) -> bool {
    &&& !e.0.contains(':')
    &&& !e.0.contains('\n')
    &&& forall|k: int| 0 <= k < e.1.len() ==> is_clean_hash(#[trigger] e.1[k])
}

/// Every entry is clean.
pub open spec fn all_clean(es: Seq<(Seq<char>, Seq<Seq<char>>)>) -> bool {
    forall|i: int| 0 <= i < es.len() ==> is_clean_entry(#[trigger] es[i])
}

/// The lines of the entries, without newlines.
pub open spec fn rendered_lines(es: Seq<(Seq<char>, Seq<Seq<char>>)>) -> Seq<Seq<char>> {
    es.map_values(|e: (Seq<char>, Seq<Seq<char>>)| entry_line(e))
}

/// The hashes of the first entry named `user`, or none.
pub open spec fn entry_history(es: Seq<(Seq<char>, Seq<Seq<char>>)>, user: Seq<char>) -> Seq<
    Seq<char>,
>
    decreases es.len(),
{
    if es.len() == 0 {
        Seq::empty()
    } else if es[0].0 == user {
        es[0].1
    } else {
        entry_history(es.drop_first(), user)
    }
}

proof fn lemma_keep_nonempty_clean(xs: Seq<Seq<char>>)
    requires
        forall|j: int| 0 <= j < xs.len() && xs[j].len() > 0 ==> is_clean_hash(#[trigger] xs[j]),
    ensures
        forall|i: int|
            0 <= i < keep_nonempty(xs).len() ==> is_clean_hash(#[trigger] keep_nonempty(xs)[i]),
    decreases xs.len(),
{
    if xs.len() > 0 {
        let init = xs.drop_last();
        assert forall|j: int| 0 <= j < init.len() && init[j].len() > 0 implies is_clean_hash(
            #[trigger] init[j],
        ) by {
            assert(init[j] == xs[j]);
        }
        lemma_keep_nonempty_clean(init);
        assert(xs.last() == xs[xs.len() - 1]);
        let k = keep_nonempty(xs);
        let ki = keep_nonempty(init);
        assert forall|i: int| 0 <= i < k.len() implies is_clean_hash(#[trigger] k[i]) by {
            if i < ki.len() {
                assert(k[i] == ki[i]);
            } else {
                assert(k[i] == xs.last());
            }
        }
    }
}

proof fn lemma_keep_nonempty_all(xs: Seq<Seq<char>>)
    requires
        forall|j: int| 0 <= j < xs.len() ==> (#[trigger] xs[j]).len() > 0,
    ensures
        keep_nonempty(xs) == xs,
    decreases xs.len(),
{
    if xs.len() > 0 {
        let init = xs.drop_last();
        assert forall|j: int| 0 <= j < init.len() implies (#[trigger] init[j]).len() > 0 by {
            assert(init[j] == xs[j]);
        }
        lemma_keep_nonempty_all(init);
        assert(xs[xs.len() - 1] == xs.last());
        assert(init.push(xs.last()) =~= xs);
    }
}

/// The hashes read from a field without newlines are clean.
proof fn lemma_hash_list_clean(s: Seq<char>)
    requires
        !s.contains('\n'),
    ensures
        forall|i: int| 0 <= i < hash_list(s).len() ==> is_clean_hash(#[trigger] hash_list(s)[i]),
{
    let ps = split_char(s, ',');
    let xs = trimmed_items(s);
    lemma_split_char_chars(s, ',');
    assert forall|j: int| 0 <= j < xs.len() && xs[j].len() > 0 implies is_clean_hash(
        #[trigger] xs[j],
    ) by {
        let p = ps[j];
        let r = lemma_trim_range(p);
        assert(xs[j] == trim(p));
        let x = xs[j];
        if x.contains(',') {
            let k = choose|k: int| 0 <= k < x.len() && x[k] == ',';
            assert(x[k] == p[r.0 + k]);
            assert(split_char(s, ',')[j][r.0 + k] == ',');
        }
        if x.contains('\n') {
            let k = choose|k: int| 0 <= k < x.len() && x[k] == '\n';
            assert(x[k] == p[r.0 + k]);
            assert(s.contains(split_char(s, ',')[j][r.0 + k]));
        }
    }
    lemma_keep_nonempty_clean(xs);
}

/// Clean hashes joined by `,` read back as the same hashes.
proof fn lemma_hash_list_join(hs: Seq<Seq<char>>)
    requires
        forall|k: int| 0 <= k < hs.len() ==> is_clean_hash(#[trigger] hs[k]),
    ensures
        hash_list(join(hs, seq![','])) == hs,
{
    if hs.len() == 0 {
        let e = Seq::<char>::empty();
        assert(join(hs, seq![',']) == e);
        assert(split_char(e, ',') == seq![e]);
        assert(trim(e) == e);
        assert(trimmed_items(e) =~= seq![e]);
        assert(seq![e].drop_last() =~= Seq::<Seq<char>>::empty());
        assert(seq![e].last() == e);
        assert(keep_nonempty(Seq::<Seq<char>>::empty()) == Seq::<Seq<char>>::empty());
        assert(keep_nonempty(seq![e]) =~= hs);
    } else {
        lemma_split_char_join(hs, ',');
        assert forall|k: int| 0 <= k < hs.len() implies trim(#[trigger] hs[k]) == hs[k] by {
            lemma_trim_fixed(hs[k]);
        }
        assert(trimmed_items(join(hs, seq![','])) =~= hs);
        lemma_keep_nonempty_all(hs);
    }
}

/// An entry's line splits back into its name and hash field.
proof fn lemma_entry_line_parse(e: (Seq<char>, Seq<Seq<char>>))
    requires
        !e.0.contains(':'),
    ensures
        opasswd_entry(entry_line(e)) == Some((e.0, join(e.1, seq![',']))),
{
    let l = entry_line(e);
    let n = e.0.len() as int;
    lemma_index_of(l, ':');
    assert(l[n] == ':');
    assert forall|j: int| 0 <= j < n implies l[j] != ':' by {
        assert(l[j] == e.0[j]);
    }
    match index_of(l, ':') {
        Some(i) => {
            if i < n {
                assert(l[i] != ':');
            } else if i > n {
                assert(l[n] != ':');
            }
        },
        None => {
            assert(l[n] != ':');
        },
    }
    assert(l.take(n) =~= e.0);
    assert(l.skip(n + 1) =~= join(e.1, seq![',']));
}

/// A clean entry's line fits on one line.
proof fn lemma_entry_line_fits(e: (Seq<char>, Seq<Seq<char>>))
    requires
        is_clean_entry(e),
    ensures
        fits_one_line(entry_line(e)),
{
    let j = join(e.1, seq![',']);
    assert(!seq![','].contains('\n')) by {
        if seq![','].contains('\n') {
            assert(seq![','][0] == ',');
        }
    }
    assert forall|i: int| 0 <= i < e.1.len() implies !(#[trigger] e.1[i]).contains('\n') by {
        assert(is_clean_hash(e.1[i]));
    }
    lemma_join_lacks(e.1, seq![','], '\n');
    let l = entry_line(e);
    if l.contains('\n') {
        let k = choose|k: int| 0 <= k < l.len() && l[k] == '\n';
        if k < e.0.len() {
            assert(e.0[k] == '\n');
        } else if k > e.0.len() {
            assert(j[k - e.0.len() - 1] == '\n');
        }
    }
    if e.1.len() == 0 {
        assert(l.last() == ':');
    } else {
        assert(is_clean_hash(e.1[e.1.len() - 1]));
        lemma_join_last(e.1, seq![',']);
        assert(l.last() == j.last());
        assert(!is_ws(l.last()));
    }
}

/// Rendered clean entries parse back into the same entries.
proof fn lemma_entries_of_rendered(es: Seq<(Seq<char>, Seq<Seq<char>>)>)
    requires
        all_clean(es),
    ensures
        opasswd_entries(rendered_lines(es)) == es,
    decreases es.len(),
{
    if es.len() == 0 {
        assert(rendered_lines(es) =~= Seq::<Seq<char>>::empty());
    } else {
        let init = es.drop_last();
        assert forall|i: int| 0 <= i < init.len() implies is_clean_entry(#[trigger] init[i]) by {
            assert(init[i] == es[i]);
        }
        lemma_entries_of_rendered(init);
        let ls = rendered_lines(es);
        assert(ls.drop_last() =~= rendered_lines(init));
        let e = es[es.len() - 1];
        assert(es.last() == e);
        assert(ls.last() == entry_line(e));
        lemma_entry_line_parse(e);
        lemma_hash_list_join(e.1);
        assert(init.push(e) =~= es);
    }
}

/// The lines of rendered clean entries are the entries' lines.
proof fn lemma_lines_of_render(es: Seq<(Seq<char>, Seq<Seq<char>>)>)
    requires
        all_clean(es),
    ensures
        lines(render_entries(es)) == rendered_lines(es),
    decreases es.len(),
{
    if es.len() == 0 {
        assert(rendered_lines(es) =~= Seq::<Seq<char>>::empty());
        assert(lines(Seq::<char>::empty()) =~= Seq::<Seq<char>>::empty());
    } else {
        let init = es.drop_last();
        assert forall|i: int| 0 <= i < init.len() implies is_clean_entry(#[trigger] init[i]) by {
            assert(init[i] == es[i]);
        }
        lemma_lines_of_render(init);
        let r = render_entries(init);
        let e = es[es.len() - 1];
        assert(es.last() == e);
        lemma_entry_line_fits(e);
        if init.len() > 0 {
            assert(r.last() == '\n');
        }
        lemma_lines_append(r, entry_line(e));
        assert(rendered_lines(es) =~= rendered_lines(init).push(entry_line(e)));
    }
}

/// The entries of a line followed by more lines.
proof fn lemma_entries_prepend(x: Seq<char>, rest: Seq<Seq<char>>)
    ensures
        opasswd_entries(seq![x] + rest) == match opasswd_entry(x) {
            Some((n, h)) => seq![(n, hash_list(h))],
            None => Seq::empty(),
        } + opasswd_entries(rest),
    decreases rest.len(),
{
    let head: Seq<(Seq<char>, Seq<Seq<char>>)> = match opasswd_entry(x) {
        Some((n, h)) => seq![(n, hash_list(h))],
        None => Seq::empty(),
    };
    if rest.len() == 0 {
        assert(seq![x] + rest =~= seq![x]);
        assert(seq![x].drop_last() =~= Seq::<Seq<char>>::empty());
        assert(seq![x].last() == x);
        assert(opasswd_entries(Seq::<Seq<char>>::empty()) == Seq::<(Seq<char>, Seq<Seq<char>>)>::empty());
        match opasswd_entry(x) {
            Some((n, h)) => {
                assert(Seq::<(Seq<char>, Seq<Seq<char>>)>::empty().push((n, hash_list(h))) =~= seq![(n, hash_list(h))]);
            },
            None => {},
        }
        assert(head + opasswd_entries(rest) =~= head);
    } else {
        lemma_entries_prepend(x, rest.drop_last());
        assert((seq![x] + rest).drop_last() =~= seq![x] + rest.drop_last());
        assert((seq![x] + rest).last() == rest.last());
        match opasswd_entry(rest.last()) {
            Some((n, h)) => {
                assert((head + opasswd_entries(rest.drop_last())).push((n, hash_list(h))) =~= head
                    + opasswd_entries(rest.drop_last()).push((n, hash_list(h))));
            },
            None => {},
        }
    }
}

/// `history_of` reads the first entry named `user`.
proof fn lemma_history_entries(ls: Seq<Seq<char>>, user: Seq<char>)
    ensures
        history_of(ls, user) == entry_history(opasswd_entries(ls), user),
    decreases ls.len(),
{
    if ls.len() > 0 {
        let rest = ls.drop_first();
        lemma_entries_prepend(ls[0], rest);
        assert(seq![ls[0]] + rest =~= ls);
        lemma_history_entries(rest, user);
        let es = opasswd_entries(ls);
        match opasswd_entry(ls[0]) {
            Some((n, h)) => {
                assert(es[0] == (n, hash_list(h)));
                assert(es.drop_first() =~= opasswd_entries(rest));
            },
            None => {
                assert(es =~= opasswd_entries(rest));
            },
        }
    }
}

/// The entries of lines without newlines are clean.
proof fn lemma_entries_clean(ls: Seq<Seq<char>>)
    requires
        forall|i: int| 0 <= i < ls.len() ==> !(#[trigger] ls[i]).contains('\n'),
    ensures
        all_clean(opasswd_entries(ls)),
    decreases ls.len(),
{
    if ls.len() > 0 {
        let init = ls.drop_last();
        assert forall|i: int| 0 <= i < init.len() implies !(#[trigger] init[i]).contains('\n') by {
            assert(init[i] == ls[i]);
        }
        lemma_entries_clean(init);
        let l = ls[ls.len() - 1];
        assert(ls.last() == l);
        lemma_index_of(l, ':');
        match index_of(l, ':') {
            Some(i) => {
                let n = l.take(i);
                let h = l.skip(i + 1);
                if n.contains(':') {
                    let k = choose|k: int| 0 <= k < n.len() && n[k] == ':';
                    assert(l[k] == ':');
                }
                if n.contains('\n') {
                    let k = choose|k: int| 0 <= k < n.len() && n[k] == '\n';
                    assert(l[k] == '\n');
                }
                if h.contains('\n') {
                    let k = choose|k: int| 0 <= k < h.len() && h[k] == '\n';
                    assert(l[i + 1 + k] == '\n');
                }
                lemma_hash_list_clean(h);
                let es = opasswd_entries(ls);
                assert forall|j: int| 0 <= j < es.len() implies is_clean_entry(#[trigger] es[j]) by {
                    if j < es.len() - 1 {
                        assert(es[j] == opasswd_entries(init)[j]);
                    }
                }
            },
            None => {},
        }
    }
}

/// Recording a clean hash for a clean name keeps every entry clean.
proof fn lemma_updated_clean(
    es: Seq<(Seq<char>, Seq<Seq<char>>)>,
    user: Seq<char>,
    new_hash: Seq<char>,
    remember: nat,
)
    requires
        all_clean(es),
        !user.contains(':'),
        !user.contains('\n'),
        is_clean_hash(new_hash),
    ensures
        all_clean(updated_entries(es, user, new_hash, remember)),
{
    let up = updated_entries(es, user, new_hash, remember);
    assert forall|i: int| 0 <= i < up.len() implies is_clean_entry(#[trigger] up[i]) by {
        if i < es.len() {
            let e = es[i];
            assert(is_clean_entry(e));
            if e.0 == user {
                let hs = seq![new_hash] + e.1;
                assert forall|k: int| 0 <= k < hs.len() implies is_clean_hash(#[trigger] hs[k]) by {
                    if k > 0 {
                        assert(hs[k] == e.1[k - 1]);
                    }
                }
                let c = capped(hs, remember);
                assert forall|k: int| 0 <= k < c.len() implies is_clean_hash(#[trigger] c[k]) by {
                    assert(c[k] == hs[k]);
                }
            }
        } else {
            assert(up[i] == (user, seq![new_hash]));
            assert(seq![new_hash][0] == new_hash);
        }
    }
}

/// With no entry named `user`, `user` has no history.
proof fn lemma_history_none(es: Seq<(Seq<char>, Seq<Seq<char>>)>, user: Seq<char>)
    requires
        !names_user(es, user),
    ensures
        entry_history(es, user) == Seq::<Seq<char>>::empty(),
    decreases es.len(),
{
    if es.len() > 0 {
        assert(es[0].0 != user);
        assert(!names_user(es.drop_first(), user)) by {
            if names_user(es.drop_first(), user) {
                let j = choose|j: int| 0 <= j < es.drop_first().len() && #[trigger] es.drop_first()[j].0 == user;
                assert(es[j + 1].0 == user);
            }
        }
        lemma_history_none(es.drop_first(), user);
    }
}

/// The history read from updated entries (no new entry added).
proof fn lemma_history_mapped(
    es: Seq<(Seq<char>, Seq<Seq<char>>)>,
    user: Seq<char>,
    new_hash: Seq<char>,
    remember: nat,
    v: Seq<char>,
)
    ensures
        entry_history(
            es.map_values(
                |e: (Seq<char>, Seq<Seq<char>>)| updated_entry(e, user, new_hash, remember),
            ),
            v,
        ) == if v == user && names_user(es, user) {
            capped(seq![new_hash] + entry_history(es, user), remember)
        } else if v == user {
            Seq::<Seq<char>>::empty()
        } else {
            entry_history(es, v)
        },
    decreases es.len(),
{
    let m = es.map_values(
        |e: (Seq<char>, Seq<Seq<char>>)| updated_entry(e, user, new_hash, remember),
    );
    if es.len() == 0 {
        assert(!names_user(es, user));
    } else {
        let rest = es.drop_first();
        lemma_history_mapped(rest, user, new_hash, remember, v);
        assert(m.drop_first() =~= rest.map_values(
            |e: (Seq<char>, Seq<Seq<char>>)| updated_entry(e, user, new_hash, remember),
        ));
        assert(m[0] == updated_entry(es[0], user, new_hash, remember));
        if es[0].0 == user {
            assert(names_user(es, user));
        } else {
            assert(names_user(es, user) == names_user(rest, user)) by {
                if names_user(es, user) {
                    let j = choose|j: int| 0 <= j < es.len() && #[trigger] es[j].0 == user;
                    assert(rest[j - 1].0 == user);
                }
                if names_user(rest, user) {
                    let j = choose|j: int| 0 <= j < rest.len() && #[trigger] rest[j].0 == user;
                    assert(es[j + 1].0 == user);
                }
            }
        }
    }
}

/// The history read after a further entry.
proof fn lemma_history_push(
    xs: Seq<(Seq<char>, Seq<Seq<char>>)>,
    y: (Seq<char>, Seq<Seq<char>>),
    v: Seq<char>,
)
    ensures
        entry_history(xs.push(y), v) == if names_user(xs, v) {
            entry_history(xs, v)
        } else if y.0 == v {
            y.1
        } else {
            Seq::<Seq<char>>::empty()
        },
    decreases xs.len(),
{
    if xs.len() == 0 {
        assert(!names_user(xs, v));
        assert(xs.push(y)[0] == y);
        assert(xs.push(y).drop_first() =~= Seq::<(Seq<char>, Seq<Seq<char>>)>::empty());
        assert(entry_history(Seq::<(Seq<char>, Seq<Seq<char>>)>::empty(), v) == Seq::<Seq<char>>::empty());
    } else {
        let rest = xs.drop_first();
        lemma_history_push(rest, y, v);
        assert(xs.push(y).drop_first() =~= rest.push(y));
        assert(xs.push(y)[0] == xs[0]);
        if xs[0].0 == v {
            assert(names_user(xs, v));
        } else {
            assert(names_user(xs, v) == names_user(rest, v)) by {
                if names_user(xs, v) {
                    let j = choose|j: int| 0 <= j < xs.len() && #[trigger] xs[j].0 == v;
                    assert(rest[j - 1].0 == v);
                }
                if names_user(rest, v) {
                    let j = choose|j: int| 0 <= j < rest.len() && #[trigger] rest[j].0 == v;
                    assert(xs[j + 1].0 == v);
                }
            }
        }
    }
}

/// The history of `v` read from the updated entries.
proof fn lemma_history_updated(
    es: Seq<(Seq<char>, Seq<Seq<char>>)>,
    user: Seq<char>,
    new_hash: Seq<char>,
    remember: nat,
    v: Seq<char>,
)
    requires
        remember >= 1,
    ensures
        entry_history(updated_entries(es, user, new_hash, remember), v) == if v == user {
            capped(seq![new_hash] + entry_history(es, user), remember)
        } else {
            entry_history(es, v)
        },
{
    let m = es.map_values(
        |e: (Seq<char>, Seq<Seq<char>>)| updated_entry(e, user, new_hash, remember),
    );
    lemma_history_mapped(es, user, new_hash, remember, v);
    if !names_user(es, user) {
        lemma_history_none(es, user);
        assert(names_user(m, v) == names_user(es, v)) by {
            if names_user(m, v) {
                let j = choose|j: int| 0 <= j < m.len() && #[trigger] m[j].0 == v;
                assert(es[j].0 == v);
            }
            if names_user(es, v) {
                let j = choose|j: int| 0 <= j < es.len() && #[trigger] es[j].0 == v;
                assert(m[j].0 == v);
            }
        }
        lemma_history_push(m, (user, seq![new_hash]), v);
        assert(seq![new_hash] + Seq::<Seq<char>>::empty() =~= seq![new_hash]);
        if v != user && !names_user(es, v) {
            lemma_history_none(es, v);
        }
        if v == user {
            assert(!names_user(m, user));
        }
    }
}

/// Reading `user`'s history back after recording `new_hash` gives
/// `new_hash` followed by the earlier history, cut to `remember` hashes:
/// the newest password comes first and at most `remember` are kept.
pub proof fn law_opasswd_read_back(
    text: Seq<char>,
    user: Seq<char>,
    new_hash: Seq<char>,
    remember: nat,
)
    requires
        !user.contains(':'),
        !user.contains('\n'),
        is_clean_hash(new_hash),
        remember >= 1,
    ensures
        history_of(lines(opasswd_update(text, user, new_hash, remember)), user) == capped(
            seq![new_hash] + history_of(lines(text), user),
            remember,
        ),
{
    lemma_opasswd_round_trip(text, user, new_hash, remember, user);
}

/// Recording a hash for `user` leaves every other user's history as it was.
pub proof fn law_opasswd_others_untouched(
    text: Seq<char>,
    user: Seq<char>,
    new_hash: Seq<char>,
    remember: nat,
    other: Seq<char>,
)
    requires
        !user.contains(':'),
        !user.contains('\n'),
        is_clean_hash(new_hash),
        other != user,
    ensures
        history_of(lines(opasswd_update(text, user, new_hash, remember)), other) == history_of(
            lines(text),
            other,
        ),
{
    lemma_opasswd_round_trip(text, user, new_hash, remember, other);
}

proof fn lemma_opasswd_round_trip(
    text: Seq<char>,
    user: Seq<char>,
    new_hash: Seq<char>,
    remember: nat,
    v: Seq<char>,
)
    requires
        !user.contains(':'),
        !user.contains('\n'),
        is_clean_hash(new_hash),
        remember >= 1 || v != user,
    ensures
        history_of(lines(opasswd_update(text, user, new_hash, remember)), v) == if v == user {
            capped(seq![new_hash] + history_of(lines(text), user), remember)
        } else {
            history_of(lines(text), v)
        },
{
    let ls = lines(text);
    let es = opasswd_entries(ls);
    lemma_lines_no_newline(text);
    lemma_entries_clean(ls);
    lemma_updated_clean(es, user, new_hash, remember);
    let up = updated_entries(es, user, new_hash, remember);
    lemma_lines_of_render(up);
    lemma_entries_of_rendered(up);
    let out = opasswd_update(text, user, new_hash, remember);
    assert(out == render_entries(up));
    lemma_history_entries(lines(out), v);
    lemma_history_entries(ls, v);
    lemma_history_entries(ls, user);
    if v == user {
        lemma_history_updated(es, user, new_hash, remember, v);
    } else {
        lemma_history_mapped(es, user, new_hash, remember, v);
        let m = es.map_values(
            |e: (Seq<char>, Seq<Seq<char>>)| updated_entry(e, user, new_hash, remember),
        );
        if !names_user(es, user) {
            assert(names_user(m, v) == names_user(es, v)) by {
                if names_user(m, v) {
                    let j = choose|j: int| 0 <= j < m.len() && #[trigger] m[j].0 == v;
                    assert(es[j].0 == v);
                }
                if names_user(es, v) {
                    let j = choose|j: int| 0 <= j < es.len() && #[trigger] es[j].0 == v;
                    assert(m[j].0 == v);
                }
            }
            lemma_history_push(m, (user, seq![new_hash]), v);
            if !names_user(es, v) {
                lemma_history_none(es, v);
            }
        }
    }
}


// ---------------------------------------------------------------------------
// colon-separated databases (passwd(5), shadow(5))
// ---------------------------------------------------------------------------

/// Field `field` (0 is the name) of the first entry named `user` among the
/// lines `ls`, skipping blank and comment lines: `None` when no entry is
/// named `user`, or the first such entry has no such field (field 0 is
/// never given).
pub open spec fn colon_lookup(ls: Seq<Seq<char>>, user: Seq<char>, field: nat) -> Option<
    Seq<char>,
>
    decreases ls.len(),
{
    if ls.len() == 0 {
        None
    } else {
        let f = split_char(ls[0], ':');
        if !is_blank_or_comment(ls[0]) && f[0] == user {
            if 1 <= field < f.len() {
                Some(f[field as int])
            } else {
                None
            }
        } else {
            colon_lookup(ls.drop_first(), user, field)
        }
    }
}

/// Field `field` of `user`'s entry in passwd(5)- or shadow(5)-style text
/// (field 1 is the password hash).
pub fn colon_field(text: &str, user: &str, field: usize) -> (r: Option<String>)
    ensures
        match colon_lookup(lines(text@), user@, field as nat) {
            Some(v) => r matches Some(x) && x@ == v,
            None => r is None,
        },
{
    let s = chars_of(text);
    let u = chars_of(user);
    let lr = line_ranges(&s);
    let ghost ls = lines(s@);
    let mut i: usize = 0;
    assert(ls.skip(0) =~= ls);
    while i < lr.len()
        invariant
            i <= lr@.len(),
            ranges_within(lr@, 0, s@.len() as int),
            pieces_of(s@, lr@) == ls,
            ls == lines(text@),
            s@ == text@,
            u@ == user@,
            colon_lookup(ls, user@, field as nat) == colon_lookup(ls.skip(i as int), user@, field as nat),
        decreases lr@.len() - i,
    {
        let (a, b) = lr[i];
        let ghost line = s@.subrange(a as int, b as int);
        assert(ls[i as int] == line);
        assert(ls.skip(i as int)[0] == line);
        assert(ls.skip(i as int).drop_first() =~= ls.skip(i + 1));
        if a < b && s[a] != '#' {
            let fr = split_ranges(&s, a, b, ':');
            proof {
                crate::text::lemma_split_char_nonempty(line, ':');
            }
            let (f0, f1) = fr[0];
            assert(split_char(line, ':')[0] == s@.subrange(f0 as int, f1 as int));
            if crate::text::range_eq(&s, f0, f1, &u) {
                if 1 <= field && field < fr.len() {
                    let (x, y) = fr[field];
                    assert(split_char(line, ':')[field as int] == s@.subrange(x as int, y as int));
                    return Some(string_of_range(&s, x, y));
                }
                return None;
            }
        }
        i += 1;
    }
    assert(ls.skip(i as int) =~= Seq::<Seq<char>>::empty());
    None
}

// ---------------------------------------------------------------------------
// authenticate and chauthtok decisions
// ---------------------------------------------------------------------------

/// User names starting with `+` or `-` (NIS compat entries) are refused.
pub fn rejects_user_name(user: &str) -> (r: bool)
    ensures
        r == (user@.len() > 0 && (user@[0] == '+' || user@[0] == '-')),
{
    let cs = chars_of(user);
    cs.len() > 0 && (cs[0] == '+' || cs[0] == '-')
}

/// What `authenticate` decides from the stored hash (`Err`: the databases
/// could not be read; `Ok(None)`: no such user) before asking for a
/// password; `None` when a password must be checked.  A locked hash (`!`
/// or `*` first) fails; an empty one fails under
/// `PAM_DISALLOW_NULL_AUTHTOK`, and otherwise passes with `nullok` or
/// `nullok_secure`.
pub fn auth_by_hash(hash: Result<Option<&str>, ()>, flags: i32, args: &[String]) -> (r: Option<i32>)
    ensures
        r == match hash {
            Err(_) => Some(PAM_AUTHINFO_UNAVAIL),
            Ok(None) => Some(PAM_USER_UNKNOWN),
            Ok(Some(h)) => if h@.len() > 0 && (h@[0] == '!' || h@[0] == '*') {
                Some(PAM_AUTH_ERR)
            } else if h@.len() == 0 {
                if flags & PAM_DISALLOW_NULL_AUTHTOK != 0 {
                    Some(PAM_AUTH_ERR)
                } else if strings_view(args@).contains("nullok"@) || strings_view(args@).contains(
                    "nullok_secure"@,
                ) {
                    Some(PAM_SUCCESS)
                } else {
                    Some(PAM_AUTH_ERR)
                }
            } else {
                None
            },
        },
{
    let h = match hash {
        Err(_) => return Some(PAM_AUTHINFO_UNAVAIL),
        Ok(None) => return Some(PAM_USER_UNKNOWN),
        Ok(Some(h)) => h,
    };
    let cs = chars_of(h);
    if cs.len() > 0 && (cs[0] == '!' || cs[0] == '*') {
        return Some(PAM_AUTH_ERR);
    }
    if cs.len() == 0 {
        if flags & PAM_DISALLOW_NULL_AUTHTOK != 0 {
            return Some(PAM_AUTH_ERR);
        }
        if crate::module::arg_has(args, "nullok") || crate::module::arg_has(args, "nullok_secure") {
            return Some(PAM_SUCCESS);
        }
        return Some(PAM_AUTH_ERR);
    }
    None
}

/// An empty password is refused outright under `PAM_DISALLOW_NULL_AUTHTOK`.
pub fn null_token_refused(token: &str, flags: i32) -> (r: bool)
    ensures
        r == (token@.len() == 0 && flags & PAM_DISALLOW_NULL_AUTHTOK != 0),
{
    token.is_empty() && flags & PAM_DISALLOW_NULL_AUTHTOK != 0
}

/// The status of a password check: success when the password matched,
/// `PAM_AUTH_ERR` when it did not, `PAM_AUTHINFO_UNAVAIL` when it could not
/// be checked.
pub fn verify_status(verified: Result<bool, ()>) -> (r: i32)
    ensures
        r == match verified {
            Ok(true) => PAM_SUCCESS,
            Ok(false) => PAM_AUTH_ERR,
            Err(_) => PAM_AUTHINFO_UNAVAIL,
        },
{
    match verified {
        Ok(true) => PAM_SUCCESS,
        Ok(false) => PAM_AUTH_ERR,
        Err(_) => PAM_AUTHINFO_UNAVAIL,
    }
}

/// What the preliminary phase of `chauthtok` decides before asking for the
/// current password; `None` when it must be checked.  Root may change any
/// password; an empty hash passes with `nullok` or `nullok_secure`.
pub fn prelim_by_hash(user: &str, hash: Result<Option<&str>, ()>, args: &[String]) -> (r: Option<i32>)
    ensures
        r == if user@ == "root"@ {
            Some(PAM_SUCCESS)
        } else {
            match hash {
                Err(_) => Some(PAM_AUTHINFO_UNAVAIL),
                Ok(None) => Some(PAM_USER_UNKNOWN),
                Ok(Some(h)) => if h@.len() == 0 && (strings_view(args@).contains("nullok"@)
                    || strings_view(args@).contains("nullok_secure"@)) {
                    Some(PAM_SUCCESS)
                } else {
                    None
                },
            }
        },
{
    if crate::text::str_eq(user, "root") {
        return Some(PAM_SUCCESS);
    }
    match hash {
        Err(_) => Some(PAM_AUTHINFO_UNAVAIL),
        Ok(None) => Some(PAM_USER_UNKNOWN),
        Ok(Some(h)) => {
            if h.is_empty() && (crate::module::arg_has(args, "nullok") || crate::module::arg_has(
                args,
                "nullok_secure",
            )) {
                Some(PAM_SUCCESS)
            } else {
                None
            }
        },
    }
}

/// A number argument for the password rules (`minlen=`, `remember=`), 0
/// when absent or not a number.
pub fn usize_arg(args: &[String], key: &str) -> (r: usize)
    ensures
        r == match crate::module::arg_number(strings_view(args@), key@, usize::MAX as int) {
            Some(v) => v as usize,
            None => 0usize,
        },
{
    match crate::module::arg_u64(args, key, usize::MAX as u64) {
        Some(v) => v as usize,
        None => 0,
    }
}

/// Whether a new password is shorter, in bytes, than `minlen=` asks.
pub fn too_short(new_password: &str, args: &[String]) -> (r: bool)
    ensures
        r == ((new_password.spec_bytes().len() as usize) < match crate::module::arg_number(
            strings_view(args@),
            "minlen"@,
            usize::MAX as int,
        ) {
            Some(v) => v as usize,
            None => 0usize,
        }),
{
    new_password.len() < usize_arg(args, "minlen")
}

/// How new password hashes are made.
#[derive(Debug, Clone, Copy, PartialEq, Eq, Structural)]
pub enum HashScheme {
    /// bcrypt with this cost.
    Bcrypt(u32),
    /// The preferred scheme (argon2id).
    Preferred,
}

/// The scheme that the arguments ask for: bcrypt (`blowfish` or `bcrypt`,
/// cost from `rounds=`, else 12), otherwise the preferred one.
pub fn hash_scheme(args: &[String]) -> (r: HashScheme)
    ensures
        r == if strings_view(args@).contains("blowfish"@) || strings_view(args@).contains(
            "bcrypt"@,
        ) {
            HashScheme::Bcrypt(
                match crate::module::arg_number(strings_view(args@), "rounds"@, u32::MAX as int) {
                    Some(v) => v as u32,
                    None => 12u32,
                },
            )
        } else {
            HashScheme::Preferred
        },
{
    if crate::module::arg_has(args, "blowfish") || crate::module::arg_has(args, "bcrypt") {
        let cost: u32 = match crate::module::arg_u64(args, "rounds", u32::MAX as u64) {
            Some(v) => v as u32,
            None => 12,
        };
        HashScheme::Bcrypt(cost)
    } else {
        HashScheme::Preferred
    }
}


// ---------------------------------------------------------------------------
// What a shadow rewrite gives back
// ---------------------------------------------------------------------------

/// Whether a line names `user`: not blank or a comment, with `user` as its
/// first `:`-separated field.
pub open spec fn names_entry(line: Seq<char>, user: Seq<char>) -> bool {
    !is_blank_or_comment(line) && split_char(line, ':')[0] == user
}

/// The lines of a rewritten shadow text, as they read back.
pub open spec fn rewritten_lines(
    ls: Seq<Seq<char>>,
    user: Seq<char>,
    new_hash: Seq<char>,
    today: int,
) -> Seq<Seq<char>> {
    ls.map_values(|l: Seq<char>| strip_cr(shadow_line_out(l, user, new_hash, today)))
}

/// Dropping a carriage return from the end of a line keeps every field but
/// the last one.
proof fn lemma_split_strip_cr(l: Seq<char>)
    ensures
        split_char(strip_cr(l), ':').len() == split_char(l, ':').len(),
        forall|k: int|
            0 <= k < split_char(l, ':').len() - 1 ==> #[trigger] split_char(strip_cr(l), ':')[k]
                == split_char(l, ':')[k],
{
    if l.len() > 0 && l.last() == '\r' {
        lemma_split_char_nonempty(l.drop_last(), ':');
    }
}

/// A full entry still names its user once read back.
proof fn lemma_entry_names_after_strip(l: Seq<char>, user: Seq<char>)
    requires
        shadow_line_matches(l, user),
    ensures
        names_entry(strip_cr(l), user),
{
    let m = strip_cr(l);
    lemma_split_strip_cr(l);
    assert(split_char(m, ':')[0] == user);
    if m.len() == 0 {
        assert(split_char(m, ':').len() == 1);
    }
    assert(m[0] == l[0]);
}

/// A signed decimal holds neither `:` nor a newline.
proof fn lemma_signed_decimal_plain(n: int)
    ensures
        !signed_decimal(n).contains(':'),
        !signed_decimal(n).contains('\n'),
{
    let d = decimal(if n < 0 {
        (0 - n) as nat
    } else {
        n as nat
    });
    lemma_decimal_digits(if n < 0 {
        (0 - n) as nat
    } else {
        n as nat
    });
    let s = signed_decimal(n);
    assert forall|k: int| 0 <= k < s.len() implies s[k] != ':' && s[k] != '\n' by {
        if n < 0 {
            if k > 0 {
                assert(s[k] == d[k - 1]);
                assert(is_digit(d[k - 1]));
            }
        } else {
            assert(is_digit(d[k]));
        }
    }
}

/// The fields of a rebuilt entry.
pub open spec fn rebuilt_fields(line: Seq<char>, new_hash: Seq<char>, today: int) -> Seq<Seq<char>> {
    split_char(line, ':').update(1, new_hash).update(2, signed_decimal(today))
}

/// A rebuilt entry splits back into its fields.
proof fn lemma_rebuilt_split(line: Seq<char>, user: Seq<char>, new_hash: Seq<char>, today: int)
    requires
        shadow_line_matches(line, user),
        !new_hash.contains(':'),
    ensures
        split_char(shadow_line_out(line, user, new_hash, today), ':') == rebuilt_fields(
            line,
            new_hash,
            today,
        ),
{
    let g = rebuilt_fields(line, new_hash, today);
    lemma_split_char_chars(line, ':');
    lemma_signed_decimal_plain(today);
    assert forall|k: int| 0 <= k < g.len() implies !(#[trigger] g[k]).contains(':') by {
        if k != 1 && k != 2 {
            assert(g[k] == split_char(line, ':')[k]);
            if g[k].contains(':') {
                let x = choose|x: int| 0 <= x < g[k].len() && g[k][x] == ':';
                assert(split_char(line, ':')[k][x] == ':');
            }
        }
    }
    lemma_split_char_join(g, ':');
}

/// A rewritten line holds no newline.
proof fn lemma_line_out_one_line(line: Seq<char>, user: Seq<char>, new_hash: Seq<char>, today: int)
    requires
        !line.contains('\n'),
        !new_hash.contains('\n'),
    ensures
        !shadow_line_out(line, user, new_hash, today).contains('\n'),
{
    if shadow_line_matches(line, user) {
        let g = rebuilt_fields(line, new_hash, today);
        lemma_split_char_chars(line, ':');
        lemma_signed_decimal_plain(today);
        assert forall|k: int| 0 <= k < g.len() implies !(#[trigger] g[k]).contains('\n') by {
            if k != 1 && k != 2 {
                assert(g[k] == split_char(line, ':')[k]);
                if g[k].contains('\n') {
                    let x = choose|x: int| 0 <= x < g[k].len() && g[k][x] == '\n';
                    assert(line.contains(split_char(line, ':')[k][x]));
                }
            }
        }
        assert(!seq![':'].contains('\n')) by {
            if seq![':'].contains('\n') {
                assert(seq![':'][0] == ':');
            }
        }
        lemma_join_lacks(g, seq![':'], '\n');
    }
}

/// The lines of a rewritten text are the rewritten lines.
proof fn lemma_lines_of_rewrite(ls: Seq<Seq<char>>, user: Seq<char>, new_hash: Seq<char>, today: int)
    requires
        forall|i: int| 0 <= i < ls.len() ==> !(#[trigger] ls[i]).contains('\n'),
        !new_hash.contains('\n'),
    ensures
        lines(shadow_rewrite(ls, user, new_hash, today)) == rewritten_lines(ls, user, new_hash, today),
    decreases ls.len(),
{
    if ls.len() == 0 {
        assert(lines(Seq::<char>::empty()) =~= Seq::<Seq<char>>::empty());
        assert(rewritten_lines(ls, user, new_hash, today) =~= Seq::<Seq<char>>::empty());
    } else {
        let init = ls.drop_last();
        assert forall|i: int| 0 <= i < init.len() implies !(#[trigger] init[i]).contains('\n') by {
            assert(init[i] == ls[i]);
        }
        lemma_lines_of_rewrite(init, user, new_hash, today);
        let r = shadow_rewrite(init, user, new_hash, today);
        let t = shadow_line_out(ls.last(), user, new_hash, today);
        assert(ls.last() == ls[ls.len() - 1]);
        lemma_line_out_one_line(ls.last(), user, new_hash, today);
        if init.len() > 0 {
            assert(r.last() == '\n');
        }
        lemma_lines_append_any(r, t);
        assert(rewritten_lines(ls, user, new_hash, today) =~= rewritten_lines(
            init,
            user,
            new_hash,
            today,
        ).push(strip_cr(t)));
    }
}

/// The lookup finds the first line naming `user`.
proof fn lemma_lookup_first(ms: Seq<Seq<char>>, user: Seq<char>, i: int)
    requires
        0 <= i < ms.len(),
        names_entry(ms[i], user),
        split_char(ms[i], ':').len() > 1,
        forall|j: int| 0 <= j < i ==> !#[trigger] names_entry(ms[j], user),
    ensures
        colon_lookup(ms, user, 1) == Some(split_char(ms[i], ':')[1]),
    decreases i,
{
    if i > 0 {
        let rest = ms.drop_first();
        assert(!names_entry(ms[0], user));
        assert forall|j: int| 0 <= j < i - 1 implies !#[trigger] names_entry(rest[j], user) by {
            assert(rest[j] == ms[j + 1]);
        }
        assert(rest[i - 1] == ms[i]);
        lemma_lookup_first(rest, user, i - 1);
    }
}

/// Reading `user`'s hash (field 1) back from the rewritten shadow text
/// gives `new_hash`, provided the hash is a single field (no `:`, no
/// newline) and `user`'s full entry is the first line that reads back as
/// naming `user`.
pub proof fn law_shadow_read_back(text: Seq<char>, user: Seq<char>, new_hash: Seq<char>, today: int)
    requires
        !new_hash.contains(':'),
        !new_hash.contains('\n'),
        exists|i: int|
            0 <= i < lines(text).len() && #[trigger] shadow_line_matches(lines(text)[i], user)
                && forall|j: int| 0 <= j < i ==> !names_entry(strip_cr(#[trigger] lines(text)[j]), user),
    ensures
        colon_lookup(lines(shadow_rewrite(lines(text), user, new_hash, today)), user, 1) == Some(
            new_hash,
        ),
{
    let ls = lines(text);
    let i = choose|i: int|
        0 <= i < ls.len() && #[trigger] shadow_line_matches(ls[i], user) && forall|j: int|
            0 <= j < i ==> !names_entry(strip_cr(#[trigger] ls[j]), user);
    lemma_lines_no_newline(text);
    lemma_lines_of_rewrite(ls, user, new_hash, today);
    let ms = rewritten_lines(ls, user, new_hash, today);
    assert forall|j: int| 0 <= j < i implies !#[trigger] names_entry(ms[j], user) by {
        if shadow_line_matches(ls[j], user) {
            lemma_entry_names_after_strip(ls[j], user);
        }
        assert(ms[j] == strip_cr(ls[j]));
    }
    let l = ls[i];
    let out = shadow_line_out(l, user, new_hash, today);
    assert(ms[i] == strip_cr(out));
    lemma_rebuilt_split(l, user, new_hash, today);
    let g = rebuilt_fields(l, new_hash, today);
    lemma_split_strip_cr(out);
    let m = ms[i];
    assert(split_char(m, ':')[0] == user);
    assert(split_char(m, ':')[1] == new_hash);
    if m.len() == 0 {
        assert(split_char(m, ':').len() == 1);
    }
    lemma_split_first(m, ':');
    lemma_split_first(l, ':');
    assert(split_char(l, ':')[0] == user);
    assert(names_entry(m, user));
    lemma_lookup_first(ms, user, i);
}

/// A join of pieces splits back with its first piece in front, provided
/// that piece holds no separator; two or more pieces split into two or
/// more.
proof fn lemma_split_join_first(g: Seq<Seq<char>>, c: char)
    requires
        g.len() >= 1,
        !g[0].contains(c),
    ensures
        split_char(join(g, seq![c]), c)[0] == g[0],
        g.len() >= 2 ==> split_char(join(g, seq![c]), c).len() >= 2,
    decreases g.len(),
{
    if g.len() == 1 {
        crate::text::lemma_split_char_single(g[0], c);
    } else {
        let init = g.drop_last();
        assert(init[0] == g[0]);
        lemma_split_join_first(init, c);
        let a = join(init, seq![c]);
        let ac = a + seq![c];
        assert(join(g, seq![c]) == ac + g.last());
        crate::text::lemma_split_char_append(ac, g.last(), c);
        assert(ac.drop_last() =~= a);
        lemma_split_char_nonempty(a, c);
        lemma_split_char_nonempty(g.last(), c);
        assert(split_char(ac, c) == split_char(a, c).push(Seq::<char>::empty()));
        assert(split_char(ac, c).drop_last() =~= split_char(a, c));
    }
}

/// Two line lists whose lines agree wherever either one names `v` give the
/// same lookup for `v`.
proof fn lemma_lookup_agree(a: Seq<Seq<char>>, b: Seq<Seq<char>>, v: Seq<char>, field: nat)
    requires
        a.len() == b.len(),
        forall|j: int|
            0 <= j < a.len() ==> #[trigger] a[j] == b[j] || (!names_entry(a[j], v) && !names_entry(
                b[j],
                v,
            )),
    ensures
        colon_lookup(a, v, field) == colon_lookup(b, v, field),
    decreases a.len(),
{
    if a.len() > 0 {
        assert(a[0] == b[0] || (!names_entry(a[0], v) && !names_entry(b[0], v)));
        let a1 = a.drop_first();
        let b1 = b.drop_first();
        assert forall|j: int| 0 <= j < a1.len() implies #[trigger] a1[j] == b1[j] || (!names_entry(
            a1[j],
            v,
        ) && !names_entry(b1[j], v)) by {
            assert(a1[j] == a[j + 1]);
            assert(b1[j] == b[j + 1]);
        }
        lemma_lookup_agree(a1, b1, v, field);
    }
}

/// Rewriting `user`'s entry changes no other user's fields: for any other
/// name, a lookup in the rewritten text gives what it gives in the text's
/// own lines written out again (that is, exactly what it gives in the text
/// when no line ends with a carriage return), provided the new hash holds
/// no newline.
pub proof fn law_shadow_others_untouched(
    text: Seq<char>,
    user: Seq<char>,
    other: Seq<char>,
    new_hash: Seq<char>,
    today: int,
    field: nat,
)
    requires
        other != user,
        !new_hash.contains('\n'),
    ensures
        colon_lookup(lines(shadow_rewrite(lines(text), user, new_hash, today)), other, field)
            == colon_lookup(lines(text).map_values(|l: Seq<char>| strip_cr(l)), other, field),
{
    let ls = lines(text);
    lemma_lines_no_newline(text);
    lemma_lines_of_rewrite(ls, user, new_hash, today);
    let a = rewritten_lines(ls, user, new_hash, today);
    let b = ls.map_values(|l: Seq<char>| strip_cr(l));
    assert forall|j: int| 0 <= j < a.len() implies #[trigger] a[j] == b[j] || (!names_entry(
        a[j],
        other,
    ) && !names_entry(b[j], other)) by {
        let l = ls[j];
        if shadow_line_matches(l, user) {
            let g = rebuilt_fields(l, new_hash, today);
            let out = shadow_line_out(l, user, new_hash, today);
            assert(g[0] == split_char(l, ':')[0]);
            lemma_split_char_chars(l, ':');
            if g[0].contains(':') {
                let x = choose|x: int| 0 <= x < g[0].len() && g[0][x] == ':';
                assert(split_char(l, ':')[0][x] == ':');
            }
            lemma_split_join_first(g, ':');
            lemma_split_strip_cr(out);
            lemma_split_strip_cr(l);
            assert(split_char(a[j], ':')[0] == user);
            assert(split_char(b[j], ':')[0] == user);
        }
    }
    lemma_lookup_agree(a, b, other, field);
}

// ---------------------------------------------------------------------------
// Where a password comes from
// ---------------------------------------------------------------------------

/// How a module gets the password it checks.
#[derive(Debug, PartialEq, Eq)]
pub enum TokenChoice {
    /// Use the token that an earlier module set.
    Use(String),
    /// Ask for it; when asking fails, end with this status, or with the
    /// asking call's own status when `None`.
    Ask(Option<i32>),
    /// End with this status: the token was to be reused and there is none.
    Refuse(i32),
}

/// The token an earlier module set, when it can be reused: set and not
/// empty.
pub fn reusable_token(set: Option<&str>) -> (r: Option<String>)
    ensures
        match set {
            Some(t) if t@.len() > 0 => r matches Some(u) && u@ == t@,
            _ => r is None,
        },
{
    match set {
        Some(t) => if t.is_empty() {
            None
        } else {
            Some(crate::text::owned(t))
        },
        None => None,
    }
}

/// The choice that `reuse` (the arguments ask to reuse a token) makes
/// with the token `set` that an earlier module left.
pub open spec fn token_choice(reuse: bool, set: Option<&str>, refused: i32, ask_fails: Option<i32>, r: TokenChoice) -> bool {
    if reuse {
        match set {
            Some(t) if t@.len() > 0 => r matches TokenChoice::Use(u) && u@ == t@,
            _ => r == TokenChoice::Refuse(refused),
        }
    } else {
        r == TokenChoice::Ask(ask_fails)
    }
}

/// Where `authenticate` takes the password from: with `use_first_pass`
/// the token an earlier module set, and `PAM_AUTH_ERR` when there is
/// none; otherwise it is asked for.
pub fn auth_token_choice(args: &[String], set: Option<&str>) -> (r: TokenChoice)
    ensures
        token_choice(strings_view(args@).contains("use_first_pass"@), set, PAM_AUTH_ERR, None, r),
{
    if crate::module::arg_has(args, "use_first_pass") {
        match reusable_token(set) {
            Some(t) => TokenChoice::Use(t),
            None => TokenChoice::Refuse(PAM_AUTH_ERR),
        }
    } else {
        TokenChoice::Ask(None)
    }
}

/// Where the check of the current password takes it from: with
/// `use_first_pass` or `use_authtok` the token an earlier module set, and
/// `PAM_AUTHTOK_RECOVERY_ERR` when there is none; otherwise it is asked
/// for, and a failed conversation also gives `PAM_AUTHTOK_RECOVERY_ERR`.
pub fn prelim_token_choice(args: &[String], set: Option<&str>) -> (r: TokenChoice)
    ensures
        token_choice(
            strings_view(args@).contains("use_first_pass"@) || strings_view(args@).contains(
                "use_authtok"@,
            ),
            set,
            PAM_AUTHTOK_RECOVERY_ERR,
            Some(PAM_AUTHTOK_RECOVERY_ERR),
            r,
        ),
{
    if crate::module::arg_has(args, "use_first_pass") || crate::module::arg_has(args, "use_authtok") {
        match reusable_token(set) {
            Some(t) => TokenChoice::Use(t),
            None => TokenChoice::Refuse(PAM_AUTHTOK_RECOVERY_ERR),
        }
    } else {
        TokenChoice::Ask(Some(PAM_AUTHTOK_RECOVERY_ERR))
    }
}

} // verus!
