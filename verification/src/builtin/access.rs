//! `pam_access`: login.access(5)-style access control over `access.conf(5)`.
//!
//! Each non-comment, non-blank line is `permission : users : origins`
//! (fields separated by `:`, list items within a field by `,`).  The first
//! matching line wins; if no line matches, access is granted.  Group items
//! (`@group`) are matched against the names of the groups the user belongs
//! to, which the caller looks up.

use vstd::prelude::*;

use crate::config::strings_view;
use crate::text::{
    chars_of, has_prefix, lemma_pieces_push, lemma_split_char_nonempty, lemma_trim_len,
    line_ranges, lines, lower, lower_range, pieces_of, range_contains_char, range_eq,
    range_eq_str, range_in_list, range_starts_with, ranges_within, split_char, split_ranges,
    splitn, splitn_ranges, trim, trim_range,
};

verus! {

/// Whether one item of a users field matches `user`.
pub open spec fn user_item_matches(item: Seq<char>, user: Seq<char>, groups: Seq<Seq<char>>) -> bool
    decreases item.len(),
{
    if item == "ALL"@ {
        true
    } else if has_prefix(item, "EXCEPT "@) {
        proof {
            reveal_strlit("EXCEPT ");
            lemma_trim_len(item.skip(7));
        }
        !user_item_matches(trim(item.skip(7)), user, groups)
    } else if item.len() > 0 && item[0] == '@' {
        groups.contains(item.skip(1))
    } else {
        item == user
    }
}

/// Whether some `,`-separated item of a users field matches `user`.
pub open spec fn spec_user_matches(field: Seq<char>, user: Seq<char>, groups: Seq<Seq<char>>) -> bool {
    let pieces = split_char(field, ',');
    exists|i: int| 0 <= i < pieces.len() && #[trigger] user_item_matches(trim(pieces[i]), user, groups)
}

/// Whether one item of an origins field matches `origin`.
pub open spec fn origin_item_matches(item: Seq<char>, origin: Seq<char>) -> bool
    decreases item.len(),
{
    if item == "ALL"@ {
        true
    } else if item == "LOCAL"@ {
        origin == "LOCAL"@ || !origin.contains('.')
    } else if has_prefix(item, "EXCEPT "@) {
        proof {
            reveal_strlit("EXCEPT ");
            lemma_trim_len(item.skip(7));
        }
        !origin_item_matches(trim(item.skip(7)), origin)
    } else {
        lower(item) == lower(origin)
    }
}

/// Whether some `,`-separated item of an origins field matches `origin`.
pub open spec fn spec_origin_matches(field: Seq<char>, origin: Seq<char>) -> bool {
    let pieces = split_char(field, ',');
    exists|i: int| 0 <= i < pieces.len() && #[trigger] origin_item_matches(trim(pieces[i]), origin)
}

fn match_one_user_range(
    s: &Vec<char>,
    a: usize,
    b: usize,
    user: &Vec<char>,
    groups: &[String],
) -> (r: bool)
    requires
        a <= b <= s@.len(),
    ensures
        r == user_item_matches(s@.subrange(a as int, b as int), user@, strings_view(groups@)),
    decreases b - a,
{
    let ghost item = s@.subrange(a as int, b as int);
    if range_eq_str(s, a, b, "ALL") {
        return true;
    }
    let except = chars_of("EXCEPT ");
    proof {
        reveal_strlit("EXCEPT ");
    }
    if range_starts_with(s, a, b, &except) {
        assert(item.skip(7) =~= s@.subrange(a + 7, b as int));
        let (c, d) = trim_range(s, a + 7, b);
        return !match_one_user_range(s, c, d, user, groups);
    }
    if b > a && s[a] == '@' {
        assert(item.skip(1) =~= s@.subrange(a + 1, b as int));
        return range_in_list(s, a + 1, b, groups);
    }
    range_eq(s, a, b, user)
}

fn match_one_origin_range(s: &Vec<char>, a: usize, b: usize, origin: &Vec<char>) -> (r: bool)
    requires
        a <= b <= s@.len(),
    ensures
        r == origin_item_matches(s@.subrange(a as int, b as int), origin@),
    decreases b - a,
{
    let ghost item = s@.subrange(a as int, b as int);
    if range_eq_str(s, a, b, "ALL") {
        return true;
    }
    if range_eq_str(s, a, b, "LOCAL") {
        let is_local = crate::text::eq_str(origin, "LOCAL");
        assert(origin@.subrange(0, origin@.len() as int) =~= origin@);
        return is_local || !range_contains_char(origin, 0, origin.len(), '.');
    }
    let except = chars_of("EXCEPT ");
    proof {
        reveal_strlit("EXCEPT ");
    }
    if range_starts_with(s, a, b, &except) {
        assert(item.skip(7) =~= s@.subrange(a + 7, b as int));
        let (c, d) = trim_range(s, a + 7, b);
        return !match_one_origin_range(s, c, d, origin);
    }
    let li = lower_range(s, a, b);
    let lo = crate::text::lower_all(origin);
    crate::text::chars_eq(&li, &lo)
}

fn users_match_range(s: &Vec<char>, lo: usize, hi: usize, user: &Vec<char>, groups: &[String]) -> (r:
    bool)
    requires
        lo <= hi <= s@.len(),
    ensures
        r == spec_user_matches(s@.subrange(lo as int, hi as int), user@, strings_view(groups@)),
{
    let parts = split_ranges(s, lo, hi, ',');
    let ghost pieces = split_char(s@.subrange(lo as int, hi as int), ',');
    let mut i: usize = 0;
    while i < parts.len()
        invariant
            i <= parts@.len(),
            ranges_within(parts@, lo as int, hi as int),
            pieces_of(s@, parts@) == pieces,
            pieces == split_char(s@.subrange(lo as int, hi as int), ','),
            lo <= hi <= s@.len(),
            forall|j: int|
                0 <= j < i ==> !#[trigger] user_item_matches(
                    trim(pieces[j]),
                    user@,
                    strings_view(groups@),
                ),
        decreases parts@.len() - i,
    {
        let (a, b) = parts[i];
        assert(pieces[i as int] == s@.subrange(a as int, b as int));
        let (c, d) = trim_range(s, a, b);
        assert(s@.subrange(c as int, d as int) == trim(pieces[i as int]));
        if match_one_user_range(s, c, d, user, groups) {
            assert(user_item_matches(trim(pieces[i as int]), user@, strings_view(groups@)));
            return true;
        }
        i += 1;
    }
    assert(pieces.len() == parts@.len());
    false
}

fn origins_match_range(s: &Vec<char>, lo: usize, hi: usize, origin: &Vec<char>) -> (r: bool)
    requires
        lo <= hi <= s@.len(),
    ensures
        r == spec_origin_matches(s@.subrange(lo as int, hi as int), origin@),
{
    let parts = split_ranges(s, lo, hi, ',');
    let ghost pieces = split_char(s@.subrange(lo as int, hi as int), ',');
    let mut i: usize = 0;
    while i < parts.len()
        invariant
            i <= parts@.len(),
            ranges_within(parts@, lo as int, hi as int),
            pieces_of(s@, parts@) == pieces,
            pieces == split_char(s@.subrange(lo as int, hi as int), ','),
            lo <= hi <= s@.len(),
            forall|j: int| 0 <= j < i ==> !#[trigger] origin_item_matches(trim(pieces[j]), origin@),
        decreases parts@.len() - i,
    {
        let (a, b) = parts[i];
        assert(pieces[i as int] == s@.subrange(a as int, b as int));
        let (c, d) = trim_range(s, a, b);
        assert(s@.subrange(c as int, d as int) == trim(pieces[i as int]));
        if match_one_origin_range(s, c, d, origin) {
            assert(origin_item_matches(trim(pieces[i as int]), origin@));
            return true;
        }
        i += 1;
    }
    assert(pieces.len() == parts@.len());
    false
}

/// Whether the users field `field` matches `user`, where `groups` names the
/// groups that `user` belongs to.
pub fn user_matches(field: &str, user: &str, groups: &[String]) -> (r: bool)
    ensures
        r == spec_user_matches(field@, user@, strings_view(groups@)),
{
    let s = chars_of(field);
    let u = chars_of(user);
    assert(s@.subrange(0, s@.len() as int) =~= s@);
    users_match_range(&s, 0, s.len(), &u, groups)
}

/// Whether one users item matches `user`.
pub fn match_one_user(item: &str, user: &str, groups: &[String]) -> (r: bool)
    ensures
        r == user_item_matches(item@, user@, strings_view(groups@)),
{
    let s = chars_of(item);
    let u = chars_of(user);
    assert(s@.subrange(0, s@.len() as int) =~= s@);
    match_one_user_range(&s, 0, s.len(), &u, groups)
}

/// Whether the origins field `field` matches `origin`.
pub fn origin_matches(field: &str, origin: &str) -> (r: bool)
    ensures
        r == spec_origin_matches(field@, origin@),
{
    let s = chars_of(field);
    let o = chars_of(origin);
    assert(s@.subrange(0, s@.len() as int) =~= s@);
    origins_match_range(&s, 0, s.len(), &o)
}

/// Whether one origins item matches `origin`.
pub fn match_one_origin(item: &str, origin: &str) -> (r: bool)
    ensures
        r == origin_item_matches(item@, origin@),
{
    let s = chars_of(item);
    let o = chars_of(origin);
    assert(s@.subrange(0, s@.len() as int) =~= s@);
    match_one_origin_range(&s, 0, s.len(), &o)
}

/// The rule on one line of `access.conf`: its permission, users and
/// origins fields (each trimmed), or `None` for a blank line, a comment or
/// a line with fewer than three fields.
pub open spec fn access_rule(line: Seq<char>) -> Option<(Seq<char>, Seq<char>, Seq<char>)> {
    let l = trim(line);
    if l.len() == 0 || l[0] == '#' {
        None
    } else {
        let f = splitn(l, 3, ':');
        if f.len() < 3 {
            None
        } else {
            Some((trim(f[0]), trim(f[1]), trim(f[2])))
        }
    }
}

/// Whether a line's rule applies to `user` coming from `origin`.
pub open spec fn rule_applies(
    line: Seq<char>,
    user: Seq<char>,
    origin: Seq<char>,
    groups: Seq<Seq<char>>,
) -> bool {
    match access_rule(line) {
        Some((_, users, origins)) => spec_user_matches(users, user, groups) && spec_origin_matches(
            origins,
            origin,
        ),
        None => false,
    }
}

/// The decision of `access.conf` text: `Some((allow, index))` for the first
/// line (0-based `index`) whose rule applies, where `allow` says whether its
/// permission is `+`; `None` when no line applies (access is granted).
pub open spec fn access_decision(
    text: Seq<char>,
    user: Seq<char>,
    origin: Seq<char>,
    groups: Seq<Seq<char>>,
) -> Option<(bool, int)> {
    let ls = lines(text);
    if exists|i: int| 0 <= i < ls.len() && #[trigger] rule_applies(ls[i], user, origin, groups) {
        let i = choose|i: int|
            0 <= i < ls.len() && #[trigger] rule_applies(ls[i], user, origin, groups) && forall|
                j: int,
            |
                0 <= j < i ==> !#[trigger] rule_applies(ls[j], user, origin, groups);
        Some((access_rule(ls[i]).unwrap().0 == "+"@, i))
    } else {
        None
    }
}

/// Evaluate `access.conf` text for `user` from `origin` (a remote host, a
/// tty, or `LOCAL`), where `groups` names the groups the user belongs to:
/// the first applicable line's permission and 0-based index, or `None`.
pub fn evaluate_access(text: &str, user: &str, origin: &str, groups: &[String]) -> (r: Option<
    (bool, usize),
>)
    ensures
        match access_decision(text@, user@, origin@, strings_view(groups@)) {
            Some((allow, i)) => r == Some((allow, i as usize)),
            None => r is None,
        },
{
    let s = chars_of(text);
    let u = chars_of(user);
    let o = chars_of(origin);
    let lr = line_ranges(&s);
    let ghost ls = lines(s@);
    let ghost g = strings_view(groups@);
    let mut i: usize = 0;
    while i < lr.len()
        invariant
            i <= lr@.len(),
            ranges_within(lr@, 0, s@.len() as int),
            pieces_of(s@, lr@) == ls,
            ls == lines(text@),
            s@ == text@,
            u@ == user@,
            o@ == origin@,
            g == strings_view(groups@),
            forall|j: int| 0 <= j < i ==> !#[trigger] rule_applies(ls[j], user@, origin@, g),
        decreases lr@.len() - i,
    {
        let (a, b) = lr[i];
        let ghost line = s@.subrange(a as int, b as int);
        assert(ls[i as int] == line);
        let (c, d) = trim_range(&s, a, b);
        let ghost l = s@.subrange(c as int, d as int);
        assert(l == trim(line));
        if c < d && s[c] != '#' {
            let f = splitn_ranges(&s, c, d, 3, ':');
            if f.len() >= 3 {
                let (p0, p1) = f[0];
                let (u0, u1) = f[1];
                let (o0, o1) = f[2];
                let ghost fs = splitn(l, 3, ':');
                assert(fs[0] == s@.subrange(p0 as int, p1 as int));
                assert(fs[1] == s@.subrange(u0 as int, u1 as int));
                assert(fs[2] == s@.subrange(o0 as int, o1 as int));
                let (pa, pb) = trim_range(&s, p0, p1);
                let (ua, ub) = trim_range(&s, u0, u1);
                let (oa, ob) = trim_range(&s, o0, o1);
                if users_match_range(&s, ua, ub, &u, groups) && origins_match_range(
                    &s,
                    oa,
                    ob,
                    &o,
                ) {
                    let allow = range_eq_str(&s, pa, pb, "+");
                    assert(rule_applies(ls[i as int], user@, origin@, g));
                    proof {
                        let k = choose|k: int|
                            0 <= k < ls.len() && #[trigger] rule_applies(
                                ls[k],
                                user@,
                                origin@,
                                g,
                            ) && forall|j: int|
                                0 <= j < k ==> !#[trigger] rule_applies(ls[j], user@, origin@, g);
                        if k < i {
                        } else if k > i {
                            assert(!rule_applies(ls[i as int], user@, origin@, g));
                        }
                        assert(k == i);
                    }
                    return Some((allow, i));
                }
            }
        }
        assert(!rule_applies(ls[i as int], user@, origin@, g));
        i += 1;
    }
    None
}

} // verus!
