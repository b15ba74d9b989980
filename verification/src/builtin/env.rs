//! `pam_env`: the assignments read from an environment file
//! (`KEY=value` lines) and from `pam_env.conf` (`VAR DEFAULT=.. OVERRIDE=..`).

use vstd::prelude::*;

use crate::config::strings_view;
use crate::module::{arg_has, arg_value, first_value};
use crate::text::{
    chars_of, has_prefix, index_of, lemma_index_of, line_ranges, lines, pieces_of, push_char,
    push_range, range_starts_with, ranges_within, trim, trim_matches, trim_matches_range,
    trim_range, word_ranges, words,
};

verus! {

/// Whether the module reads any file: with `readenv` (or `readenv=1`), or
/// with an explicit `conffile=` or `envfile=`.
pub fn reads_files(args: &[String]) -> (r: bool)
    ensures
        r == (strings_view(args@).contains("readenv=1"@) || strings_view(args@).contains(
            "readenv"@,
        ) || first_value(strings_view(args@), "conffile"@) is Some || first_value(
            strings_view(args@),
            "envfile"@,
        ) is Some),
{
    if arg_has(args, "readenv=1") || arg_has(args, "readenv") {
        return true;
    }
    arg_value(args, "conffile").is_some() || arg_value(args, "envfile").is_some()
}

/// Whether the user's own `~/.pam_environment` is read too.
pub fn reads_user_file(args: &[String]) -> (r: bool)
    ensures
        r == (strings_view(args@).contains("user_readenv=1"@) || strings_view(args@).contains(
            "user_readenv"@,
        )),
{
    arg_has(args, "user_readenv=1") || arg_has(args, "user_readenv")
}

/// A blank line or a `#` comment, after trimming.
pub open spec fn skipped(l: Seq<char>) -> bool {
    l.len() == 0 || l[0] == '#'
}

/// The assignment of one environment-file line: `KEY=value`, the key
/// trimmed and the value trimmed and stripped of surrounding `"` and then
/// `'` characters; `None` for blank, comment and `=`-less lines.
pub open spec fn env_file_assignment(line: Seq<char>) -> Option<Seq<char>> {
    let l = trim(line);
    if skipped(l) {
        None
    } else {
        match index_of(l, '=') {
            Some(i) => Some(
                trim(l.take(i)) + seq!['='] + trim_matches(trim_matches(trim(l.skip(i + 1)), '"'), '\''),
            ),
            None => None,
        }
    }
}

/// The assignments of the lines `ls`, in order.
pub open spec fn env_file_assignments(ls: Seq<Seq<char>>) -> Seq<Seq<char>>
    decreases ls.len(),
{
    if ls.len() == 0 {
        Seq::empty()
    } else {
        let init = env_file_assignments(ls.drop_last());
        match env_file_assignment(ls.last()) {
            Some(a) => init.push(a),
            None => init,
        }
    }
}

/// The `NAME=value` assignments of an environment file, in order.
pub fn parse_env_file(text: &str) -> (r: Vec<String>)
    ensures
        strings_view(r@) == env_file_assignments(lines(text@)),
{
    let s = chars_of(text);
    let lr = line_ranges(&s);
    let ghost ls = lines(s@);
    let mut out: Vec<String> = Vec::new();
    let mut i: usize = 0;
    assert(ls.take(0) =~= Seq::<Seq<char>>::empty());
    assert(strings_view(out@) =~= env_file_assignments(ls.take(0)));
    while i < lr.len()
        invariant
            i <= lr@.len(),
            ranges_within(lr@, 0, s@.len() as int),
            pieces_of(s@, lr@) == ls,
            ls == lines(text@),
            strings_view(out@) == env_file_assignments(ls.take(i as int)),
        decreases lr@.len() - i,
    {
        let (a, b) = lr[i];
        let ghost line = s@.subrange(a as int, b as int);
        assert(ls[i as int] == line);
        assert(ls.take(i + 1).drop_last() =~= ls.take(i as int));
        assert(ls.take(i + 1).last() == line);
        let (c, d) = trim_range(&s, a, b);
        let ghost l = s@.subrange(c as int, d as int);
        if c < d && s[c] != '#' {
            proof {
                lemma_index_of(l, '=');
            }
            match crate::text::find_char(&s, c, d, '=') {
                Some(k) => {
                    assert(l.take(k - c) =~= s@.subrange(c as int, k as int));
                    assert(l.skip(k - c + 1) =~= s@.subrange(k + 1, d as int));
                    let (k0, k1) = trim_range(&s, c, k);
                    let (v0, v1) = trim_range(&s, k + 1, d);
                    let (w0, w1) = trim_matches_range(&s, v0, v1, '"');
                    let (x0, x1) = trim_matches_range(&s, w0, w1, '\'');
                    let mut e = String::new();
                    push_range(&mut e, &s, k0, k1);
                    push_char(&mut e, '=');
                    push_range(&mut e, &s, x0, x1);
                    assert(l == trim(line));
                    assert(index_of(l, '=') == Some(k - c));
                    assert(e@ =~= trim(l.take(k - c)) + seq!['='] + trim_matches(trim_matches(trim(l.skip(k - c + 1)), '"'), '\''));
                    assert(env_file_assignment(line) == Some(e@));
                    let ghost prev = out@;
                    out.push(e);
                    assert(strings_view(out@) =~= strings_view(prev).push(e@));
                },
                None => {},
            }
        }
        i += 1;
        assert(strings_view(out@) =~= env_file_assignments(ls.take(i as int)));
    }
    assert(ls.take(i as int) =~= ls);
    out
}

/// The value that the `DEFAULT=` or `OVERRIDE=` words among `ws` give,
/// stripped of surrounding `"`: the last `OVERRIDE=` if any, else the last
/// `DEFAULT=`.
pub open spec fn conf_values(ws: Seq<Seq<char>>) -> (Option<Seq<char>>, Option<Seq<char>>)
    decreases ws.len(),
{
    if ws.len() == 0 {
        (None, None)
    } else {
        let (d, o) = conf_values(ws.drop_last());
        let w = ws.last();
        if has_prefix(w, "DEFAULT="@) {
            (Some(trim_matches(w.skip(8), '"')), o)
        } else if has_prefix(w, "OVERRIDE="@) {
            (d, Some(trim_matches(w.skip(9), '"')))
        } else {
            (d, o)
        }
    }
}

/// The assignment of one `pam_env.conf` line: `VAR=value` with the value
/// of its `OVERRIDE=` or else `DEFAULT=` word; `None` when there is neither.
pub open spec fn conf_assignment(line: Seq<char>) -> Option<Seq<char>> {
    let l = trim(line);
    let ws = words(l);
    if skipped(l) || ws.len() == 0 {
        None
    } else {
        let (d, o) = conf_values(ws.drop_first());
        match o {
            Some(v) => Some(ws[0] + seq!['='] + v),
            None => match d {
                Some(v) => Some(ws[0] + seq!['='] + v),
                None => None,
            },
        }
    }
}

/// The assignments of the lines `ls`, in order.
pub open spec fn conf_assignments(ls: Seq<Seq<char>>) -> Seq<Seq<char>>
    decreases ls.len(),
{
    if ls.len() == 0 {
        Seq::empty()
    } else {
        let init = conf_assignments(ls.drop_last());
        match conf_assignment(ls.last()) {
            Some(a) => init.push(a),
            None => init,
        }
    }
}

/// The `VAR=value` assignments of `pam_env.conf` text, in order.
pub fn parse_env_conf(text: &str) -> (r: Vec<String>)
    ensures
        strings_view(r@) == conf_assignments(lines(text@)),
{
    let s = chars_of(text);
    let lr = line_ranges(&s);
    let ghost ls = lines(s@);
    let dflt = chars_of("DEFAULT=");
    let ovr = chars_of("OVERRIDE=");
    proof {
        reveal_strlit("DEFAULT=");
        reveal_strlit("OVERRIDE=");
    }
    let mut out: Vec<String> = Vec::new();
    let mut i: usize = 0;
    assert(ls.take(0) =~= Seq::<Seq<char>>::empty());
    assert(strings_view(out@) =~= conf_assignments(ls.take(0)));
    while i < lr.len()
        invariant
            i <= lr@.len(),
            ranges_within(lr@, 0, s@.len() as int),
            pieces_of(s@, lr@) == ls,
            ls == lines(text@),
            dflt@ == "DEFAULT="@,
            ovr@ == "OVERRIDE="@,
            dflt@.len() == 8,
            ovr@.len() == 9,
            strings_view(out@) == conf_assignments(ls.take(i as int)),
        decreases lr@.len() - i,
    {
        let (a, b) = lr[i];
        let ghost line = s@.subrange(a as int, b as int);
        assert(ls[i as int] == line);
        assert(ls.take(i + 1).drop_last() =~= ls.take(i as int));
        assert(ls.take(i + 1).last() == line);
        let (c, d) = trim_range(&s, a, b);
        let ghost l = s@.subrange(c as int, d as int);
        if c < d && s[c] != '#' {
            let w = word_ranges(&s, c, d);
            let ghost ws = words(l);
            if w.len() > 0 {
                let (n0, n1) = w[0];
                assert(ws[0] == s@.subrange(n0 as int, n1 as int));
                let mut dv: Option<(usize, usize)> = None;
                let mut ov: Option<(usize, usize)> = None;
                let mut j: usize = 1;
                let ghost rest = ws.drop_first();
                assert(rest.take(0) =~= Seq::<Seq<char>>::empty());
                while j < w.len()
                    invariant
                        1 <= j <= w@.len(),
                        c <= d <= s@.len(),
                        ranges_within(w@, c as int, d as int),
                        pieces_of(s@, w@) == ws,
                        rest == ws.drop_first(),
                        dflt@ == "DEFAULT="@,
                        ovr@ == "OVERRIDE="@,
                        dflt@.len() == 8,
                        ovr@.len() == 9,
                        match dv {
                            Some((x, y)) => x <= y <= s@.len() && conf_values(rest.take(j - 1)).0
                                == Some(s@.subrange(x as int, y as int)),
                            None => conf_values(rest.take(j - 1)).0 is None,
                        },
                        match ov {
                            Some((x, y)) => x <= y <= s@.len() && conf_values(rest.take(j - 1)).1
                                == Some(s@.subrange(x as int, y as int)),
                            None => conf_values(rest.take(j - 1)).1 is None,
                        },
                    decreases w@.len() - j,
                {
                    let (p, q) = w[j];
                    let ghost wd = s@.subrange(p as int, q as int);
                    assert(rest[j - 1] == wd);
                    assert(rest.take(j as int).drop_last() =~= rest.take(j - 1));
                    assert(rest.take(j as int).last() == wd);
                    if range_starts_with(&s, p, q, &dflt) {
                        assert(wd.skip(8) =~= s@.subrange(p + 8, q as int));
                        dv = Some(trim_matches_range(&s, p + 8, q, '"'));
                    } else if range_starts_with(&s, p, q, &ovr) {
                        assert(wd.skip(9) =~= s@.subrange(p + 9, q as int));
                        ov = Some(trim_matches_range(&s, p + 9, q, '"'));
                    }
                    j += 1;
                }
                assert(rest.take(j - 1) =~= rest);
                let chosen = match ov {
                    Some(r) => Some(r),
                    None => dv,
                };
                match chosen {
                    Some((x, y)) => {
                        let mut e = String::new();
                        push_range(&mut e, &s, n0, n1);
                        push_char(&mut e, '=');
                        push_range(&mut e, &s, x, y);
                        assert(l == trim(line));
                        assert(e@ =~= ws[0] + seq!['='] + s@.subrange(x as int, y as int));
                        assert(conf_assignment(line) == Some(e@));
                        let ghost prev = out@;
                        out.push(e);
                        assert(strings_view(out@) =~= strings_view(prev).push(e@));
                    },
                    None => {
                        assert(l == trim(line));
                        assert(conf_assignment(line) is None);
                    },
                }
            }
        }
        i += 1;
        assert(strings_view(out@) =~= conf_assignments(ls.take(i as int)));
    }
    assert(ls.take(i as int) =~= ls);
    out
}

} // verus!
