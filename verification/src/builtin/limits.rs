//! `pam_limits`: the resource limits of `limits.conf(5)`.
//!
//! Each line is `domain type item value`; a line applies to a user when its
//! domain is `*`, the user's name, or a `@group` (groups are not resolved:
//! every group line applies).

use vstd::prelude::*;

use crate::config::strings_view;
use crate::constants::{PAM_SESSION_ERR, PAM_SUCCESS};
use crate::text::{
    chars_of, line_ranges, lines, parse_unsigned, parse_unsigned_range, pieces_of, range_eq,
    ranges_within, str_eq, string_of_range, trim, trim_range, word_ranges, words,
};

verus! {

/// One applicable line: its type (`soft`, `hard` or `-`), item and value.
#[derive(Debug, Clone)]
pub struct LimitRule {
    /// `soft`, `hard` or `-` (both).
    pub limit_type: String,
    /// The resource (`nofile`, `nproc`, ...).
    pub item: String,
    /// The limit, a number or `unlimited`/`infinity`.
    pub value: String,
}

/// The rule of one line for `user`: `None` for blank and comment lines,
/// lines with fewer than four fields, and domains that do not apply.
pub open spec fn limit_rule(line: Seq<char>, user: Seq<char>) -> Option<(Seq<char>, Seq<char>, Seq<char>)> {
    let l = trim(line);
    let w = words(l);
    if l.len() == 0 || l[0] == '#' || w.len() < 4 {
        None
    } else if w[0] != "*"@ && w[0] != user && !(w[0].len() > 0 && w[0][0] == '@') {
        None
    } else {
        Some((w[1], w[2], w[3]))
    }
}

/// The rules of the lines `ls` for `user`, in order.
pub open spec fn limit_rules(ls: Seq<Seq<char>>, user: Seq<char>) -> Seq<(Seq<char>, Seq<char>, Seq<char>)>
    decreases ls.len(),
{
    if ls.len() == 0 {
        Seq::empty()
    } else {
        let init = limit_rules(ls.drop_last(), user);
        match limit_rule(ls.last(), user) {
            Some(r) => init.push(r),
            None => init,
        }
    }
}

/// The characters of each rule's fields.
pub open spec fn rules_view(v: Seq<LimitRule>) -> Seq<(Seq<char>, Seq<char>, Seq<char>)> {
    v.map_values(|r: LimitRule| (r.limit_type@, r.item@, r.value@))
}

/// The rules of `limits.conf` text that apply to `user`, in order.
pub fn rules_for(text: &str, user: &str) -> (r: Vec<LimitRule>)
    ensures
        rules_view(r@) == limit_rules(lines(text@), user@),
{
    let s = chars_of(text);
    let u = chars_of(user);
    let lr = line_ranges(&s);
    let ghost ls = lines(s@);
    let mut out: Vec<LimitRule> = Vec::new();
    let mut i: usize = 0;
    assert(ls.take(0) =~= Seq::<Seq<char>>::empty());
    assert(rules_view(out@) =~= limit_rules(ls.take(0), user@));
    while i < lr.len()
        invariant
            i <= lr@.len(),
            ranges_within(lr@, 0, s@.len() as int),
            pieces_of(s@, lr@) == ls,
            ls == lines(text@),
            u@ == user@,
            rules_view(out@) == limit_rules(ls.take(i as int), user@),
        decreases lr@.len() - i,
    {
        let (a, b) = lr[i];
        let ghost line = s@.subrange(a as int, b as int);
        assert(ls[i as int] == line);
        assert(ls.take(i + 1).drop_last() =~= ls.take(i as int));
        assert(ls.take(i + 1).last() == line);
        let (c, d) = trim_range(&s, a, b);
        let ghost l = s@.subrange(c as int, d as int);
        assert(l == trim(line));
        if c < d && s[c] != '#' {
            let w = word_ranges(&s, c, d);
            let ghost ws = words(l);
            if w.len() >= 4 {
                let (d0, d1) = w[0];
                assert(ws[0] == s@.subrange(d0 as int, d1 as int));
                let applies = crate::text::range_eq_str(&s, d0, d1, "*") || range_eq(&s, d0, d1, &u)
                    || (d0 < d1 && s[d0] == '@');
                if applies {
                    let (t0, t1) = w[1];
                    let (i0, i1) = w[2];
                    let (v0, v1) = w[3];
                    assert(ws[1] == s@.subrange(t0 as int, t1 as int));
                    assert(ws[2] == s@.subrange(i0 as int, i1 as int));
                    assert(ws[3] == s@.subrange(v0 as int, v1 as int));
                    let rule = LimitRule {
                        limit_type: string_of_range(&s, t0, t1),
                        item: string_of_range(&s, i0, i1),
                        value: string_of_range(&s, v0, v1),
                    };
                    let ghost prev = out@;
                    out.push(rule);
                    assert(rules_view(out@) =~= rules_view(prev).push((ws[1], ws[2], ws[3])));
                }
            }
        }
        i += 1;
        assert(rules_view(out@) =~= limit_rules(ls.take(i as int), user@));
    }
    assert(ls.take(i as int) =~= ls);
    out
}

/// The resources that limits can be set on.
#[derive(Debug, Clone, Copy, PartialEq, Eq, Structural)]
pub enum LimitItem {
    /// Open files.
    Nofile,
    /// Processes.
    Nproc,
    /// File size.
    Fsize,
    /// Data segment.
    Data,
    /// Stack.
    Stack,
    /// Core files.
    Core,
    /// Resident set.
    Rss,
    /// Address space.
    As,
    /// Locked memory.
    Memlock,
    /// CPU time.
    Cpu,
}

/// The resource named `name`, if it is one that limits are set on.
pub fn limit_item(name: &str) -> (r: Option<LimitItem>)
    ensures
        r == if name@ == "nofile"@ {
            Some(LimitItem::Nofile)
        } else if name@ == "nproc"@ {
            Some(LimitItem::Nproc)
        } else if name@ == "fsize"@ {
            Some(LimitItem::Fsize)
        } else if name@ == "data"@ {
            Some(LimitItem::Data)
        } else if name@ == "stack"@ {
            Some(LimitItem::Stack)
        } else if name@ == "core"@ {
            Some(LimitItem::Core)
        } else if name@ == "rss"@ {
            Some(LimitItem::Rss)
        } else if name@ == "as"@ {
            Some(LimitItem::As)
        } else if name@ == "memlock"@ {
            Some(LimitItem::Memlock)
        } else if name@ == "cpu"@ {
            Some(LimitItem::Cpu)
        } else {
            None
        },
{
    if str_eq(name, "nofile") {
        Some(LimitItem::Nofile)
    } else if str_eq(name, "nproc") {
        Some(LimitItem::Nproc)
    } else if str_eq(name, "fsize") {
        Some(LimitItem::Fsize)
    } else if str_eq(name, "data") {
        Some(LimitItem::Data)
    } else if str_eq(name, "stack") {
        Some(LimitItem::Stack)
    } else if str_eq(name, "core") {
        Some(LimitItem::Core)
    } else if str_eq(name, "rss") {
        Some(LimitItem::Rss)
    } else if str_eq(name, "as") {
        Some(LimitItem::As)
    } else if str_eq(name, "memlock") {
        Some(LimitItem::Memlock)
    } else if str_eq(name, "cpu") {
        Some(LimitItem::Cpu)
    } else {
        None
    }
}

/// The limit that `value` names: `infinity` for `unlimited` or `infinity`,
/// else the number it reads as; `None` when it is neither.
pub fn limit_value(value: &str, infinity: u64) -> (r: Option<u64>)
    ensures
        r == if value@ == "unlimited"@ || value@ == "infinity"@ {
            Some(infinity)
        } else {
            match parse_unsigned(value@, u64::MAX as int) {
                Some(v) => Some(v as u64),
                None => None,
            }
        },
{
    if crate::text::str_eq(value, "unlimited") || crate::text::str_eq(value, "infinity") {
        return Some(infinity);
    }
    let cs = chars_of(value);
    assert(cs@.subrange(0, cs@.len() as int) =~= cs@);
    parse_unsigned_range(&cs, 0, cs.len(), u64::MAX)
}

/// The soft and hard limits after a rule of type `limit_type` sets `val`
/// on limits `(cur, max)`: `soft` sets the soft limit, `hard` the hard one,
/// `-` both; a finite hard limit then caps the soft one.  `None` for an
/// unknown type, which changes nothing.
pub fn apply_limit(limit_type: &str, val: u64, cur: u64, max: u64, infinity: u64) -> (r: Option<
    (u64, u64),
>)
    ensures
        r == if limit_type@ == "soft"@ || limit_type@ == "hard"@ || limit_type@ == "-"@ {
            let c = if limit_type@ == "hard"@ {
                cur
            } else {
                val
            };
            let m = if limit_type@ == "soft"@ {
                max
            } else {
                val
            };
            Some(
                if m != infinity && c > m {
                    (m, m)
                } else {
                    (c, m)
                },
            )
        } else {
            None
        },
{
    proof {
        reveal_strlit("soft");
        reveal_strlit("hard");
        reveal_strlit("-");
        assert("soft"@[0] != "hard"@[0]);
        assert("soft"@ != "hard"@);
        assert("soft"@.len() != "-"@.len());
        assert("hard"@.len() != "-"@.len());
    }
    let (c, m) = if crate::text::str_eq(limit_type, "soft") {
        (val, max)
    } else if crate::text::str_eq(limit_type, "hard") {
        (cur, val)
    } else if crate::text::str_eq(limit_type, "-") {
        (val, val)
    } else {
        return None;
    };
    if m != infinity && c > m {
        Some((m, m))
    } else {
        Some((c, m))
    }
}

/// The status of the session: success, unless the configuration could not
/// be read and the `fatal` argument is given.
pub fn limits_status(conf_readable: bool, args: &[String]) -> (r: i32)
    ensures
        r == if !conf_readable && strings_view(args@).contains("fatal"@) {
            PAM_SESSION_ERR
        } else {
            PAM_SUCCESS
        },
{
    if !conf_readable && crate::module::arg_has(args, "fatal") {
        PAM_SESSION_ERR
    } else {
        PAM_SUCCESS
    }
}

} // verus!
