//! `pam_namespace`: the rules of `namespace.conf(5)`.
//!
//! One rule per line, `polydir instance_prefix method`, with `#` comments.
//! Only the `user` method (one instance directory per uid) is supported;
//! lines naming another method, and lines with fewer than three fields, are
//! skipped.

use vstd::prelude::*;

use crate::text::{
    chars_of, line_ranges, lines, pieces_of, range_eq_str, ranges_within, string_of_range, trim,
    trim_range, word_ranges, words,
};

verus! {

/// One polyinstantiation rule: `polydir` is bind-mounted from a per-user
/// directory under `instance_prefix`.
pub struct Rule {
    pub polydir: String,
    pub instance_prefix: String,
}

/// The `(polydir, instance_prefix)` of one line, or `None` when the line is
/// blank, a comment, short, or names a method other than `user`.
pub open spec fn namespace_rule(line: Seq<char>) -> Option<(Seq<char>, Seq<char>)> {
    let l = trim(line);
    if l.len() == 0 || l[0] == '#' {
        None
    } else {
        let w = words(l);
        if w.len() < 3 || w[2] != "user"@ {
            None
        } else {
            Some((w[0], w[1]))
        }
    }
}

/// The rules of the lines `ls`, in order.
pub open spec fn namespace_rules(ls: Seq<Seq<char>>) -> Seq<(Seq<char>, Seq<char>)>
    decreases ls.len(),
{
    if ls.len() == 0 {
        Seq::empty()
    } else {
        let init = namespace_rules(ls.drop_last());
        match namespace_rule(ls.last()) {
            Some(r) => init.push(r),
            None => init,
        }
    }
}

/// The characters of each rule's two fields.
pub open spec fn rules_view(v: Seq<Rule>) -> Seq<(Seq<char>, Seq<char>)> {
    v.map_values(|r: Rule| (r.polydir@, r.instance_prefix@))
}

/// The rules of `namespace.conf` text, in the order of their lines.
pub fn parse_conf(text: &str) -> (r: Vec<Rule>)
    ensures
        rules_view(r@) == namespace_rules(lines(text@)),
{
    let s = chars_of(text);
    let lr = line_ranges(&s);
    let ghost ls = lines(s@);
    let mut out: Vec<Rule> = Vec::new();
    let mut i: usize = 0;
    assert(ls.take(0) =~= Seq::<Seq<char>>::empty());
    assert(rules_view(out@) =~= namespace_rules(ls.take(0)));
    while i < lr.len()
        invariant
            i <= lr@.len(),
            ranges_within(lr@, 0, s@.len() as int),
            pieces_of(s@, lr@) == ls,
            ls == lines(text@),
            s@ == text@,
            rules_view(out@) == namespace_rules(ls.take(i as int)),
        decreases lr@.len() - i,
    {
        let (a, b) = lr[i];
        let ghost line = s@.subrange(a as int, b as int);
        assert(ls[i as int] == line);
        assert(ls.take(i + 1).drop_last() =~= ls.take(i as int));
        assert(ls.take(i + 1).last() == line);
        let (c, d) = trim_range(&s, a, b);
        let ghost l = s@.subrange(c as int, d as int);
        assert(l == trim(line));
        if c < d && s[c] != '#' {
            let w = word_ranges(&s, c, d);
            let ghost ws = words(l);
            if w.len() >= 3 {
                let (x0, x1) = w[0];
                let (y0, y1) = w[1];
                let (z0, z1) = w[2];
                assert(ws[0] == s@.subrange(x0 as int, x1 as int));
                assert(ws[1] == s@.subrange(y0 as int, y1 as int));
                assert(ws[2] == s@.subrange(z0 as int, z1 as int));
                if range_eq_str(&s, z0, z1, "user") {
                    let rule = Rule {
                        polydir: string_of_range(&s, x0, x1),
                        instance_prefix: string_of_range(&s, y0, y1),
                    };
                    out.push(rule);
                }
            }
        }
        i += 1;
        assert(rules_view(out@) =~= namespace_rules(ls.take(i as int)));
    }
    assert(ls.take(lr@.len() as int) =~= ls);
    out
}

} // verus!
