//! Classic Linux-PAM `/etc/pam.d/*` files read into service configurations.
//!
//! Runtime configuration stays TOML-first; this exists for migration and
//! drop-in compatibility.

use vstd::prelude::*;

use crate::config::{control_flag_of, ControlFlag, EntryView, ModuleEntry, ServiceConfig};
use crate::error::PamError;
use crate::text::{
    chars_of, line_ranges, lines, pieces_of, range_eq_str, ranges_within, string_of_range, trim,
    trim_end_char, trim_end_char_range, trim_range, word_ranges, words,
};

verus! {

/// The stack names of pam.d lines, with and without the leading `-` that
/// marks an optional module.
pub open spec fn is_type_word(w: Seq<char>) -> bool {
    w == "auth"@ || w == "account"@ || w == "password"@ || w == "session"@ || w == "-auth"@ || w
        == "-account"@ || w == "-password"@ || w == "-session"@
}

/// The words of a pam.d line once trimmed and freed of trailing `\`
/// continuation marks; empty for blank and comment lines.
pub open spec fn line_words(line: Seq<char>) -> Seq<Seq<char>> {
    let l0 = trim(line);
    if l0.len() == 0 || l0[0] == '#' {
        Seq::empty()
    } else {
        words(trim(trim_end_char(l0, '\\')))
    }
}

/// The stack name and entry of one pam.d line: `type control module args`,
/// or `service type control module args` (pam.conf) when the first of at
/// least four words is not a stack name.  A leading `-` on the type marks
/// the module optional; an unknown control flag reads as `required`.
pub open spec fn pamd_line(line: Seq<char>) -> Option<(Seq<char>, EntryView)> {
    let ws = line_words(line);
    let ti: int = if ws.len() >= 4 && !is_type_word(ws[0]) {
        1
    } else {
        0
    };
    if ws.len() == 0 || ws.len() < ti + 3 {
        None
    } else {
        let t = ws[ti];
        let optional = t.len() > 0 && t[0] == '-';
        let ty = if optional {
            t.drop_first()
        } else {
            t
        };
        let control = match control_flag_of(ws[ti + 1]) {
            Some(c) => c,
            None => ControlFlag::Required,
        };
        Some(
            (
                ty,
                EntryView {
                    control,
                    module: ws[ti + 2],
                    args: ws.skip(ti + 3),
                    optional_load: optional,
                    actions: None,
                },
            ),
        )
    }
}

/// A pam.d line that starts with its stack name gives an entry whose module
/// is optional to load exactly when that name carries a leading `-`; the
/// entry goes to the stack named without the `-`, with the control flag of
/// the second word (`required` when unknown), the module of the third and
/// the remaining words as arguments.
pub proof fn law_pamd_optional_marker(line: Seq<char>)
    requires
        line_words(line).len() >= 3,
        is_type_word(line_words(line)[0]),
    ensures
        ({
            let ws = line_words(line);
            let w = ws[0];
            pamd_line(line) matches Some((t, e)) && (e.optional_load <==> w[0] == '-') && (w[0]
                == '-' ==> seq!['-'] + t == w) && (w[0] != '-' ==> t == w) && e.module == ws[2]
                && e.args == ws.skip(3) && e.control == (match control_flag_of(ws[1]) {
                Some(f) => f,
                None => ControlFlag::Required,
            }) && e.actions is None
        }),
{
    let w = line_words(line)[0];
    reveal_strlit("auth");
    reveal_strlit("account");
    reveal_strlit("password");
    reveal_strlit("session");
    reveal_strlit("-auth");
    reveal_strlit("-account");
    reveal_strlit("-password");
    reveal_strlit("-session");
    assert(w.len() > 0);
    if w[0] == '-' {
        assert(seq!['-'] + w.drop_first() =~= w);
    }
}

/// The same for a pam.conf line (`service type control module ...`),
/// whose second word is the stack name.
pub proof fn law_pamconf_optional_marker(line: Seq<char>)
    requires
        line_words(line).len() >= 4,
        !is_type_word(line_words(line)[0]),
        is_type_word(line_words(line)[1]),
    ensures
        ({
            let ws = line_words(line);
            let w = ws[1];
            pamd_line(line) matches Some((t, e)) && (e.optional_load <==> w[0] == '-') && (w[0]
                == '-' ==> seq!['-'] + t == w) && (w[0] != '-' ==> t == w) && e.module == ws[3]
                && e.args == ws.skip(4) && e.control == (match control_flag_of(ws[2]) {
                Some(f) => f,
                None => ControlFlag::Required,
            }) && e.actions is None
        }),
{
    let w = line_words(line)[1];
    reveal_strlit("auth");
    reveal_strlit("account");
    reveal_strlit("password");
    reveal_strlit("session");
    reveal_strlit("-auth");
    reveal_strlit("-account");
    reveal_strlit("-password");
    reveal_strlit("-session");
    assert(w.len() > 0);
    if w[0] == '-' {
        assert(seq!['-'] + w.drop_first() =~= w);
    }
}

/// The entries of the lines `ls` for the stack named `ty`, in order.
pub open spec fn pamd_stack(ls: Seq<Seq<char>>, ty: Seq<char>) -> Seq<EntryView>
    decreases ls.len(),
{
    if ls.len() == 0 {
        Seq::empty()
    } else {
        let init = pamd_stack(ls.drop_last(), ty);
        match pamd_line(ls.last()) {
            Some((t, e)) => if t == ty {
                init.push(e)
            } else {
                init
            },
            None => init,
        }
    }
}

/// The views of a stack's entries.
pub open spec fn entries_view(v: Seq<ModuleEntry>) -> Seq<EntryView> {
    v.map_values(|e: ModuleEntry| e@)
}

/// Whether `s[lo..hi]` is a stack name.
fn range_is_type_word(s: &Vec<char>, lo: usize, hi: usize) -> (r: bool)
    requires
        lo <= hi <= s@.len(),
    ensures
        r == is_type_word(s@.subrange(lo as int, hi as int)),
{
    range_eq_str(s, lo, hi, "auth") || range_eq_str(s, lo, hi, "account") || range_eq_str(
        s,
        lo,
        hi,
        "password",
    ) || range_eq_str(s, lo, hi, "session") || range_eq_str(s, lo, hi, "-auth") || range_eq_str(
        s,
        lo,
        hi,
        "-account",
    ) || range_eq_str(s, lo, hi, "-password") || range_eq_str(s, lo, hi, "-session")
}

/// The strings `s[r]` of the ranges `w[from..]`.
fn strings_from(s: &Vec<char>, w: &Vec<(usize, usize)>, from: usize, lo: usize, hi: usize) -> (r:
    Vec<String>)
    requires
        from <= w@.len(),
        lo <= hi <= s@.len(),
        ranges_within(w@, lo as int, hi as int),
    ensures
        crate::config::strings_view(r@) == pieces_of(s@, w@).skip(from as int),
{
    let mut out: Vec<String> = Vec::new();
    let mut k = from;
    while k < w.len()
        invariant
            from <= k <= w@.len(),
            lo <= hi <= s@.len(),
            ranges_within(w@, lo as int, hi as int),
            crate::config::strings_view(out@) == pieces_of(s@, w@).subrange(from as int, k as int),
        decreases w@.len() - k,
    {
        let (x, y) = w[k];
        let piece = string_of_range(s, x, y);
        let ghost prev = out@;
        out.push(piece);
        assert(crate::config::strings_view(out@) =~= crate::config::strings_view(prev).push(
            piece@,
        ));
        k += 1;
        assert(crate::config::strings_view(out@) =~= pieces_of(s@, w@).subrange(
            from as int,
            k as int,
        ));
    }
    out
}

/// Parse pam.d file content: each line's entry goes to the stack its type
/// names (`auth`, `account`, `password`, `session`); lines of other types
/// are dropped.  Parsing never fails.
pub fn parse_pamd(text: &str) -> (r: Result<ServiceConfig, PamError>)
    ensures
        r matches Ok(cfg) && {
            &&& cfg.service.name is None
            &&& cfg.service.description is None
            &&& entries_view(cfg.auth@) == pamd_stack(lines(text@), "auth"@)
            &&& entries_view(cfg.account@) == pamd_stack(lines(text@), "account"@)
            &&& entries_view(cfg.password@) == pamd_stack(lines(text@), "password"@)
            &&& entries_view(cfg.session@) == pamd_stack(lines(text@), "session"@)
        },
{
    let mut cfg = ServiceConfig::default();
    let s = chars_of(text);
    let lr = line_ranges(&s);
    let ghost ls = lines(s@);
    let mut i: usize = 0;
    assert(ls.take(0) =~= Seq::<Seq<char>>::empty());
    assert(entries_view(cfg.auth@) =~= pamd_stack(ls.take(0), "auth"@));
    assert(entries_view(cfg.account@) =~= pamd_stack(ls.take(0), "account"@));
    assert(entries_view(cfg.password@) =~= pamd_stack(ls.take(0), "password"@));
    assert(entries_view(cfg.session@) =~= pamd_stack(ls.take(0), "session"@));
    while i < lr.len()
        invariant
            i <= lr@.len(),
            ranges_within(lr@, 0, s@.len() as int),
            pieces_of(s@, lr@) == ls,
            ls == lines(text@),
            cfg.service.name is None,
            cfg.service.description is None,
            entries_view(cfg.auth@) == pamd_stack(ls.take(i as int), "auth"@),
            entries_view(cfg.account@) == pamd_stack(ls.take(i as int), "account"@),
            entries_view(cfg.password@) == pamd_stack(ls.take(i as int), "password"@),
            entries_view(cfg.session@) == pamd_stack(ls.take(i as int), "session"@),
        decreases lr@.len() - i,
    {
        let (a, b) = lr[i];
        proof {
            reveal_strlit("auth");
            reveal_strlit("account");
            reveal_strlit("password");
            reveal_strlit("session");
            assert("auth"@.len() == 4 && "account"@.len() == 7 && "password"@.len() == 8
                && "session"@.len() == 7);
            assert("account"@[0] == 'a' && "session"@[0] == 's');
            assert("auth"@ != "account"@ && "auth"@ != "password"@ && "auth"@ != "session"@);
            assert("account"@ != "password"@ && "account"@ != "session"@);
            assert("password"@ != "session"@);
        }
        let ghost line = s@.subrange(a as int, b as int);
        assert(ls[i as int] == line);
        assert(ls.take(i + 1).drop_last() =~= ls.take(i as int));
        assert(ls.take(i + 1).last() == line);
        let (c0, d0) = trim_range(&s, a, b);
        let ghost l0 = s@.subrange(c0 as int, d0 as int);
        assert(l0 == trim(line));
        if c0 < d0 && s[c0] != '#' {
            let d1 = trim_end_char_range(&s, c0, d0, '\\');
            let (c, d) = trim_range(&s, c0, d1);
            let w = word_ranges(&s, c, d);
            let ghost ws = words(s@.subrange(c as int, d as int));
            assert(ws == line_words(line));
            if w.len() > 0 {
                let (f0, f1) = w[0];
                assert(ws[0] == s@.subrange(f0 as int, f1 as int));
                let ti: usize = if w.len() >= 4 && !range_is_type_word(&s, f0, f1) {
                    1
                } else {
                    0
                };
                if w.len() >= ti + 3 {
                    let (t0, t1) = w[ti];
                    let (k0, k1) = w[ti + 1];
                    let (m0, m1) = w[ti + 2];
                    assert(ws[ti as int] == s@.subrange(t0 as int, t1 as int));
                    assert(ws[ti + 1] == s@.subrange(k0 as int, k1 as int));
                    assert(ws[ti + 2] == s@.subrange(m0 as int, m1 as int));
                    let optional = t0 < t1 && s[t0] == '-';
                    let ts = if optional {
                        t0 + 1
                    } else {
                        t0
                    };
                    if optional {
                        assert(s@.subrange(t0 as int, t1 as int).drop_first() =~= s@.subrange(
                            t0 + 1,
                            t1 as int,
                        ));
                    }
                    let control_name = string_of_range(&s, k0, k1);
                    let control = match ControlFlag::parse(control_name.as_str()) {
                        Some(c) => c,
                        None => ControlFlag::Required,
                    };
                    let args = strings_from(&s, &w, ti + 3, c, d);
                    let entry = ModuleEntry {
                        control,
                        module: string_of_range(&s, m0, m1),
                        args,
                        optional_load: optional,
                        actions: None,
                    };
                    let ghost ev = entry@;
                    assert(pamd_line(line) == Some((s@.subrange(ts as int, t1 as int), ev)));
                    if range_eq_str(&s, ts, t1, "auth") {
                        let ghost prev = cfg.auth@;
                        cfg.auth.push(entry);
                        assert(entries_view(cfg.auth@) =~= entries_view(prev).push(ev));
                    } else if range_eq_str(&s, ts, t1, "account") {
                        let ghost prev = cfg.account@;
                        cfg.account.push(entry);
                        assert(entries_view(cfg.account@) =~= entries_view(prev).push(ev));
                    } else if range_eq_str(&s, ts, t1, "password") {
                        let ghost prev = cfg.password@;
                        cfg.password.push(entry);
                        assert(entries_view(cfg.password@) =~= entries_view(prev).push(ev));
                    } else if range_eq_str(&s, ts, t1, "session") {
                        let ghost prev = cfg.session@;
                        cfg.session.push(entry);
                        assert(entries_view(cfg.session@) =~= entries_view(prev).push(ev));
                    }
                }
            }
        }
        assert(entries_view(cfg.auth@) == pamd_stack(ls.take(i + 1), "auth"@));
        assert(entries_view(cfg.account@) == pamd_stack(ls.take(i + 1), "account"@));
        assert(entries_view(cfg.password@) == pamd_stack(ls.take(i + 1), "password"@));
        assert(entries_view(cfg.session@) == pamd_stack(ls.take(i + 1), "session"@));
        i += 1;
    }
    assert(ls.take(i as int) =~= ls);
    Ok(cfg)
}


/// The file name of a path: what follows its last `/`.
pub open spec fn file_name(p: Seq<char>) -> Seq<char> {
    match crate::text::rindex_of(p, '/') {
        Some(i) => p.skip(i + 1),
        None => p,
    }
}

/// Whether a path's extension (after the last `.` of its file name, a
/// leading `.` not counting) is `toml`.
pub open spec fn is_toml_path(p: Seq<char>) -> bool {
    let f = file_name(p);
    match crate::text::rindex_of(f, '.') {
        Some(i) => i > 0 && f.skip(i + 1) == "toml"@,
        None => false,
    }
}

/// The paths of `ps` that are not `.toml` files, in order.
pub open spec fn without_toml(ps: Seq<Seq<char>>) -> Seq<Seq<char>>
    decreases ps.len(),
{
    if ps.len() == 0 {
        Seq::empty()
    } else {
        let init = without_toml(ps.drop_last());
        if is_toml_path(ps.last()) {
            init
        } else {
            init.push(ps.last())
        }
    }
}

/// The files that may hold the classic configuration of `service`
/// (lower-cased), before `.toml` files are left out: in `confdir` if given
/// (the name, then the name with `.toml`), then `pam.d` and
/// `legacy-pamd` under the installation prefix, then the same under `/etc`.
pub open spec fn raw_candidates(name: Seq<char>, confdir: Option<Seq<char>>, prefix: Seq<char>) -> Seq<Seq<char>> {
    let tail = seq![
        prefix + "/etc/pam.d/"@ + name,
        prefix + "/etc/elevate-pam/legacy-pamd/"@ + name,
        "/etc/pam.d/"@ + name,
        "/etc/elevate-pam/legacy-pamd/"@ + name,
    ];
    match confdir {
        Some(d) => seq![
            crate::loader::path_join(d, name),
            crate::loader::path_join(d, name + ".toml"@),
        ] + tail,
        None => tail,
    }
}

fn is_toml_file(p: &str) -> (r: bool)
    ensures
        r == is_toml_path(p@),
{
    let v = chars_of(p);
    assert(v@.subrange(0, v@.len() as int) =~= v@);
    proof {
        crate::text::lemma_rindex_of(v@, '/');
    }
    let start = match crate::text::rfind_char(&v, 0, v.len(), '/') {
        Some(i) => i + 1,
        None => 0,
    };
    let ghost f = v@.subrange(start as int, v@.len() as int);
    assert(f == file_name(p@));
    proof {
        crate::text::lemma_rindex_of(f, '.');
    }
    match crate::text::rfind_char(&v, start, v.len(), '.') {
        Some(i) => {
            assert(f.skip(i - start + 1) =~= v@.subrange(i + 1, v@.len() as int));
            i > start && range_eq_str(&v, i + 1, v.len(), "toml")
        },
        None => false,
    }
}

/// The files that may hold the classic configuration of `service`, in the
/// order they are tried (`.toml` files left out).
pub fn candidate_paths(service: &str, confdir: Option<&str>, prefix: &str) -> (r: Vec<String>)
    ensures
        crate::config::strings_view(r@) == without_toml(
            raw_candidates(
                crate::text::lower(service@),
                match confdir {
                    Some(d) => Some(d@),
                    None => None,
                },
                prefix@,
            ),
        ),
{
    let sv = chars_of(service);
    let lname = crate::text::lower_all(&sv);
    let name = crate::text::string_of(&lname);
    let mut raw: Vec<String> = Vec::new();
    match confdir {
        Some(d) => {
            raw.push(crate::loader::join_path(d, name.as_str()));
            let with_ext = crate::text::concat(name.as_str(), ".toml");
            raw.push(crate::loader::join_path(d, with_ext.as_str()));
        },
        None => {},
    }
    let mut p1 = crate::text::concat(prefix, "/etc/pam.d/");
    crate::text::push_str(&mut p1, name.as_str());
    raw.push(p1);
    let mut p2 = crate::text::concat(prefix, "/etc/elevate-pam/legacy-pamd/");
    crate::text::push_str(&mut p2, name.as_str());
    raw.push(p2);
    raw.push(crate::text::concat("/etc/pam.d/", name.as_str()));
    raw.push(crate::text::concat("/etc/elevate-pam/legacy-pamd/", name.as_str()));
    let ghost rv = crate::config::strings_view(raw@);
    assert(rv =~= raw_candidates(
        crate::text::lower(service@),
        match confdir {
            Some(d) => Some(d@),
            None => None,
        },
        prefix@,
    ));
    let mut out: Vec<String> = Vec::new();
    let mut k: usize = 0;
    assert(rv.take(0) =~= Seq::<Seq<char>>::empty());
    assert(crate::config::strings_view(out@) =~= without_toml(rv.take(0)));
    while k < raw.len()
        invariant
            k <= raw@.len(),
            rv == crate::config::strings_view(raw@),
            crate::config::strings_view(out@) == without_toml(rv.take(k as int)),
        decreases raw@.len() - k,
    {
        assert(rv.take(k + 1).drop_last() =~= rv.take(k as int));
        assert(rv.take(k + 1).last() == raw@[k as int]@);
        if !is_toml_file(raw[k].as_str()) {
            let c = raw[k].clone();
            let ghost prev = out@;
            out.push(c);
            assert(crate::config::strings_view(out@) =~= crate::config::strings_view(prev).push(
                c@,
            ));
        }
        k += 1;
    }
    assert(rv.take(k as int) =~= rv);
    out
}

} // verus!
