//! The user, group and shadow databases as `pam_modutil` reads them, and
//! its key lookup in configuration files.

use vstd::prelude::*;

use crate::builtin::unix::keep_nonempty;
use crate::config::strings_view;
use crate::text::{
    chars_of, is_ws, line_ranges, lines, parse_signed, parse_signed_range, parse_unsigned,
    parse_unsigned_range, pieces_of, range_eq, ranges_within, split_char, split_ranges, splitn,
    splitn_ranges, string_of_range, trim, trim_range,
};

verus! {

/// One passwd(5) entry.
#[derive(Debug, Clone)]
pub struct PwEntry {
    /// Login name.
    pub name: String,
    /// Password field.
    pub passwd: String,
    /// User id.
    pub uid: u32,
    /// Primary group id.
    pub gid: u32,
    /// Comment field.
    pub gecos: String,
    /// Home directory.
    pub dir: String,
    /// Login shell.
    pub shell: String,
}

/// The entry of one passwd line: seven `:`-separated fields (the last
/// holding the rest of the line) whose uid and gid are numbers.
pub open spec fn passwd_line(line: Seq<char>) -> Option<(Seq<Seq<char>>, u32, u32)> {
    let f = splitn(line, 7, ':');
    if f.len() < 7 {
        None
    } else {
        match (parse_unsigned(f[2], u32::MAX as int), parse_unsigned(f[3], u32::MAX as int)) {
            (Some(uid), Some(gid)) => Some((f, uid as u32, gid as u32)),
            _ => None,
        }
    }
}

/// Whether `e` is the entry of a passwd line with fields `f` and ids
/// `uid`, `gid`.
pub open spec fn pw_matches(e: PwEntry, f: Seq<Seq<char>>, uid: u32, gid: u32) -> bool {
    &&& e.name@ == f[0]
    &&& e.passwd@ == f[1]
    &&& e.uid == uid
    &&& e.gid == gid
    &&& e.gecos@ == f[4]
    &&& e.dir@ == f[5]
    &&& e.shell@ == f[6]
}

/// Which passwd entries a lookup wants.
#[derive(Debug, Clone, Copy)]
pub enum PwKey<'a> {
    /// The entry with this name.
    Name(&'a str),
    /// The entry with this uid.
    Uid(u32),
}

/// Whether a passwd line's entry is the one `key` wants.
pub open spec fn pw_wanted(p: (Seq<Seq<char>>, u32, u32), key: PwKey) -> bool {
    match key {
        PwKey::Name(n) => p.0[0] == n@,
        PwKey::Uid(u) => p.1 == u,
    }
}

/// The first passwd line of `ls` whose entry `key` wants.
pub open spec fn first_passwd(ls: Seq<Seq<char>>, key: PwKey) -> Option<(Seq<Seq<char>>, u32, u32)>
    decreases ls.len(),
{
    if ls.len() == 0 {
        None
    } else {
        match passwd_line(ls[0]) {
            Some(p) => if pw_wanted(p, key) {
                Some(p)
            } else {
                first_passwd(ls.drop_first(), key)
            },
            None => first_passwd(ls.drop_first(), key),
        }
    }
}

/// The first entry of passwd text that `key` wants.
pub fn find_passwd(text: &str, key: PwKey) -> (r: Option<PwEntry>)
    ensures
        match first_passwd(lines(text@), key) {
            Some((f, uid, gid)) => r matches Some(e) && pw_matches(e, f, uid, gid),
            None => r is None,
        },
{
    let s = chars_of(text);
    let lr = line_ranges(&s);
    let ghost ls = lines(s@);
    let mut i: usize = 0;
    assert(ls.skip(0) =~= ls);
    while i < lr.len()
        invariant
            i <= lr@.len(),
            ranges_within(lr@, 0, s@.len() as int),
            pieces_of(s@, lr@) == ls,
            ls == lines(text@),
            first_passwd(ls, key) == first_passwd(ls.skip(i as int), key),
        decreases lr@.len() - i,
    {
        let (a, b) = lr[i];
        let ghost line = s@.subrange(a as int, b as int);
        assert(ls[i as int] == line);
        assert(ls.skip(i as int)[0] == line);
        assert(ls.skip(i as int).drop_first() =~= ls.skip(i + 1));
        let f = splitn_ranges(&s, a, b, 7, ':');
        let ghost fs = splitn(line, 7, ':');
        if f.len() >= 7 {
            let (u0, u1) = f[2];
            let (g0, g1) = f[3];
            assert(fs[2] == s@.subrange(u0 as int, u1 as int));
            assert(fs[3] == s@.subrange(g0 as int, g1 as int));
            let uid = parse_unsigned_range(&s, u0, u1, u32::MAX as u64);
            let gid = parse_unsigned_range(&s, g0, g1, u32::MAX as u64);
            match (uid, gid) {
                (Some(uid), Some(gid)) => {
                    let (n0, n1) = f[0];
                    assert(fs[0] == s@.subrange(n0 as int, n1 as int));
                    let wanted = match key {
                        PwKey::Name(n) => crate::text::range_eq_str(&s, n0, n1, n),
                        PwKey::Uid(u) => uid as u32 == u,
                    };
                    if wanted {
                        let (p0, p1) = f[1];
                        let (c0, c1) = f[4];
                        let (d0, d1) = f[5];
                        let (h0, h1) = f[6];
                        assert(fs[1] == s@.subrange(p0 as int, p1 as int));
                        assert(fs[4] == s@.subrange(c0 as int, c1 as int));
                        assert(fs[5] == s@.subrange(d0 as int, d1 as int));
                        assert(fs[6] == s@.subrange(h0 as int, h1 as int));
                        return Some(
                            PwEntry {
                                name: string_of_range(&s, n0, n1),
                                passwd: string_of_range(&s, p0, p1),
                                uid: uid as u32,
                                gid: gid as u32,
                                gecos: string_of_range(&s, c0, c1),
                                dir: string_of_range(&s, d0, d1),
                                shell: string_of_range(&s, h0, h1),
                            },
                        );
                    }
                },
                _ => {},
            }
        }
        i += 1;
    }
    assert(ls.skip(i as int) =~= Seq::<Seq<char>>::empty());
    None
}

/// One group(5) entry.
#[derive(Debug, Clone)]
pub struct GrEntry {
    /// Group name.
    pub name: String,
    /// Password field.
    pub passwd: String,
    /// Group id.
    pub gid: u32,
    /// Member names.
    pub members: Vec<String>,
}

/// The entry of one group line: four `:`-separated fields (the last
/// holding the rest) whose gid is a number; the members are the non-empty
/// `,`-separated items of the last.
pub open spec fn group_line(line: Seq<char>) -> Option<(Seq<Seq<char>>, u32)> {
    let f = splitn(line, 4, ':');
    if f.len() < 4 {
        None
    } else {
        match parse_unsigned(f[2], u32::MAX as int) {
            Some(gid) => Some((f, gid as u32)),
            None => None,
        }
    }
}

/// Which group entries a lookup wants.
#[derive(Debug, Clone, Copy)]
pub enum GrKey<'a> {
    /// The entry with this name.
    Name(&'a str),
    /// The entry with this gid.
    Gid(u32),
}

/// Whether a group line's entry is the one `key` wants.
pub open spec fn gr_wanted(g: (Seq<Seq<char>>, u32), key: GrKey) -> bool {
    match key {
        GrKey::Name(n) => g.0[0] == n@,
        GrKey::Gid(id) => g.1 == id,
    }
}

/// The first group line of `ls` whose entry `key` wants.
pub open spec fn first_group(ls: Seq<Seq<char>>, key: GrKey) -> Option<(Seq<Seq<char>>, u32)>
    decreases ls.len(),
{
    if ls.len() == 0 {
        None
    } else {
        match group_line(ls[0]) {
            Some(g) => if gr_wanted(g, key) {
                Some(g)
            } else {
                first_group(ls.drop_first(), key)
            },
            None => first_group(ls.drop_first(), key),
        }
    }
}

/// The non-empty `,`-separated names of a members field.
fn member_list(s: &Vec<char>, lo: usize, hi: usize) -> (r: Vec<String>)
    requires
        lo <= hi <= s@.len(),
    ensures
        strings_view(r@) == keep_nonempty(split_char(s@.subrange(lo as int, hi as int), ',')),
{
    let parts = split_ranges(s, lo, hi, ',');
    let ghost ps = split_char(s@.subrange(lo as int, hi as int), ',');
    let mut out: Vec<String> = Vec::new();
    let mut k: usize = 0;
    assert(ps.take(0) =~= Seq::<Seq<char>>::empty());
    assert(strings_view(out@) =~= keep_nonempty(ps.take(0)));
    while k < parts.len()
        invariant
            k <= parts@.len(),
            lo <= hi <= s@.len(),
            ranges_within(parts@, lo as int, hi as int),
            pieces_of(s@, parts@) == ps,
            strings_view(out@) == keep_nonempty(ps.take(k as int)),
        decreases parts@.len() - k,
    {
        let (x, y) = parts[k];
        assert(ps[k as int] == s@.subrange(x as int, y as int));
        assert(ps.take(k + 1).drop_last() =~= ps.take(k as int));
        assert(ps.take(k + 1).last() == ps[k as int]);
        if x < y {
            let m = string_of_range(s, x, y);
            let ghost prev = out@;
            out.push(m);
            assert(strings_view(out@) =~= strings_view(prev).push(m@));
        }
        k += 1;
    }
    assert(ps.take(k as int) =~= ps);
    out
}

/// The first entry of group text that `key` wants.
pub fn find_group(text: &str, key: GrKey) -> (r: Option<GrEntry>)
    ensures
        match first_group(lines(text@), key) {
            Some((f, gid)) => r matches Some(e) && e.name@ == f[0] && e.passwd@ == f[1] && e.gid
                == gid && strings_view(e.members@) == keep_nonempty(split_char(f[3], ',')),
            None => r is None,
        },
{
    let s = chars_of(text);
    let lr = line_ranges(&s);
    let ghost ls = lines(s@);
    let mut i: usize = 0;
    assert(ls.skip(0) =~= ls);
    while i < lr.len()
        invariant
            i <= lr@.len(),
            ranges_within(lr@, 0, s@.len() as int),
            pieces_of(s@, lr@) == ls,
            ls == lines(text@),
            first_group(ls, key) == first_group(ls.skip(i as int), key),
        decreases lr@.len() - i,
    {
        let (a, b) = lr[i];
        let ghost line = s@.subrange(a as int, b as int);
        assert(ls[i as int] == line);
        assert(ls.skip(i as int)[0] == line);
        assert(ls.skip(i as int).drop_first() =~= ls.skip(i + 1));
        let f = splitn_ranges(&s, a, b, 4, ':');
        let ghost fs = splitn(line, 4, ':');
        if f.len() >= 4 {
            let (g0, g1) = f[2];
            assert(fs[2] == s@.subrange(g0 as int, g1 as int));
            match parse_unsigned_range(&s, g0, g1, u32::MAX as u64) {
                Some(gid) => {
                    let (n0, n1) = f[0];
                    assert(fs[0] == s@.subrange(n0 as int, n1 as int));
                    let wanted = match key {
                        GrKey::Name(n) => crate::text::range_eq_str(&s, n0, n1, n),
                        GrKey::Gid(g) => gid as u32 == g,
                    };
                    if wanted {
                        let (p0, p1) = f[1];
                        let (m0, m1) = f[3];
                        assert(fs[1] == s@.subrange(p0 as int, p1 as int));
                        assert(fs[3] == s@.subrange(m0 as int, m1 as int));
                        return Some(
                            GrEntry {
                                name: string_of_range(&s, n0, n1),
                                passwd: string_of_range(&s, p0, p1),
                                gid: gid as u32,
                                members: member_list(&s, m0, m1),
                            },
                        );
                    }
                },
                None => {},
            }
        }
        i += 1;
    }
    assert(ls.skip(i as int) =~= Seq::<Seq<char>>::empty());
    None
}

/// Whether the user of `pw` is in the group of `gr`: it is the user's
/// primary group, or lists the user by name.
pub fn in_group(pw: &PwEntry, gr: &GrEntry) -> (r: bool)
    ensures
        r == (pw.gid == gr.gid || strings_view(gr.members@).contains(pw.name@)),
{
    pw.gid == gr.gid || crate::module::arg_has(gr.members.as_slice(), pw.name.as_str())
}

/// One shadow(5) entry.
#[derive(Debug, Clone)]
pub struct SpEntry {
    /// Login name.
    pub name: String,
    /// Password hash.
    pub pwdp: String,
    /// Day of the last change.
    pub lstchg: i64,
    /// Minimum age.
    pub min: i64,
    /// Maximum age.
    pub max: i64,
    /// Warning period.
    pub warn: i64,
    /// Inactivity period.
    pub inact: i64,
    /// Expiry day.
    pub expire: i64,
    /// Reserved.
    pub flag: u64,
}

/// Field `i` of `f`, or empty when there is none.
pub open spec fn field_at(f: Seq<Seq<char>>, i: int) -> Seq<char> {
    if i < f.len() {
        f[i]
    } else {
        Seq::empty()
    }
}

/// A numeric shadow field: its `i64` value, or -1.
pub open spec fn shadow_num(s: Seq<char>) -> i64 {
    match parse_signed(s, i64::MIN as int, i64::MAX as int) {
        Some(v) => v as i64,
        None => -1i64,
    }
}

/// Whether `e` is the entry of a shadow line with fields `f` (at most nine,
/// the last holding the rest of the line).
pub open spec fn sp_matches(e: SpEntry, f: Seq<Seq<char>>) -> bool {
    &&& e.name@ == f[0]
    &&& e.pwdp@ == f[1]
    &&& e.lstchg == shadow_num(field_at(f, 2))
    &&& e.min == shadow_num(field_at(f, 3))
    &&& e.max == shadow_num(field_at(f, 4))
    &&& e.warn == shadow_num(field_at(f, 5))
    &&& e.inact == shadow_num(field_at(f, 6))
    &&& e.expire == shadow_num(field_at(f, 7))
    &&& e.flag == match parse_unsigned(field_at(f, 8), u64::MAX as int) {
        Some(v) => v as u64,
        None => 0u64,
    }
}

/// The first line of `ls` with at least two fields whose name is `name`.
pub open spec fn first_shadow(ls: Seq<Seq<char>>, name: Seq<char>) -> Option<Seq<Seq<char>>>
    decreases ls.len(),
{
    if ls.len() == 0 {
        None
    } else {
        let f = splitn(ls[0], 9, ':');
        if f.len() >= 2 && f[0] == name {
            Some(f)
        } else {
            first_shadow(ls.drop_first(), name)
        }
    }
}

fn shadow_field(s: &Vec<char>, f: &Vec<(usize, usize)>, i: usize, lo: usize, hi: usize) -> (r: i64)
    requires
        lo <= hi <= s@.len(),
        ranges_within(f@, lo as int, hi as int),
    ensures
        r == shadow_num(field_at(pieces_of(s@, f@), i as int)),
{
    if i < f.len() {
        let (x, y) = f[i];
        match parse_signed_range(s, x, y, i64::MIN, i64::MAX) {
            Some(v) => v,
            None => -1,
        }
    } else {
        let e: Vec<char> = Vec::new();
        assert(e@.subrange(0, 0) =~= Seq::<char>::empty());
        match parse_signed_range(&e, 0, 0, i64::MIN, i64::MAX) {
            Some(v) => v,
            None => -1,
        }
    }
}

/// The entry named `name` in shadow text.
pub fn find_shadow(text: &str, name: &str) -> (r: Option<SpEntry>)
    ensures
        match first_shadow(lines(text@), name@) {
            Some(f) => r matches Some(e) && sp_matches(e, f),
            None => r is None,
        },
{
    let s = chars_of(text);
    let lr = line_ranges(&s);
    let ghost ls = lines(s@);
    let mut i: usize = 0;
    assert(ls.skip(0) =~= ls);
    while i < lr.len()
        invariant
            i <= lr@.len(),
            ranges_within(lr@, 0, s@.len() as int),
            pieces_of(s@, lr@) == ls,
            ls == lines(text@),
            first_shadow(ls, name@) == first_shadow(ls.skip(i as int), name@),
        decreases lr@.len() - i,
    {
        let (a, b) = lr[i];
        let ghost line = s@.subrange(a as int, b as int);
        assert(ls[i as int] == line);
        assert(ls.skip(i as int)[0] == line);
        assert(ls.skip(i as int).drop_first() =~= ls.skip(i + 1));
        let f = splitn_ranges(&s, a, b, 9, ':');
        let ghost fs = splitn(line, 9, ':');
        if f.len() >= 2 {
            let (n0, n1) = f[0];
            assert(fs[0] == s@.subrange(n0 as int, n1 as int));
            if crate::text::range_eq_str(&s, n0, n1, name) {
                let (p0, p1) = f[1];
                assert(fs[1] == s@.subrange(p0 as int, p1 as int));
                let flag: u64 = if 8 < f.len() {
                    let (x, y) = f[8];
                    match parse_unsigned_range(&s, x, y, u64::MAX) {
                        Some(v) => v,
                        None => 0,
                    }
                } else {
                    0
                };
                proof {
                    if f@.len() <= 8 {
                        assert(field_at(fs, 8) == Seq::<char>::empty());
                        assert(parse_unsigned(Seq::<char>::empty(), u64::MAX as int) is None);
                    }
                }
                return Some(
                    SpEntry {
                        name: string_of_range(&s, n0, n1),
                        pwdp: string_of_range(&s, p0, p1),
                        lstchg: shadow_field(&s, &f, 2, a, b),
                        min: shadow_field(&s, &f, 3, a, b),
                        max: shadow_field(&s, &f, 4, a, b),
                        warn: shadow_field(&s, &f, 5, a, b),
                        inact: shadow_field(&s, &f, 6, a, b),
                        expire: shadow_field(&s, &f, 7, a, b),
                        flag,
                    },
                );
            }
        }
        i += 1;
    }
    assert(ls.skip(i as int) =~= Seq::<Seq<char>>::empty());
    None
}

/// The value of `key` in a whitespace-separated configuration line: the
/// trimmed line, not blank nor a comment, is `key`, then whitespace, then
/// the value (trimmed; empty when nothing follows).
pub open spec fn key_value(line: Seq<char>, key: Seq<char>) -> Option<Seq<char>> {
    let l = trim(line);
    if l.len() == 0 || l[0] == '#' {
        None
    } else {
        let n = first_ws(l);
        if l.take(n) == key {
            Some(
                if n < l.len() {
                    trim(l.skip(n + 1))
                } else {
                    Seq::empty()
                },
            )
        } else {
            None
        }
    }
}

/// The position of the first whitespace in `s`, or its length.
pub open spec fn first_ws(s: Seq<char>) -> int
    decreases s.len(),
{
    if s.len() == 0 {
        0
    } else if is_ws(s[0]) {
        0
    } else {
        1 + first_ws(s.drop_first())
    }
}

/// Whether some line of a passwd-format file names `user` as its first
/// `:`-separated field.
pub open spec fn lists_user(ls: Seq<Seq<char>>, user: Seq<char>) -> bool {
    exists|i: int| 0 <= i < ls.len() && split_char(#[trigger] ls[i], ':')[0] == user
}

/// Whether the passwd-format `text` lists `user` (the first field of a line).
pub fn user_in_passwd_text(text: &str, user: &str) -> (r: bool)
    ensures
        r == lists_user(lines(text@), user@),
{
    let s = chars_of(text);
    let u = chars_of(user);
    let lr = line_ranges(&s);
    let ghost ls = lines(s@);
    let mut i: usize = 0;
    while i < lr.len()
        invariant
            i <= lr@.len(),
            ranges_within(lr@, 0, s@.len() as int),
            pieces_of(s@, lr@) == ls,
            ls == lines(text@),
            u@ == user@,
            forall|j: int| 0 <= j < i ==> split_char(#[trigger] ls[j], ':')[0] != user@,
        decreases lr@.len() - i,
    {
        let (a, b) = lr[i];
        let ghost line = s@.subrange(a as int, b as int);
        assert(ls[i as int] == line);
        let fr = split_ranges(&s, a, b, ':');
        proof {
            crate::text::lemma_split_char_nonempty(line, ':');
        }
        let (f0, f1) = fr[0];
        assert(split_char(line, ':')[0] == s@.subrange(f0 as int, f1 as int));
        if range_eq(&s, f0, f1, &u) {
            return true;
        }
        i += 1;
    }
    false
}

/// The value of `key` on the first line of `ls` that gives one.
pub open spec fn search_key(ls: Seq<Seq<char>>, key: Seq<char>) -> Option<Seq<char>>
    decreases ls.len(),
{
    if ls.len() == 0 {
        None
    } else {
        match key_value(ls[0], key) {
            Some(v) => Some(v),
            None => search_key(ls.drop_first(), key),
        }
    }
}

proof fn lemma_first_ws(s: Seq<char>)
    ensures
        0 <= first_ws(s) <= s.len(),
        first_ws(s) < s.len() ==> is_ws(s[first_ws(s)]),
        forall|j: int| 0 <= j < first_ws(s) ==> !is_ws(#[trigger] s[j]),
    decreases s.len(),
{
    if s.len() > 0 && !is_ws(s[0]) {
        lemma_first_ws(s.drop_first());
        assert forall|j: int| 0 <= j < first_ws(s) implies !is_ws(#[trigger] s[j]) by {
            if j > 0 {
                assert(s[j] == s.drop_first()[j - 1]);
            }
        }
    }
}

proof fn lemma_first_ws_at(s: Seq<char>, n: int)
    requires
        0 <= n <= s.len(),
        n < s.len() ==> is_ws(s[n]),
        forall|j: int| 0 <= j < n ==> !is_ws(#[trigger] s[j]),
    ensures
        first_ws(s) == n,
{
    lemma_first_ws(s);
    if first_ws(s) < n {
        assert(!is_ws(s[first_ws(s)]));
    } else if first_ws(s) > n {
        assert(!is_ws(s[n]));
    }
}

/// The value of `key` in a whitespace-separated configuration file text.
pub fn search_key_in(text: &str, key: &str) -> (r: Option<String>)
    ensures
        match search_key(lines(text@), key@) {
            Some(v) => r matches Some(x) && x@ == v,
            None => r is None,
        },
{
    let s = chars_of(text);
    let k = chars_of(key);
    let lr = line_ranges(&s);
    let ghost ls = lines(s@);
    let mut i: usize = 0;
    assert(ls.skip(0) =~= ls);
    while i < lr.len()
        invariant
            i <= lr@.len(),
            ranges_within(lr@, 0, s@.len() as int),
            pieces_of(s@, lr@) == ls,
            ls == lines(text@),
            k@ == key@,
            search_key(ls, key@) == search_key(ls.skip(i as int), key@),
        decreases lr@.len() - i,
    {
        let (a, b) = lr[i];
        let ghost line = s@.subrange(a as int, b as int);
        assert(ls[i as int] == line);
        assert(ls.skip(i as int)[0] == line);
        assert(ls.skip(i as int).drop_first() =~= ls.skip(i + 1));
        let (c, d) = trim_range(&s, a, b);
        let ghost l = s@.subrange(c as int, d as int);
        if c < d && s[c] != '#' {
            let mut n = c;
            while n < d && !crate::text::is_whitespace(s[n])
                invariant
                    c <= n <= d <= s@.len(),
                    forall|j: int| c <= j < n ==> !is_ws(#[trigger] s@[j]),
                decreases d - n,
            {
                n += 1;
            }
            proof {
                assert forall|j: int| 0 <= j < n - c implies !is_ws(#[trigger] l[j]) by {
                    assert(l[j] == s@[c + j]);
                }
                if n < d {
                    assert(l[n - c] == s@[n as int]);
                }
                lemma_first_ws_at(l, n - c);
            }
            assert(l.take(n - c) =~= s@.subrange(c as int, n as int));
            if range_eq(&s, c, n, &k) {
                if n < d {
                    assert(l.skip(n - c + 1) =~= s@.subrange(n + 1, d as int));
                    let (x, y) = trim_range(&s, n + 1, d);
                    return Some(string_of_range(&s, x, y));
                }
                return Some(String::new());
            }
        }
        i += 1;
    }
    assert(ls.skip(i as int) =~= Seq::<Seq<char>>::empty());
    None
}

} // verus!
