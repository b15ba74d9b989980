//! `pam_securetty`: root may only log in on the ttys listed in the
//! securetty file.

use vstd::prelude::*;

use crate::constants::{PAM_AUTH_ERR, PAM_SUCCESS};
use crate::text::{
    chars_of, line_ranges, lines, pieces_of, range_eq, ranges_within, strip_all_prefix,
    strip_all_prefix_range, trim, trim_range,
};

verus! {

/// Whether one securetty line names `tty`: the trimmed line, not blank nor
/// a comment, equals `tty`, or does so once `/dev/` prefixes are removed
/// from both.
pub open spec fn line_names_tty(line: Seq<char>, tty: Seq<char>) -> bool {
    let l = trim(line);
    !(l.len() == 0 || l[0] == '#') && (strip_all_prefix(l, "/dev/"@) == strip_all_prefix(
        tty,
        "/dev/"@,
    ) || l == tty)
}

/// Whether some line of the securetty file text names `tty`.
pub open spec fn tty_listed(text: Seq<char>, tty: Seq<char>) -> bool {
    exists|i: int| 0 <= i < lines(text).len() && #[trigger] line_names_tty(lines(text)[i], tty)
}

/// Whether `tty` is secure under the securetty file text (`None`: there is
/// no such file, and every tty is).
pub open spec fn tty_secure(file: Option<Seq<char>>, tty: Seq<char>) -> bool {
    match file {
        None => true,
        Some(text) => tty_listed(text, tty),
    }
}

/// Whether `tty` is listed in the securetty file text `file`.
pub fn tty_is_secure(tty: &str, file: Option<&str>) -> (r: bool)
    ensures
        r == tty_secure(
            match file {
                Some(t) => Some(t@),
                None => None,
            },
            tty@,
        ),
{
    let text = match file {
        Some(t) => t,
        None => return true,
    };
    let dev = chars_of("/dev/");
    let t = chars_of(tty);
    assert(t@.subrange(0, t@.len() as int) =~= t@);
    let tb = strip_all_prefix_range(&t, 0, t.len(), &dev);
    let s = chars_of(text);
    let lr = line_ranges(&s);
    let ghost ls = lines(s@);
    let mut i: usize = 0;
    while i < lr.len()
        invariant
            i <= lr@.len(),
            ranges_within(lr@, 0, s@.len() as int),
            pieces_of(s@, lr@) == ls,
            ls == lines(text@),
            file == Some(text),
            t@ == tty@,
            dev@ == "/dev/"@,
            tb <= t@.len(),
            t@.subrange(tb as int, t@.len() as int) == strip_all_prefix(tty@, "/dev/"@),
            forall|j: int| 0 <= j < i ==> !#[trigger] line_names_tty(ls[j], tty@),
        decreases lr@.len() - i,
    {
        let (a, b) = lr[i];
        let ghost line = s@.subrange(a as int, b as int);
        assert(ls[i as int] == line);
        let (c, d) = trim_range(&s, a, b);
        if c < d && s[c] != '#' {
            let e = strip_all_prefix_range(&s, c, d, &dev);
            let tail = crate::text::string_of_range(&t, tb, t.len());
            let tail_chars = chars_of(tail.as_str());
            if range_eq(&s, e, d, &tail_chars) || range_eq(&s, c, d, &t) {
                assert(line_names_tty(ls[i as int], tty@));
                assert(line_names_tty(lines(text@)[i as int], tty@));
                assert(ls.len() == lr@.len());
                assert(0 <= i < lines(text@).len());
                assert(tty_listed(text@, tty@));
                return true;
            }
        }
        assert(!line_names_tty(ls[i as int], tty@));
        i += 1;
    }
    false
}

/// The status of the module: users other than root (by name or by uid 0)
/// pass, as do logins without a tty; root passes on a secure tty only.
pub fn check(user: &str, uid_zero: bool, tty: Option<&str>, file: Option<&str>) -> (r: i32)
    ensures
        r == if !(user@ == "root"@ || uid_zero) {
            PAM_SUCCESS
        } else {
            match tty {
                None => PAM_SUCCESS,
                Some(t) => if tty_secure(
                    match file {
                        Some(f) => Some(f@),
                        None => None,
                    },
                    t@,
                ) {
                    PAM_SUCCESS
                } else {
                    PAM_AUTH_ERR
                },
            }
        },
{
    if !crate::text::str_eq(user, "root") && !uid_zero {
        return PAM_SUCCESS;
    }
    match tty {
        None => PAM_SUCCESS,
        Some(t) => if tty_is_secure(t, file) {
            PAM_SUCCESS
        } else {
            PAM_AUTH_ERR
        },
    }
}

} // verus!
