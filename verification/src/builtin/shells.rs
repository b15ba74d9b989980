//! `pam_shells`: the user's shell must be listed in the shells file.

use vstd::prelude::*;

use crate::constants::{PAM_AUTH_ERR, PAM_SUCCESS};
use crate::text::{chars_of, line_ranges, lines, pieces_of, range_eq, ranges_within, trim, trim_range};

verus! {

/// Whether one line of the shells file names `shell`: trimmed, not a
/// comment, and equal to it.
pub open spec fn line_names_shell(line: Seq<char>, shell: Seq<char>) -> bool {
    let l = trim(line);
    !(l.len() > 0 && l[0] == '#') && l == shell
}

/// Whether the shells file text (`None`: unreadable) lists `shell`.
pub open spec fn shell_listed(file: Option<Seq<char>>, shell: Seq<char>) -> bool {
    match file {
        None => false,
        Some(text) => shell_in(text, shell),
    }
}

/// Whether some line of the shells file text names `shell`.
pub open spec fn shell_in(text: Seq<char>, shell: Seq<char>) -> bool {
    exists|i: int| 0 <= i < lines(text).len() && #[trigger] line_names_shell(lines(text)[i], shell)
}

/// The status of the module: success when the user's shell (`None`: no
/// such user, or no shell recorded) is listed.
pub fn check_shell(shell: Option<&str>, file: Option<&str>) -> (r: i32)
    ensures
        r == match shell {
            None => PAM_AUTH_ERR,
            Some(sh) => if shell_listed(
                match file {
                    Some(f) => Some(f@),
                    None => None,
                },
                sh@,
            ) {
                PAM_SUCCESS
            } else {
                PAM_AUTH_ERR
            },
        },
{
    let sh = match shell {
        Some(sh) => sh,
        None => return PAM_AUTH_ERR,
    };
    let text = match file {
        Some(t) => t,
        None => return PAM_AUTH_ERR,
    };
    let want = chars_of(sh);
    let s = chars_of(text);
    let lr = line_ranges(&s);
    let ghost ls = lines(s@);
    let mut i: usize = 0;
    while i < lr.len()
        invariant
            i <= lr@.len(),
            ranges_within(lr@, 0, s@.len() as int),
            pieces_of(s@, lr@) == ls,
            ls == lines(text@),
            file == Some(text),
            shell == Some(sh),
            want@ == sh@,
            forall|j: int| 0 <= j < i ==> !#[trigger] line_names_shell(ls[j], sh@),
        decreases lr@.len() - i,
    {
        let (a, b) = lr[i];
        assert(ls[i as int] == s@.subrange(a as int, b as int));
        let (c, d) = trim_range(&s, a, b);
        let commented = c < d && s[c] == '#';
        if !commented && range_eq(&s, c, d, &want) {
            assert(line_names_shell(ls[i as int], sh@));
            assert(line_names_shell(lines(text@)[i as int], sh@));
            assert(ls.len() == lr@.len());
            assert(0 <= i < lines(text@).len());
            assert(shell_in(text@, sh@));
            return PAM_SUCCESS;
        }
        i += 1;
    }
    PAM_AUTH_ERR
}

} // verus!
