//! `pam_umask`: the process umask that the arguments set.

use vstd::prelude::*;

use crate::config::strings_view;
use crate::text::{chars_of, parse_octal_u32, parse_octal_u32_range, range_starts_with, strip_prefix};

verus! {

/// The umask that `umask=` arguments set: the last one whose value reads
/// as an octal `u32`, or 022.
pub open spec fn umask_of(args: Seq<Seq<char>>) -> u32
    decreases args.len(),
{
    if args.len() == 0 {
        0o022
    } else {
        let init = umask_of(args.drop_last());
        match strip_prefix(args.last(), "umask="@) {
            Some(v) => match parse_octal_u32(v) {
                Some(m) => m as u32,
                None => init,
            },
            None => init,
        }
    }
}

/// The umask to set for the session.
pub fn umask_from_args(args: &[String]) -> (r: u32)
    ensures
        r == umask_of(strings_view(args@)),
{
    let p = chars_of("umask=");
    proof {
        reveal_strlit("umask=");
    }
    let ghost views = strings_view(args@);
    let mut mask: u32 = 0o022;
    let mut i: usize = 0;
    assert(views.take(0) =~= Seq::<Seq<char>>::empty());
    while i < args.len()
        invariant
            i <= args@.len(),
            views == strings_view(args@),
            p@ == "umask="@,
            p@.len() == 6,
            mask == umask_of(views.take(i as int)),
        decreases args@.len() - i,
    {
        let a = chars_of(args[i].as_str());
        assert(views.take(i + 1).drop_last() =~= views.take(i as int));
        assert(views.take(i + 1).last() == a@);
        assert(a@.subrange(0, a@.len() as int) =~= a@);
        if range_starts_with(&a, 0, a.len(), &p) {
            assert(a@.skip(6) =~= a@.subrange(6, a@.len() as int));
            match parse_octal_u32_range(&a, 6, a.len()) {
                Some(m) => {
                    mask = m;
                },
                None => {},
            }
        }
        i += 1;
    }
    assert(views.take(i as int) =~= views);
    mask
}

} // verus!
