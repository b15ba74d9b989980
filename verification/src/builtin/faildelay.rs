//! `pam_faildelay`: the failure delay that the arguments set.

use vstd::prelude::*;

use crate::config::strings_view;
use crate::text::{chars_of, parse_unsigned, parse_unsigned_range, range_starts_with, strip_prefix};

verus! {

/// The delay in microseconds that `delay=` arguments set: the last one
/// whose value reads as a `u32`, or two seconds.
pub open spec fn delay_of(args: Seq<Seq<char>>) -> u32
    decreases args.len(),
{
    if args.len() == 0 {
        2_000_000
    } else {
        let init = delay_of(args.drop_last());
        match strip_prefix(args.last(), "delay="@) {
            Some(v) => match parse_unsigned(v, u32::MAX as int) {
                Some(d) => d as u32,
                None => init,
            },
            None => init,
        }
    }
}

/// The delay to wait, in microseconds.
pub fn delay_from_args(args: &[String]) -> (r: u32)
    ensures
        r == delay_of(strings_view(args@)),
{
    let p = chars_of("delay=");
    proof {
        reveal_strlit("delay=");
    }
    let ghost views = strings_view(args@);
    let mut delay: u32 = 2_000_000;
    let mut i: usize = 0;
    assert(views.take(0) =~= Seq::<Seq<char>>::empty());
    while i < args.len()
        invariant
            i <= args@.len(),
            views == strings_view(args@),
            p@ == "delay="@,
            p@.len() == 6,
            delay == delay_of(views.take(i as int)),
        decreases args@.len() - i,
    {
        let a = chars_of(args[i].as_str());
        assert(views.take(i + 1).drop_last() =~= views.take(i as int));
        assert(views.take(i + 1).last() == a@);
        assert(a@.subrange(0, a@.len() as int) =~= a@);
        if range_starts_with(&a, 0, a.len(), &p) {
            assert(a@.skip(6) =~= a@.subrange(6, a@.len() as int));
            match parse_unsigned_range(&a, 6, a.len(), u32::MAX as u64) {
                Some(d) => {
                    delay = d as u32;
                },
                None => {},
            }
        }
        i += 1;
    }
    assert(views.take(i as int) =~= views);
    delay
}

} // verus!
