//! `pam_mkhomedir`: the mode a new home directory gets.

use vstd::prelude::*;

use crate::config::strings_view;
use crate::module::{arg_value, first_value};
use crate::text::{chars_of, parse_octal_u32, parse_octal_u32_range};

verus! {

/// The umask of the `umask=` argument (octal), or 022.
pub open spec fn home_umask(args: Seq<Seq<char>>) -> u32 {
    match first_value(args, "umask"@) {
        Some(v) => match parse_octal_u32(v) {
            Some(m) => m as u32,
            None => 0o022,
        },
        None => 0o022,
    }
}

/// The umask that a new home directory is created with.
pub fn home_umask_of(args: &[String]) -> (r: u32)
    ensures
        r == home_umask(strings_view(args@)),
{
    match arg_value(args, "umask") {
        Some(v) => {
            let cs = chars_of(v);
            assert(cs@.subrange(0, cs@.len() as int) =~= cs@);
            match parse_octal_u32_range(&cs, 0, cs.len()) {
                Some(m) => m,
                None => 0o022,
            }
        },
        None => 0o022,
    }
}

/// The mode of a new home directory: 0777 without the bits of the umask.
pub fn home_mode(args: &[String]) -> (r: u32)
    ensures
        r == 0o777 & !home_umask(strings_view(args@)),
{
    0o777 & !home_umask_of(args)
}

} // verus!
