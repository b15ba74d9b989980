//! `pam_echo`: the message it prints.

use vstd::prelude::*;

use crate::config::strings_view;
use crate::text::{join, push_joined};

verus! {

/// The arguments joined by single spaces; nothing is printed when empty.
pub fn echo_text(args: &[String]) -> (r: String)
    ensures
        r@ == join(strings_view(args@), seq![' ']),
{
    let mut out = String::new();
    push_joined(&mut out, args, ' ');
    assert(out@ =~= join(strings_view(args@), seq![' ']));
    out
}

} // verus!
