//! `pam_warn` and `pam_debug`: the lines they log.

use vstd::prelude::*;

use crate::config::strings_view;
use crate::text::{join, push_joined, push_str};

verus! {

/// The user shown in log lines: the user, or `unknown`.
pub open spec fn shown_user(user: Option<Seq<char>>) -> Seq<char> {
    match user {
        Some(u) => u,
        None => "unknown"@,
    }
}

/// The warning logged for a call: `pam_warn: service=S user=U`.
pub fn warn_message(service: &str, user: Option<&str>) -> (r: String)
    ensures
        r@ == "pam_warn: service="@ + service@ + " user="@ + shown_user(
            match user {
                Some(u) => Some(u@),
                None => None,
            },
        ),
{
    let mut out = String::new();
    push_str(&mut out, "pam_warn: service=");
    push_str(&mut out, service);
    push_str(&mut out, " user=");
    match user {
        Some(u) => push_str(&mut out, u),
        None => push_str(&mut out, "unknown"),
    }
    out
}

/// The debug line logged for a call: `pam_debug: service=S user=U
/// extra=[ARGS]`, the arguments joined by spaces.
pub fn debug_message(service: &str, user: Option<&str>, args: &[String]) -> (r: String)
    ensures
        r@ == "pam_debug: service="@ + service@ + " user="@ + shown_user(
            match user {
                Some(u) => Some(u@),
                None => None,
            },
        ) + " extra=["@ + join(strings_view(args@), seq![' ']) + "]"@,
{
    let mut out = String::new();
    push_str(&mut out, "pam_debug: service=");
    push_str(&mut out, service);
    push_str(&mut out, " user=");
    match user {
        Some(u) => push_str(&mut out, u),
        None => push_str(&mut out, "unknown"),
    }
    push_str(&mut out, " extra=[");
    push_joined(&mut out, args, ' ');
    push_str(&mut out, "]");
    assert(strings_view(args@) =~= args@.map_values(|x: String| x@));
    out
}

} // verus!
