//! `pam_usertype`: regular or system user, by uid.

use vstd::prelude::*;

use crate::config::strings_view;
use crate::constants::{PAM_AUTH_ERR, PAM_SUCCESS};

verus! {

/// Uids below this belong to system users.
pub const FIRST_REGULAR_UID: u32 = 1000;

/// The status for a user with uid `uid` (`None`: unknown user) against the
/// first argument (`system`/`sys`, `regular`/`normal`, default `regular`;
/// any other word passes).
pub fn check_usertype(uid: Option<u32>, args: &[String]) -> (r: i32)
    ensures
        r == match uid {
            None => PAM_AUTH_ERR,
            Some(u) => {
                let is_sys = u < FIRST_REGULAR_UID;
                let t = if args@.len() > 0 {
                    strings_view(args@)[0]
                } else {
                    "regular"@
                };
                if (t == "system"@ || t == "sys"@) {
                    if is_sys {
                        PAM_SUCCESS
                    } else {
                        PAM_AUTH_ERR
                    }
                } else if (t == "regular"@ || t == "normal"@) {
                    if !is_sys {
                        PAM_SUCCESS
                    } else {
                        PAM_AUTH_ERR
                    }
                } else {
                    PAM_SUCCESS
                }
            },
        },
{
    let u = match uid {
        Some(u) => u,
        None => return PAM_AUTH_ERR,
    };
    let is_sys = u < FIRST_REGULAR_UID;
    let t: &str = if args.len() > 0 {
        args[0].as_str()
    } else {
        "regular"
    };
    let ok = if crate::text::str_eq(t, "system") || crate::text::str_eq(t, "sys") {
        is_sys
    } else if crate::text::str_eq(t, "regular") || crate::text::str_eq(t, "normal") {
        !is_sys
    } else {
        true
    };
    if ok {
        PAM_SUCCESS
    } else {
        PAM_AUTH_ERR
    }
}

} // verus!
