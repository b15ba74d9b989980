//! `pam_wheel`: require (or, with `deny`, forbid) membership in a group.

use vstd::prelude::*;

use crate::config::strings_view;
use crate::constants::{PAM_AUTH_ERR, PAM_PERM_DENIED, PAM_SUCCESS, PAM_USER_UNKNOWN};
use crate::module::{arg_has, arg_value, first_value};

verus! {

/// The group named by `group=`, or `wheel`.
pub fn group_name(args: &[String]) -> (r: &str)
    ensures
        r@ == match first_value(strings_view(args@), "group"@) {
            Some(g) => g,
            None => "wheel"@,
        },
{
    match arg_value(args, "group") {
        Some(g) => g,
        None => "wheel",
    }
}

/// Whether `user` is in the group: `None` when the user is unknown
/// (`user_gid` is `None`); a missing group (`group_gid` `None`) has no
/// members; otherwise the group is the user's primary group or lists
/// `user` among `members`.
pub fn is_group_member(
    user: &str,
    user_gid: Option<u32>,
    group_gid: Option<u32>,
    members: &[String],
) -> (r: Option<bool>)
    ensures
        r == match user_gid {
            None => None,
            Some(ug) => Some(
                match group_gid {
                    None => false,
                    Some(gg) => gg == ug || strings_view(members@).contains(user@),
                },
            ),
        },
{
    let ug = match user_gid {
        Some(g) => g,
        None => return None,
    };
    match group_gid {
        None => Some(false),
        Some(gg) => {
            if gg == ug {
                Some(true)
            } else {
                Some(arg_has(members, user))
            }
        },
    }
}

/// Outcome: an unknown user is `PAM_USER_UNKNOWN`; with `deny`,
/// members are refused; otherwise only members pass.
pub fn wheel_status(member: Option<bool>, args: &[String]) -> (r: i32)
    ensures
        r == match member {
            None => PAM_USER_UNKNOWN,
            Some(m) => if strings_view(args@).contains("deny"@) {
                if m {
                    PAM_PERM_DENIED
                } else {
                    PAM_SUCCESS
                }
            } else if m {
                PAM_SUCCESS
            } else {
                PAM_AUTH_ERR
            },
        },
{
    let deny = arg_has(args, "deny");
    match member {
        None => PAM_USER_UNKNOWN,
        Some(m) => if deny {
            if m {
                PAM_PERM_DENIED
            } else {
                PAM_SUCCESS
            }
        } else if m {
            PAM_SUCCESS
        } else {
            PAM_AUTH_ERR
        },
    }
}

} // verus!
