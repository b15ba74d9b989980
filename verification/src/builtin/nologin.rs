//! `pam_nologin`: while the nologin file exists, only root may log in.

use vstd::prelude::*;

use crate::constants::{PAM_AUTH_ERR, PAM_SUCCESS};

verus! {

/// Outcome: success without a nologin file or for root (by name or by
/// uid 0), refusal otherwise.
pub fn nologin_status(file_exists: bool, is_root: bool) -> (r: i32)
    ensures
        r == if !file_exists || is_root {
            PAM_SUCCESS
        } else {
            PAM_AUTH_ERR
        },
{
    if !file_exists || is_root {
        PAM_SUCCESS
    } else {
        PAM_AUTH_ERR
    }
}

} // verus!
