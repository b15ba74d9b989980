//! `pam_tally2`: the legacy failed-login counter (`pam_tally2(8)`).
//!
//! `authenticate` checks the limit and then counts the attempt; `acct_mgmt`,
//! reached only once the whole stack succeeded, resets the count.  The tally
//! is read and written by the caller; what to do with it is decided here.

use vstd::prelude::*;

use crate::builtin::faillock::num_or;
use crate::builtin::tally::{recent, retain_recent, TallyAction};
use crate::config::strings_view;
use crate::module::{arg_has, arg_number, arg_u64, arg_value, first_value};

verus! {

/// Options of the module.
#[derive(Debug, Clone)]
pub struct Opts {
    /// Counted attempts that lock the account; 0 never locks (`deny=`, 3).
    pub deny: u32,
    /// Seconds after which an attempt stops counting; 0 keeps every attempt
    /// (`unlock_time=`, 0).
    pub unlock_time: u64,
    /// The same for root, when given (`root_unlock_time=`).
    pub root_unlock_time: Option<u64>,
    /// Lock root too (`even_deny_root` or `no_magic_root`).
    pub even_deny_root: bool,
    /// Tally directory (`dir=`, else the configured one).
    pub dir: String,
}

/// Parse the module arguments; `default_dir` is the configured tally
/// directory.
pub fn parse_opts(args: &[String], default_dir: &str) -> (r: Opts)
    ensures
        r.deny == num_or(strings_view(args@), "deny"@, u32::MAX as int, 3),
        r.unlock_time == num_or(strings_view(args@), "unlock_time"@, u64::MAX as int, 0),
        r.root_unlock_time == match arg_number(
            strings_view(args@),
            "root_unlock_time"@,
            u64::MAX as int,
        ) {
            Some(v) => Some(v as u64),
            None => None::<u64>,
        },
        r.even_deny_root == (strings_view(args@).contains("even_deny_root"@) || strings_view(
            args@,
        ).contains("no_magic_root"@)),
        r.dir@ == match first_value(strings_view(args@), "dir"@) {
            Some(d) => d,
            None => default_dir@,
        },
{
    let deny = match arg_u64(args, "deny", u32::MAX as u64) {
        Some(v) => v as u32,
        None => 3,
    };
    let unlock_time = match arg_u64(args, "unlock_time", u64::MAX) {
        Some(v) => v,
        None => 0,
    };
    let root_unlock_time = arg_u64(args, "root_unlock_time", u64::MAX);
    let dir = match arg_value(args, "dir") {
        Some(d) => crate::text::owned(d),
        None => crate::text::owned(default_dir),
    };
    let even_deny_root = arg_has(args, "even_deny_root") || arg_has(args, "no_magic_root");
    Opts { deny, unlock_time, root_unlock_time, even_deny_root, dir }
}

/// The attempts of `tally` that still count at `now`.
pub open spec fn counted(tally: Seq<u64>, now: u64, unlock: u64) -> Seq<u64> {
    if unlock > 0 {
        recent(tally, now, unlock)
    } else {
        tally
    }
}

/// What `authenticate` does with `user`'s tally at `now`.  With `reset` the
/// tally is cleared; without a user nothing happens; root is left alone
/// without `even_deny_root`.  Otherwise the attempts that still count lock
/// the account when there are `deny` of them (and `deny` is not 0), and else
/// the attempt is recorded after them.
pub fn check_and_increment(
    opts: &Opts,
    user: Option<&str>,
    reset: bool,
    now: u64,
    tally: &Vec<u64>,
) -> (r: TallyAction)
    ensures
        reset ==> r is Clear,
        !reset && user is None ==> r is Allow,
        !reset && user is Some ==> ({
            let is_root = user.unwrap()@ == "root"@;
            let unlock = if is_root {
                match opts.root_unlock_time {
                    Some(t) => t,
                    None => opts.unlock_time,
                }
            } else {
                opts.unlock_time
            };
            let p = counted(tally@, now, unlock);
            if is_root && !opts.even_deny_root {
                r is Allow
            } else if opts.deny > 0 && (p.len() as u32) >= opts.deny {
                r matches TallyAction::Lock(n) && n == p.len()
            } else {
                r matches TallyAction::Record(v) && v@ == p.push(now)
            }
        }),
{
    if reset {
        return TallyAction::Clear;
    }
    let u = match user {
        Some(u) => u,
        None => return TallyAction::Allow,
    };
    let is_root = crate::text::str_eq(u, "root");
    let unlock = if is_root {
        match opts.root_unlock_time {
            Some(t) => t,
            None => opts.unlock_time,
        }
    } else {
        opts.unlock_time
    };
    if is_root && !opts.even_deny_root {
        return TallyAction::Allow;
    }
    let mut p = if unlock > 0 {
        retain_recent(tally, now, unlock)
    } else {
        crate::builtin::tally::copy_entries(tally)
    };
    if opts.deny > 0 && (p.len() as u32) >= opts.deny {
        return TallyAction::Lock(p.len());
    }
    p.push(now);
    TallyAction::Record(p)
}

/// What `acct_mgmt` does: clear the tally of the user, if there is one.
pub fn reset_on_success(user: Option<&str>) -> (r: TallyAction)
    ensures
        user is Some ==> r is Clear,
        user is None ==> r is Allow,
{
    match user {
        Some(_) => TallyAction::Clear,
        None => TallyAction::Allow,
    }
}

} // verus!
