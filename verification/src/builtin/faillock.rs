//! `pam_faillock`: lock an account after too many failed attempts within a
//! rolling window (`pam_faillock(8)`).
//!
//! Stacked as `preauth` before the password check, `authfail` after a
//! failure and `authsucc` after a success.  The tally (one timestamp per
//! failure) is read and written by the caller; what to do with it is
//! decided here.

use vstd::prelude::*;

use crate::builtin::tally::{latest, latest_of, recent, retain_recent, sat_sub, TallyAction};
use crate::config::strings_view;
use crate::module::{arg_has, arg_number, arg_u64, arg_value, first_value};

verus! {

/// Options of the module.
#[derive(Debug, Clone)]
pub struct Opts {
    /// Failures within the window that lock the account (`deny=`, 3).
    pub deny: u32,
    /// Window in seconds within which failures count (`fail_interval=`, 900).
    pub fail_interval: u64,
    /// Seconds after the last failure that a lock lasts; 0 means until reset
    /// (`unlock_time=`, 600).
    pub unlock_time: u64,
    /// Lock duration for root, when given (`root_unlock_time=`).
    pub root_unlock_time: Option<u64>,
    /// Lock root too (`even_deny_root`).
    pub even_deny_root: bool,
    /// Only count local logins (`local_users_only`).
    pub local_users_only: bool,
    /// Log nothing on lockout (`silent`).
    pub silent: bool,
    /// Tally directory (`dir=`, else the configured one).
    pub dir: String,
}

/// A number option, or its default when absent or not a number.
pub open spec fn num_or(args: Seq<Seq<char>>, key: Seq<char>, max: int, default: int) -> int {
    match arg_number(args, key, max) {
        Some(v) => v,
        None => default,
    }
}

/// Parse the module arguments; `default_dir` is the configured tally
/// directory.
pub fn parse_opts(args: &[String], default_dir: &str) -> (r: Opts)
    ensures
        r.deny == num_or(strings_view(args@), "deny"@, u32::MAX as int, 3),
        r.fail_interval == num_or(strings_view(args@), "fail_interval"@, u64::MAX as int, 900),
        r.unlock_time == num_or(strings_view(args@), "unlock_time"@, u64::MAX as int, 600),
        r.root_unlock_time == match arg_number(
            strings_view(args@),
            "root_unlock_time"@,
            u64::MAX as int,
        ) {
            Some(v) => Some(v as u64),
            None => None::<u64>,
        },
        r.even_deny_root == strings_view(args@).contains("even_deny_root"@),
        r.local_users_only == strings_view(args@).contains("local_users_only"@),
        r.silent == strings_view(args@).contains("silent"@),
        r.dir@ == match first_value(strings_view(args@), "dir"@) {
            Some(d) => d,
            None => default_dir@,
        },
{
    let deny = match arg_u64(args, "deny", u32::MAX as u64) {
        Some(v) => v as u32,
        None => 3,
    };
    let fail_interval = match arg_u64(args, "fail_interval", u64::MAX) {
        Some(v) => v,
        None => 900,
    };
    let unlock_time = match arg_u64(args, "unlock_time", u64::MAX) {
        Some(v) => v,
        None => 600,
    };
    let root_unlock_time = arg_u64(args, "root_unlock_time", u64::MAX);
    let dir = match arg_value(args, "dir") {
        Some(d) => crate::text::owned(d),
        None => crate::text::owned(default_dir),
    };
    Opts {
        deny,
        fail_interval,
        unlock_time,
        root_unlock_time,
        even_deny_root: arg_has(args, "even_deny_root"),
        local_users_only: arg_has(args, "local_users_only"),
        silent: arg_has(args, "silent"),
        dir,
    }
}

/// Where in the stack the module is called.
#[derive(Debug, Clone, Copy, PartialEq, Eq, Structural)]
pub enum Phase {
    /// Before the password check (the default).
    Preauth,
    /// After a failed password check.
    AuthFail,
    /// After a successful password check.
    AuthSucc,
}

/// The phase that the arguments name: `authsucc`, else `authfail`, else
/// `preauth`.
pub fn phase_of(args: &[String]) -> (r: Phase)
    ensures
        r == if strings_view(args@).contains("authsucc"@) {
            Phase::AuthSucc
        } else if strings_view(args@).contains("authfail"@) {
            Phase::AuthFail
        } else {
            Phase::Preauth
        },
{
    if arg_has(args, "authsucc") {
        Phase::AuthSucc
    } else if arg_has(args, "authfail") {
        Phase::AuthFail
    } else {
        Phase::Preauth
    }
}

/// How long a lock lasts for `user`.
pub open spec fn lock_duration(opts: Opts, is_root: bool) -> u64 {
    if is_root {
        match opts.root_unlock_time {
            Some(t) => t,
            None => opts.unlock_time,
        }
    } else {
        opts.unlock_time
    }
}

/// What to do with `user`'s tally `tally` at time `now` (seconds since the
/// epoch), in phase `phase`; `remote` says whether the login comes from a
/// remote host.
///
/// A remote login with `local_users_only` is let through untouched.  A
/// success clears the tally.  A failure records `now` after the failures
/// still within `fail_interval`.  Before the check, an account with at least
/// `deny` recent failures is locked until `unlock_time` has passed since the
/// latest (for ever when it is 0), after which its tally is cleared; root
/// is never locked without `even_deny_root`.
pub fn decide(opts: &Opts, user: &str, remote: bool, phase: Phase, now: u64, tally: &Vec<u64>) -> (r:
    TallyAction)
    ensures
        ({
            let is_root = user@ == "root"@;
            let p = recent(tally@, now, opts.fail_interval);
            let unlock = lock_duration(*opts, is_root);
            if opts.local_users_only && remote {
                r is Allow
            } else if phase == Phase::AuthSucc {
                r is Clear
            } else if phase == Phase::AuthFail {
                r matches TallyAction::Record(v) && v@ == p.push(now)
            } else if is_root && !opts.even_deny_root {
                r is Allow
            } else if (p.len() as u32) >= opts.deny {
                if unlock == 0 || sat_sub(now, latest(p)) < unlock {
                    r matches TallyAction::Lock(n) && n == p.len()
                } else {
                    r is Clear
                }
            } else {
                r is Allow
            }
        }),
{
    if opts.local_users_only && remote {
        return TallyAction::Allow;
    }
    let is_root = crate::text::str_eq(user, "root");
    let unlock = if is_root {
        match opts.root_unlock_time {
            Some(t) => t,
            None => opts.unlock_time,
        }
    } else {
        opts.unlock_time
    };
    match phase {
        Phase::AuthSucc => TallyAction::Clear,
        Phase::AuthFail => {
            let mut p = retain_recent(tally, now, opts.fail_interval);
            p.push(now);
            TallyAction::Record(p)
        },
        Phase::Preauth => {
            if is_root && !opts.even_deny_root {
                return TallyAction::Allow;
            }
            let p = retain_recent(tally, now, opts.fail_interval);
            if (p.len() as u32) >= opts.deny {
                let last = latest_of(&p);
                if unlock == 0 || now.saturating_sub(last) < unlock {
                    TallyAction::Lock(p.len())
                } else {
                    TallyAction::Clear
                }
            } else {
                TallyAction::Allow
            }
        },
    }
}

} // verus!
