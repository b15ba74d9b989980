//! The lines written to the system log.

use vstd::prelude::*;

use crate::text::push_str;

verus! {

/// A log line: `elevate-pam(SERVICE:MODULE)[LEVEL]: MSG`, the module being
/// the one running, or `elevate-pam` outside a module.
pub fn log_line(service: &str, module: Option<&str>, level: &str, msg: &str) -> (r: String)
    ensures
        r@ == "elevate-pam("@ + service@ + ":"@ + match module {
            Some(m) => m@,
            None => "elevate-pam"@,
        } + ")["@ + level@ + "]: "@ + msg@,
{
    let mut out = String::new();
    push_str(&mut out, "elevate-pam(");
    push_str(&mut out, service);
    push_str(&mut out, ":");
    match module {
        Some(m) => push_str(&mut out, m),
        None => push_str(&mut out, "elevate-pam"),
    }
    push_str(&mut out, ")[");
    push_str(&mut out, level);
    push_str(&mut out, "]: ");
    push_str(&mut out, msg);
    out
}

/// The syslog facility for authorization messages (`LOG_AUTHPRIV`).
pub const LOG_AUTHPRIV: i32 = 80;

/// The syslog priority of a level: `LOG_AUTHPRIV` with `LOG_ERR` for
/// `error`, `LOG_WARNING` for `warn`, `LOG_INFO` for `info`, `LOG_DEBUG`
/// for anything else.
pub fn syslog_priority(level: &str) -> (r: i32)
    ensures
        r == LOG_AUTHPRIV | if level@ == "error"@ {
            3i32
        } else if level@ == "warn"@ {
            4i32
        } else if level@ == "info"@ {
            6i32
        } else {
            7i32
        },
{
    let pri: i32 = if crate::text::str_eq(level, "error") {
        3
    } else if crate::text::str_eq(level, "warn") {
        4
    } else if crate::text::str_eq(level, "info") {
        6
    } else {
        7
    };
    LOG_AUTHPRIV | pri
}

} // verus!
