//! `pam_succeed_if`: one condition `field op value` on the user.

use vstd::prelude::*;

use crate::config::strings_view;
use crate::constants::{PAM_AUTH_ERR, PAM_SUCCESS};
use crate::text::{chars_of, decimal, parse_unsigned, parse_unsigned_range, push_decimal};

verus! {

/// A value read as a `u32` for the numeric comparisons, 0 when it is not one.
pub open spec fn num(s: Seq<char>) -> int {
    match parse_unsigned(s, u32::MAX as int) {
        Some(v) => v,
        None => 0,
    }
}

/// Whether `value op expected` holds; an unknown operator holds.
pub open spec fn compare(op: Seq<char>, value: Seq<char>, expected: Seq<char>) -> bool {
    if op == "="@ || op == "=="@ {
        value == expected
    } else if op == "!="@ {
        value != expected
    } else if op == ">="@ {
        num(value) >= num(expected)
    } else if op == "<="@ {
        num(value) <= num(expected)
    } else if op == ">"@ {
        num(value) > num(expected)
    } else if op == "<"@ {
        num(value) < num(expected)
    } else {
        true
    }
}

/// The status for the arguments `field op value` on `user`, whose uid and
/// gid the user database gives (`None`: no such user).  Fewer than three
/// arguments, or a field other than `user`, `uid` and `gid`, succeed; no
/// user, or a uid or gid asked of an unknown user, fail.
pub open spec fn condition_status(
    args: Seq<Seq<char>>,
    user: Option<Seq<char>>,
    uid: Option<u32>,
    gid: Option<u32>,
) -> i32 {
    if args.len() < 3 {
        PAM_SUCCESS
    } else if user is None {
        PAM_AUTH_ERR
    } else {
        let field = args[0];
        let value: Option<Seq<char>> = if field == "user"@ {
            Some(user.unwrap())
        } else if field == "uid"@ {
            match uid {
                Some(u) => Some(decimal(u as nat)),
                None => None,
            }
        } else if field == "gid"@ {
            match gid {
                Some(g) => Some(decimal(g as nat)),
                None => None,
            }
        } else {
            None
        };
        if field != "user"@ && field != "uid"@ && field != "gid"@ {
            PAM_SUCCESS
        } else {
            match value {
                None => PAM_AUTH_ERR,
                Some(v) => if compare(args[1], v, args[2]) {
                    PAM_SUCCESS
                } else {
                    PAM_AUTH_ERR
                },
            }
        }
    }
}

fn num_of(v: &Vec<char>) -> (r: u32)
    ensures
        r == num(v@),
{
    assert(v@.subrange(0, v@.len() as int) =~= v@);
    match parse_unsigned_range(v, 0, v.len(), u32::MAX as u64) {
        Some(n) => n as u32,
        None => 0,
    }
}

/// Evaluate the condition (see [`condition_status`]).
pub fn eval_condition(args: &[String], user: Option<&str>, uid: Option<u32>, gid: Option<u32>) -> (r:
    i32)
    ensures
        r == condition_status(
            strings_view(args@),
            match user {
                Some(u) => Some(u@),
                None => None,
            },
            uid,
            gid,
        ),
{
    if args.len() < 3 {
        return PAM_SUCCESS;
    }
    let name = match user {
        Some(u) => u,
        None => return PAM_AUTH_ERR,
    };
    let ghost views = strings_view(args@);
    assert(views[0] == args@[0]@ && views[1] == args@[1]@ && views[2] == args@[2]@);
    let field = args[0].as_str();
    let value: String = if crate::text::str_eq(field, "user") {
        crate::text::owned(name)
    } else if crate::text::str_eq(field, "uid") {
        match uid {
            Some(u) => {
                let mut s = String::new();
                push_decimal(&mut s, u as u64);
                s
            },
            None => return PAM_AUTH_ERR,
        }
    } else if crate::text::str_eq(field, "gid") {
        match gid {
            Some(g) => {
                let mut s = String::new();
                push_decimal(&mut s, g as u64);
                s
            },
            None => return PAM_AUTH_ERR,
        }
    } else {
        return PAM_SUCCESS;
    };
    let op = args[1].as_str();
    let v = chars_of(value.as_str());
    let e = chars_of(args[2].as_str());
    let matched = if crate::text::str_eq(op, "=") || crate::text::str_eq(op, "==") {
        crate::text::chars_eq(&v, &e)
    } else if crate::text::str_eq(op, "!=") {
        !crate::text::chars_eq(&v, &e)
    } else if crate::text::str_eq(op, ">=") {
        num_of(&v) >= num_of(&e)
    } else if crate::text::str_eq(op, "<=") {
        num_of(&v) <= num_of(&e)
    } else if crate::text::str_eq(op, ">") {
        num_of(&v) > num_of(&e)
    } else if crate::text::str_eq(op, "<") {
        num_of(&v) < num_of(&e)
    } else {
        true
    };
    if matched {
        PAM_SUCCESS
    } else {
        PAM_AUTH_ERR
    }
}

} // verus!
