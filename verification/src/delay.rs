//! Fail-delay timing (authentication side-channel mitigation).

use vstd::prelude::*;

verus! {

/// A delay of `usec` microseconds as whole seconds and the remaining
/// nanoseconds; `None` for no delay at all.
pub fn delay_parts(usec: u32) -> (r: Option<(u64, u32)>)
    ensures
        usec == 0 ==> r is None,
        usec > 0 ==> r == Some(((usec / 1_000_000) as u64, ((usec % 1_000_000) * 1000) as u32)),
{
    if usec == 0 {
        return None;
    }
    let secs = (usec / 1_000_000) as u64;
    let nanos = (usec % 1_000_000) * 1000;
    Some((secs, nanos))
}

} // verus!
