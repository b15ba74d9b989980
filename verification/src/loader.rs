//! Where shared modules are looked for, and how loaded entry points are
//! assigned to call slots.

use vstd::prelude::*;

use crate::config::BuildCategory;
use crate::module::ModuleId;
use crate::text::{push_char, push_str};

verus! {

/// Number of call slots for loaded entry points.
pub const MAX_SLOTS: usize = 128;

/// Number of slots with a dedicated trampoline.
pub const DEDICATED_TRAMPOLINES: usize = 16;

/// Ensure category allows dynload: only the shared build loads modules.
pub fn category_allows_dynload(cat: BuildCategory) -> (r: bool)
    ensures
        r == (cat == BuildCategory::Shared),
{
    match cat {
        BuildCategory::Shared => true,
        _ => false,
    }
}

/// `name` appended to the directory `dir` as `Path::join` does: an
/// absolute `name` replaces `dir`; otherwise a `/` separates them unless
/// `dir` is empty or already ends with one.
pub open spec fn path_join(dir: Seq<char>, name: Seq<char>) -> Seq<char> {
    if name.len() > 0 && name[0] == '/' {
        name
    } else if dir.len() == 0 || dir.last() == '/' {
        dir + name
    } else {
        dir + "/"@ + name
    }
}

/// `dir` joined with `name` (see [`path_join`]).
pub fn join_path(dir: &str, name: &str) -> (r: String)
    ensures
        r@ == path_join(dir@, name@),
{
    let d = crate::text::chars_of(dir);
    let n = crate::text::chars_of(name);
    if n.len() > 0 && n[0] == '/' {
        return crate::text::owned(name);
    }
    let mut out = String::new();
    push_str(&mut out, dir);
    if d.len() > 0 && d[d.len() - 1] != '/' {
        push_char(&mut out, '/');
    }
    push_str(&mut out, name);
    proof {
        reveal_strlit("/");
    }
    assert(out@ =~= path_join(dir@, name@));
    out
}

/// The files tried, in order, for the shared module `id` in `module_dir`:
/// its `.so` name in the directory (twice, as both spellings name the same
/// file), then `id` itself when it holds a `/`.
pub fn shared_candidates(id: &ModuleId, module_dir: &str) -> (r: Vec<String>)
    ensures
        r@.len() == if id.0@.contains('/') {
            3int
        } else {
            2int
        },
        r@[0]@ == path_join(module_dir@, "pam_"@ + id.0@ + ".so"@),
        r@[1]@ == path_join(module_dir@, "pam_"@ + id.0@ + ".so"@),
        id.0@.contains('/') ==> r@[2]@ == id.0@,
{
    let mut out: Vec<String> = Vec::new();
    let so = id.so_name();
    out.push(join_path(module_dir, so.as_str()));
    let so2 = id.so_name();
    out.push(join_path(module_dir, so2.as_str()));
    let cs = crate::text::chars_of(id.as_str());
    let has_slash = crate::text::range_contains_char(&cs, 0, cs.len(), '/');
    assert(cs@.subrange(0, cs@.len() as int) =~= cs@);
    if has_slash {
        out.push(crate::text::owned(id.as_str()));
    }
    out
}

/// The call slot that the `idx`-th loaded entry point is stored in, and the
/// dedicated trampoline that calls it (`None`: the shared one).  Once every
/// slot is taken, slot 0 is reused.
pub fn slot_assignment(idx: usize) -> (r: (usize, Option<usize>))
    ensures
        idx >= MAX_SLOTS ==> r == (0usize, Some(0usize)),
        idx < MAX_SLOTS && idx < DEDICATED_TRAMPOLINES ==> r == (idx, Some(idx)),
        idx < MAX_SLOTS && idx >= DEDICATED_TRAMPOLINES ==> r == (idx, None::<usize>),
{
    if idx >= MAX_SLOTS {
        (0, Some(0))
    } else if idx < DEDICATED_TRAMPOLINES {
        (idx, Some(idx))
    } else {
        (idx, None)
    }
}

/// The slot that the shared trampoline calls when `n` entry points have been
/// loaded: the last one stored, within the slot range.
pub fn shared_trampoline_slot(n: usize) -> (r: usize)
    ensures
        r == if n == 0 {
            0
        } else if n - 1 < MAX_SLOTS - 1 {
            (n - 1) as usize
        } else {
            (MAX_SLOTS - 1) as usize
        },
{
    let last = n.saturating_sub(1);
    if last < MAX_SLOTS - 1 {
        last
    } else {
        MAX_SLOTS - 1
    }
}

} // verus!
