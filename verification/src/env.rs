//! PAM environment list (`pam_putenv` / `pam_getenv` / `pam_getenvlist`).

use vstd::prelude::*;

use crate::config::strings_view;
use crate::constants::PAM_BAD_ITEM;
use crate::error::{PamError, PamResult, PamStatus};
use crate::text::{chars_of, find_char, has_prefix, index_of, lemma_index_of, range_eq, range_starts_with};

verus! {

/// Environment store as `NAME=value` strings (Linux-PAM layout).
#[derive(Debug, Clone)]
pub struct PamEnv {
    entries: Vec<String>,
}

/// Whether entry `e` defines `name` (or is the bare `name`).
pub open spec fn defines(e: Seq<char>, name: Seq<char>) -> bool {
    e == name || has_prefix(e, name + "="@)
}

/// The value of the first entry that starts with `name=`.
pub open spec fn env_get(entries: Seq<Seq<char>>, name: Seq<char>) -> Option<Seq<char>>
    decreases entries.len(),
{
    if entries.len() == 0 {
        None
    } else if has_prefix(entries[0], name + "="@) {
        Some(entries[0].skip(name.len() + 1int))
    } else {
        env_get(entries.drop_first(), name)
    }
}

/// `entries` without those that define `name`, in order.
pub open spec fn env_remove(entries: Seq<Seq<char>>, name: Seq<char>) -> Seq<Seq<char>>
    decreases entries.len(),
{
    if entries.len() == 0 {
        entries
    } else {
        let prev = env_remove(entries.drop_last(), name);
        if defines(entries.last(), name) {
            prev
        } else {
            prev.push(entries.last())
        }
    }
}

/// The effect of `putenv(nv)`: `None` when `nv` is refused (empty, or an
/// empty name before `=`); otherwise the new entry list, where `NAME=value`
/// replaces every definition of `NAME` and a bare `NAME` deletes them.
pub open spec fn env_put(entries: Seq<Seq<char>>, nv: Seq<char>) -> Option<Seq<Seq<char>>> {
    if nv.len() == 0 {
        None
    } else {
        match index_of(nv, '=') {
            Some(eq) => if eq == 0 {
                None
            } else {
                Some(env_remove(entries, nv.take(eq)).push(nv))
            },
            None => Some(env_remove(entries, nv)),
        }
    }
}

impl View for PamEnv {
    type V = Seq<Seq<char>>;

    closed spec fn view(&self) -> Seq<Seq<char>> {
        strings_view(self.entries@)
    }
}

fn entry_defines(e: &String, name: &Vec<char>) -> (r: bool)
    ensures
        r == defines(e@, name@),
{
    let v = chars_of(e.as_str());
    if range_eq(&v, 0, v.len(), name) {
        assert(v@.subrange(0, v@.len() as int) =~= v@);
        return true;
    }
    assert(v@.subrange(0, v@.len() as int) =~= v@);
    let mut prefix = name.clone();
    prefix.push('=');
    assert(prefix@ =~= name@ + "="@) by {
        reveal_strlit("=");
    }
    range_starts_with(&v, 0, v.len(), &prefix)
}

impl PamEnv {
    /// Empty environment.
    pub fn new() -> (r: Self)
        ensures
            r@ == Seq::<Seq<char>>::empty(),
    {
        let r = Self { entries: Vec::new() };
        assert(r@ =~= Seq::<Seq<char>>::empty());
        r
    }

    /// Put `NAME=value` or `NAME` (delete if no `=`).
    pub fn putenv(&mut self, name_value: &str) -> (r: PamResult<()>)
        ensures
            match env_put(old(self)@, name_value@) {
                Some(n) => r is Ok && final(self)@ == n,
                None => r matches Err(PamError::Status(s)) && s.0 == PAM_BAD_ITEM
                    && final(self)@ == old(self)@,
            },
    {
        let v = chars_of(name_value);
        if v.len() == 0 {
            return Err(PamError::Status(PamStatus::new(PAM_BAD_ITEM)));
        }
        proof {
            lemma_index_of(v@, '=');
        }
        assert(v@.subrange(0, v@.len() as int) =~= v@);
        match find_char(&v, 0, v.len(), '=') {
            Some(eq) => {
                if eq == 0 {
                    return Err(PamError::Status(PamStatus::new(PAM_BAD_ITEM)));
                }
                let mut name: Vec<char> = Vec::new();
                let mut i: usize = 0;
                while i < eq
                    invariant
                        i <= eq < v@.len(),
                        name@ == v@.take(i as int),
                    decreases eq - i,
                {
                    name.push(v[i]);
                    i += 1;
                    assert(name@ =~= v@.take(i as int));
                }
                self.remove_name(&name);
                let ghost before = self.entries@;
                self.entries.push(crate::text::string_of(&v));
                assert(self@ =~= strings_view(before).push(name_value@));
            },
            None => {
                self.remove_name(&v);
            },
        }
        Ok(())
    }

    /// Get value for `name` (without `=`).
    pub fn getenv(&self, name: &str) -> (r: Option<&str>)
        ensures
            match env_get(self@, name@) {
                Some(val) => r matches Some(s) && s@ == val,
                None => r is None,
            },
    {
        let mut prefix = chars_of(name);
        prefix.push('=');
        assert(prefix@ =~= name@ + "="@) by {
            reveal_strlit("=");
        }
        let mut i: usize = 0;
        assert(self@.skip(0) =~= self@);
        while i < self.entries.len()
            invariant
                i <= self.entries@.len(),
                prefix@ == name@ + "="@,
                env_get(self@, name@) == env_get(self@.skip(i as int), name@),
            decreases self.entries@.len() - i,
        {
            let e = &self.entries[i];
            let ev = chars_of(e.as_str());
            let ghost rest = self@.skip(i as int);
            assert(rest[0] == e@);
            assert(ev@.subrange(0, ev@.len() as int) =~= ev@);
            if range_starts_with(&ev, 0, ev.len(), &prefix) {
                let n = e.as_str().unicode_len();
                let k = prefix.len();
                proof {
                    reveal_strlit("=");
                }
                let s = e.as_str().substring_char(k, n);
                assert(s@ =~= e@.skip(name@.len() + 1int));
                return Some(s);
            }
            assert(rest.drop_first() =~= self@.skip(i + 1));
            i += 1;
        }
        None
    }

    /// Snapshot of all entries.
    pub fn list(&self) -> (r: &[String])
        ensures
            strings_view(r@) == self@,
    {
        self.entries.as_slice()
    }

    /// Into owned list.
    pub fn into_list(self) -> (r: Vec<String>)
        ensures
            strings_view(r@) == self@,
    {
        self.entries
    }

    /// Drop every entry that defines `name`.
    fn remove_name(&mut self, name: &Vec<char>)
        ensures
            final(self)@ == env_remove(old(self)@, name@),
    {
        let mut kept: Vec<String> = Vec::new();
        let mut i: usize = 0;
        let ghost all = self@;
        assert(all.take(0) =~= Seq::<Seq<char>>::empty());
        while i < self.entries.len()
            invariant
                i <= self.entries@.len(),
                all == self@,
                strings_view(kept@) == env_remove(all.take(i as int), name@),
            decreases self.entries@.len() - i,
        {
            let ghost pre = all.take(i as int);
            assert(all.take(i + 1).drop_last() =~= pre);
            assert(all.take(i + 1).last() == self.entries@[i as int]@);
            if !entry_defines(&self.entries[i], name) {
                let ghost k0 = kept@;
                kept.push(self.entries[i].clone());
                assert(strings_view(kept@) =~= strings_view(k0).push(self.entries@[i as int]@));
            }
            i += 1;
        }
        assert(all.take(i as int) =~= all);
        self.entries = kept;
    }

    /// Number of entries.
    pub fn len(&self) -> (r: usize)
        ensures
            r == self@.len(),
    {
        self.entries.len()
    }

    /// Empty check.
    pub fn is_empty(&self) -> (r: bool)
        ensures
            r == (self@.len() == 0),
    {
        self.entries.len() == 0
    }
}

// ---------------------------------------------------------------------------
// Laws
// ---------------------------------------------------------------------------

proof fn lemma_eq_strlit()
    ensures
        "="@ == seq!['='],
{
    reveal_strlit("=");
    assert("="@ =~= seq!['=']);
}

/// Looking up in a list with one more entry at the end.
proof fn lemma_get_push(xs: Seq<Seq<char>>, e: Seq<char>, name: Seq<char>)
    ensures
        env_get(xs.push(e), name) == match env_get(xs, name) {
            Some(v) => Some(v),
            None => if has_prefix(e, name + "="@) {
                Some(e.skip(name.len() + 1int))
            } else {
                None
            },
        },
    decreases xs.len(),
{
    assert(xs.push(e).len() > 0);
    if xs.len() > 0 {
        assert(xs.push(e)[0] == xs[0]);
        assert(xs.push(e).drop_first() =~= xs.drop_first().push(e));
        lemma_get_push(xs.drop_first(), e, name);
    } else {
        assert(xs.push(e)[0] == e);
        assert(xs.push(e).drop_first() =~= Seq::<Seq<char>>::empty());
    }
}

/// Two `NAME=` prefixes of one entry, with names free of `=`, are equal.
proof fn lemma_prefixes_agree(e: Seq<char>, a: Seq<char>, b: Seq<char>)
    requires
        has_prefix(e, a + "="@),
        has_prefix(e, b + "="@),
        !a.contains('='),
        !b.contains('='),
    ensures
        a == b,
{
    lemma_eq_strlit();
    let pa = a + "="@;
    let pb = b + "="@;
    if a.len() < b.len() {
        assert(e[a.len() as int] == pa[a.len() as int]);
        assert(e[a.len() as int] == pb[a.len() as int]);
        assert(b[a.len() as int] == '=');
    } else if b.len() < a.len() {
        assert(e[b.len() as int] == pa[b.len() as int]);
        assert(e[b.len() as int] == pb[b.len() as int]);
        assert(a[b.len() as int] == '=');
    } else {
        assert forall|i: int| 0 <= i < a.len() implies a[i] == b[i] by {
            assert(e[i] == pa[i]);
            assert(e[i] == pb[i]);
        }
        assert(a =~= b);
    }
}

/// An entry that defines `name` is never found under another name.
proof fn lemma_defines_other(e: Seq<char>, name: Seq<char>, other: Seq<char>)
    requires
        defines(e, name),
        !name.contains('='),
        !other.contains('='),
        other != name,
    ensures
        !has_prefix(e, other + "="@),
{
    lemma_eq_strlit();
    if has_prefix(e, other + "="@) {
        if e == name {
            let p = other + "="@;
            assert(e[other.len() as int] == p[other.len() as int]);
            assert(name[other.len() as int] == '=');
        } else {
            lemma_prefixes_agree(e, name, other);
        }
    }
}

/// After removing `name`, it is not found.
proof fn lemma_get_removed(xs: Seq<Seq<char>>, name: Seq<char>)
    ensures
        env_get(env_remove(xs, name), name) is None,
    decreases xs.len(),
{
    if xs.len() > 0 {
        lemma_get_removed(xs.drop_last(), name);
        let prev = env_remove(xs.drop_last(), name);
        if !defines(xs.last(), name) {
            lemma_get_push(prev, xs.last(), name);
        }
    }
}

/// Removing `name` does not change what another name is bound to.
proof fn lemma_get_remove_other(xs: Seq<Seq<char>>, name: Seq<char>, other: Seq<char>)
    requires
        !name.contains('='),
        !other.contains('='),
        other != name,
    ensures
        env_get(env_remove(xs, name), other) == env_get(xs, other),
    decreases xs.len(),
{
    if xs.len() > 0 {
        lemma_get_remove_other(xs.drop_last(), name, other);
        let prev = env_remove(xs.drop_last(), name);
        assert(xs.drop_last().push(xs.last()) =~= xs);
        lemma_get_push(xs.drop_last(), xs.last(), other);
        if defines(xs.last(), name) {
            lemma_defines_other(xs.last(), name, other);
        } else {
            lemma_get_push(prev, xs.last(), other);
        }
    }
}

/// `NAME=value` splits at its first `=`, after the name.
proof fn lemma_assignment_split(name: Seq<char>, value: Seq<char>)
    requires
        name.len() > 0,
        !name.contains('='),
    ensures
        index_of(name + "="@ + value, '=') == Some(name.len() as int),
        (name + "="@ + value).take(name.len() as int) == name,
        has_prefix(name + "="@ + value, name + "="@),
        (name + "="@ + value).skip(name.len() + 1int) == value,
{
    lemma_eq_strlit();
    let nv = name + "="@ + value;
    lemma_index_of(nv, '=');
    assert(nv[name.len() as int] == '=');
    match index_of(nv, '=') {
        Some(k) => {
            if k < name.len() {
                assert(nv[k] == name[k]);
            }
        },
        None => {},
    }
    assert(nv.take(name.len() as int) =~= name);
    assert(nv.take((name + "="@).len() as int) =~= name + "="@);
    assert(nv.skip(name.len() + 1int) =~= value);
}

/// Reading a name back after setting it gives the value that was set.
pub proof fn law_getenv_after_putenv(entries: Seq<Seq<char>>, name: Seq<char>, value: Seq<char>)
    requires
        name.len() > 0,
        !name.contains('='),
    ensures
        env_put(entries, name + "="@ + value) matches Some(n) && env_get(n, name) == Some(value),
{
    lemma_assignment_split(name, value);
    let nv = name + "="@ + value;
    let removed = env_remove(entries, name);
    lemma_get_removed(entries, name);
    lemma_get_push(removed, nv, name);
}

/// Setting a bare name (no `=`) removes it.
pub proof fn law_putenv_bare_name_deletes(entries: Seq<Seq<char>>, name: Seq<char>)
    requires
        name.len() > 0,
        !name.contains('='),
    ensures
        env_put(entries, name) matches Some(n) && env_get(n, name) is None,
{
    lemma_index_of(name, '=');
    match index_of(name, '=') {
        Some(k) => {
            assert(name.contains('='));
        },
        None => {},
    }
    lemma_get_removed(entries, name);
}

/// Setting or deleting one name leaves every other name as it was.
pub proof fn law_putenv_leaves_other_names(
    entries: Seq<Seq<char>>,
    name: Seq<char>,
    value: Seq<char>,
    other: Seq<char>,
)
    requires
        name.len() > 0,
        !name.contains('='),
        !other.contains('='),
        other != name,
    ensures
        env_put(entries, name + "="@ + value) matches Some(n) && env_get(n, other) == env_get(
            entries,
            other,
        ),
        env_put(entries, name) matches Some(n) && env_get(n, other) == env_get(entries, other),
{
    lemma_assignment_split(name, value);
    let nv = name + "="@ + value;
    let removed = env_remove(entries, name);
    lemma_get_remove_other(entries, name, other);
    lemma_get_push(removed, nv, other);
    lemma_eq_strlit();
    if has_prefix(nv, other + "="@) {
        lemma_prefixes_agree(nv, name, other);
    }
    lemma_index_of(name, '=');
    match index_of(name, '=') {
        Some(k) => {
            assert(name.contains('='));
        },
        None => {},
    }
}

} // verus!
