//! Module names, module arguments and the registry of linked-in modules.

use vstd::prelude::*;

use crate::config::strings_view;
use crate::text::{
    chars_of, has_prefix, parse_unsigned, has_suffix, push_range, push_str, range_ends_with, range_eq,
    range_starts_with, rfind_char, rindex_of, strip_prefix, strip_suffix, trim, trim_range,
};

verus! {

/// Module identifier (logical name without `pam_` prefix / `.so` suffix).
#[derive(Debug, Clone, PartialEq, Eq, Hash)]
pub struct ModuleId(pub String);

/// `s` without a leading `pam_`.
pub open spec fn without_pam_prefix(s: Seq<char>) -> Seq<char> {
    match strip_prefix(s, "pam_"@) {
        Some(t) => t,
        None => s,
    }
}

/// `s` without a trailing `.so`.
pub open spec fn without_so_suffix(s: Seq<char>) -> Seq<char> {
    match strip_suffix(s, ".so"@) {
        Some(t) => t,
        None => s,
    }
}

/// The logical name of a module named `name`: trimmed, without `pam_` and
/// `.so`, and, for a path, its last component stripped the same way.
pub open spec fn normalized_name(name: Seq<char>) -> Seq<char> {
    let n = without_so_suffix(without_pam_prefix(trim(name)));
    match rindex_of(n, '/') {
        Some(p) => without_so_suffix(without_pam_prefix(n.skip(p + 1))),
        None => n,
    }
}

/// A module's shared-object name normalizes back to the module's name,
/// for every name without a `/`.
pub proof fn law_normalize_so_name(id: Seq<char>)
    requires
        !id.contains('/'),
    ensures
        normalized_name("pam_"@ + id + ".so"@) == id,
{
    reveal_strlit("pam_");
    reveal_strlit(".so");
    let full = "pam_"@ + id + ".so"@;
    assert(full[0] == 'p');
    assert(full.last() == 'o');
    crate::text::lemma_trim_fixed(full);
    assert(full.take(4) =~= "pam_"@);
    let after = full.skip(4);
    assert(after =~= id + ".so"@);
    assert(after.skip(after.len() - 3) =~= ".so"@);
    assert(after.take(after.len() - 3) =~= id);
    crate::text::lemma_rindex_of(id, '/');
    match rindex_of(id, '/') {
        Some(p) => {
            assert(id.contains('/'));
        },
        None => {},
    }
}

/// The range of `s[lo..hi]` without a leading `pam_` and then without a
/// trailing `.so`.
fn strip_range(s: &Vec<char>, lo: usize, hi: usize) -> (r: (usize, usize))
    requires
        lo <= hi <= s@.len(),
    ensures
        lo <= r.0 <= r.1 <= hi,
        s@.subrange(r.0 as int, r.1 as int) == without_so_suffix(
            without_pam_prefix(s@.subrange(lo as int, hi as int)),
        ),
{
    let ghost t = s@.subrange(lo as int, hi as int);
    let pam = chars_of("pam_");
    let so = chars_of(".so");
    proof {
        reveal_strlit("pam_");
        reveal_strlit(".so");
    }
    let mut a = lo;
    if range_starts_with(s, lo, hi, &pam) {
        a = lo + 4;
        assert(t.skip(4) =~= s@.subrange(a as int, hi as int));
    }
    let ghost u = s@.subrange(a as int, hi as int);
    assert(u == without_pam_prefix(t));
    let mut b = hi;
    if range_ends_with(s, a, hi, &so) {
        b = hi - 3;
        assert(u.take(u.len() - 3) =~= s@.subrange(a as int, b as int));
    }
    (a, b)
}

impl ModuleId {
    /// Normalize names like `pam_unix.so`, `unix`, `pam_unix` → `unix`.
    pub fn normalize(name: &str) -> (r: Self)
        ensures
            r.0@ == normalized_name(name@),
    {
        let s = chars_of(name);
        let (lo, hi) = trim_range(&s, 0, s.len());
        assert(s@.subrange(0, s@.len() as int) =~= s@);
        let (a, b) = strip_range(&s, lo, hi);
        let ghost n = s@.subrange(a as int, b as int);
        match rfind_char(&s, a, b, '/') {
            Some(p) => {
                proof {
                    crate::text::lemma_rindex_of(n, '/');
                }
                assert(n.skip(p - a + 1) =~= s@.subrange(p + 1, b as int));
                let (c, d) = strip_range(&s, p + 1, b);
                Self(crate::text::string_of_range(&s, c, d))
            },
            None => Self(crate::text::string_of_range(&s, a, b)),
        }
    }

    /// Shared object file name: `pam_<id>.so`.
    pub fn so_name(&self) -> (r: String)
        ensures
            r@ == "pam_"@ + self.0@ + ".so"@,
    {
        let mut out = String::new();
        push_str(&mut out, "pam_");
        push_str(&mut out, self.0.as_str());
        push_str(&mut out, ".so");
        out
    }

    /// As string.
    pub fn as_str(&self) -> (r: &str)
        ensures
            r@ == self.0@,
    {
        self.0.as_str()
    }
}

impl Default for ModuleId {
    fn default() -> (r: Self)
        ensures
            r.0@ == "unknown"@,
    {
        Self(String::from_str("unknown"))
    }
}

/// Whether `args` holds exactly `flag`.
pub fn arg_has(args: &[String], flag: &str) -> (r: bool)
    ensures
        r == strings_view(args@).contains(flag@),
{
    let ghost views = strings_view(args@);
    let mut i: usize = 0;
    while i < args.len()
        invariant
            i <= args@.len(),
            views == strings_view(args@),
            forall|j: int| 0 <= j < i ==> views[j] != flag@,
        decreases args@.len() - i,
    {
        if crate::text::str_eq(args[i].as_str(), flag) {
            assert(views[i as int] == flag@);
            return true;
        }
        i += 1;
    }
    false
}

/// The value of the first `key=value` argument: what follows `key=` in the
/// first argument that starts with it.
pub open spec fn first_value(args: Seq<Seq<char>>, key: Seq<char>) -> Option<Seq<char>>
    decreases args.len(),
{
    if args.len() == 0 {
        None
    } else {
        match strip_prefix(args[0], key + "="@) {
            Some(v) => Some(v),
            None => first_value(args.drop_first(), key),
        }
    }
}

/// The value of the first `key=value` argument, if any.
pub fn arg_value<'a>(args: &'a [String], key: &str) -> (r: Option<&'a str>)
    ensures
        match first_value(strings_view(args@), key@) {
            Some(v) => r matches Some(x) && x@ == v,
            None => r is None,
        },
{
    let mut prefix = String::new();
    push_str(&mut prefix, key);
    push_str(&mut prefix, "=");
    let p = chars_of(prefix.as_str());
    let ghost views = strings_view(args@);
    let mut i: usize = 0;
    assert(views.skip(0) =~= views);
    while i < args.len()
        invariant
            i <= args@.len(),
            views == strings_view(args@),
            p@ == key@ + "="@,
            first_value(views, key@) == first_value(views.skip(i as int), key@),
        decreases args@.len() - i,
    {
        let a = args[i].as_str();
        let cs = chars_of(a);
        assert(views.skip(i as int)[0] == a@);
        assert(views.skip(i as int).drop_first() =~= views.skip(i + 1));
        if range_starts_with(&cs, 0, cs.len(), &p) {
            assert(cs@.subrange(0, cs@.len() as int) =~= cs@);
            let v = a.substring_char(p.len(), cs.len());
            return Some(v);
        }
        assert(cs@.subrange(0, cs@.len() as int) =~= cs@);
        i += 1;
    }
    assert(views.skip(i as int) =~= Seq::<Seq<char>>::empty());
    None
}

/// The first `key=value` argument's value read as an unsigned number no
/// larger than `max` (`str::parse`), if there is such an argument and it
/// parses.
pub open spec fn arg_number(args: Seq<Seq<char>>, key: Seq<char>, max: int) -> Option<int> {
    match first_value(args, key) {
        Some(v) => parse_unsigned(v, max),
        None => None,
    }
}

/// The first `key=value` argument's value read as an unsigned number no
/// larger than `max`.
pub fn arg_u64(args: &[String], key: &str, max: u64) -> (r: Option<u64>)
    ensures
        match arg_number(strings_view(args@), key@, max as int) {
            Some(v) => r == Some(v as u64),
            None => r is None,
        },
{
    match arg_value(args, key) {
        Some(v) => {
            let cs = chars_of(v);
            assert(cs@.subrange(0, cs@.len() as int) =~= cs@);
            crate::text::parse_unsigned_range(&cs, 0, cs.len(), max)
        },
        None => None,
    }
}

// ---------------------------------------------------------------------------
// Registry of linked-in modules
// ---------------------------------------------------------------------------

/// The hooks stored under `name`, if any (those of the first entry with
/// that name).
pub open spec fn lookup<H>(es: Seq<(Seq<char>, H)>, name: Seq<char>) -> Option<H> {
    match index_of_name(es, name) {
        Some(p) => Some(es[p].1),
        None => None,
    }
}

/// The entries after registering `h` under `name`: the first entry with that
/// name takes `h`, or a new entry is added at the end.
pub open spec fn registered<H>(es: Seq<(Seq<char>, H)>, name: Seq<char>, h: H) -> Seq<
    (Seq<char>, H),
> {
    match index_of_name(es, name) {
        Some(p) => es.update(p, (name, h)),
        None => es.push((name, h)),
    }
}

/// Modules by logical name; registering a name again replaces its hooks.
pub struct ModuleRegistry<H> {
    modules: Vec<(ModuleId, H)>,
}

impl<H> ModuleRegistry<H> {
    /// The registered names and hooks, in registration order.
    pub closed spec fn entries(&self) -> Seq<(Seq<char>, H)> {
        self.modules@.map_values(|m: (ModuleId, H)| (m.0.0@, m.1))
    }

    /// Empty registry.
    pub fn new() -> (r: Self)
        ensures
            r.entries() == Seq::<(Seq<char>, H)>::empty(),
    {
        let r = Self { modules: Vec::new() };
        assert(r.entries() =~= Seq::<(Seq<char>, H)>::empty());
        r
    }


    /// Register `hooks` under `id`: they replace the hooks of the first
    /// entry with that name, or are added at the end.
    pub fn register(&mut self, id: ModuleId, hooks: H)
        ensures
            final(self).entries() == registered(old(self).entries(), id.0@, hooks),
    {
        let ghost es = self.entries();
        let ghost e = (id.0@, hooks);
        let mut i: usize = 0;
        assert(es.skip(0) =~= es);
        while i < self.modules.len()
            invariant
                i <= self.modules@.len(),
                es == self.entries(),
                es.len() == self.modules@.len(),
                index_of_name(es, id.0@) == index_after(es, id.0@, i as int),
                e == (id.0@, hooks),
                es == old(self).entries(),
            decreases self.modules@.len() - i,
        {
            assert(es[i as int].0 == self.modules@[i as int].0.0@);
            if crate::text::str_eq(self.modules[i].0.0.as_str(), id.0.as_str()) {
                assert(index_after(es, id.0@, i as int) == Some(i as int));
                let ghost before = self.modules@;
                let ghost item = (id, hooks);
                self.modules.set(i, (id, hooks));
                assert(self.modules@ == before.update(i as int, item));
                assert(self.entries()[i as int] == e);
                assert(self.entries() =~= es.update(i as int, e));
                return;
            }
            assert(index_after(es, id.0@, i as int) == index_after(es, id.0@, i + 1));
            i += 1;
        }
        assert(index_after(es, id.0@, i as int) == None::<int>);
        self.modules.push((id, hooks));
        assert(self.entries() =~= es.push(e));
    }

    /// The registered hooks, in registration order.
    pub fn iter(&self) -> (r: Vec<&H>)
        ensures
            r@.len() == self.entries().len(),
            forall|i: int| 0 <= i < r@.len() ==> *r@[i] == self.entries()[i].1,
    {
        let mut out: Vec<&H> = Vec::new();
        let mut i: usize = 0;
        while i < self.modules.len()
            invariant
                i <= self.modules@.len(),
                out@.len() == i,
                forall|j: int| 0 <= j < i ==> *out@[j] == self.entries()[j].1,
            decreases self.modules@.len() - i,
        {
            out.push(&self.modules[i].1);
            i += 1;
        }
        out
    }

    /// The hooks registered under `id`.
    pub fn get(&self, id: &ModuleId) -> (r: Option<&H>)
        ensures
            match lookup(self.entries(), id.0@) {
                Some(h) => r == Some(&h),
                None => r is None,
            },
    {
        let ghost es = self.entries();
        let mut i: usize = 0;
        while i < self.modules.len()
            invariant
                i <= self.modules@.len(),
                es == self.entries(),
                es.len() == self.modules@.len(),
                index_of_name(es, id.0@) == index_after(es, id.0@, i as int),
            decreases self.modules@.len() - i,
        {
            assert(es[i as int] == (self.modules@[i as int].0.0@, self.modules@[i as int].1));
            if crate::text::str_eq(self.modules[i].0.0.as_str(), id.0.as_str()) {
                assert(index_after(es, id.0@, i as int) == Some(i as int));
                return Some(&self.modules[i].1);
            }
            assert(index_after(es, id.0@, i as int) == index_after(es, id.0@, i + 1));
            i += 1;
        }
        assert(index_after(es, id.0@, i as int) == None::<int>);
        None
    }
}

/// The position of the first entry named `name` at or after `from`.
pub open spec fn index_after<H>(es: Seq<(Seq<char>, H)>, name: Seq<char>, from: int) -> Option<int>
    decreases es.len() - from,
{
    if from < 0 || from >= es.len() {
        None
    } else if es[from].0 == name {
        Some(from)
    } else {
        index_after(es, name, from + 1)
    }
}

/// The position of the first entry named `name`.
pub open spec fn index_of_name<H>(es: Seq<(Seq<char>, H)>, name: Seq<char>) -> Option<int> {
    index_after(es, name, 0)
}


proof fn lemma_index_after_found<H>(es: Seq<(Seq<char>, H)>, name: Seq<char>, from: int)
    ensures
        index_after(es, name, from) matches Some(q) ==> from <= q < es.len() && es[q].0 == name
            && forall|j: int| from <= j < q ==> es[j].0 != name,
    decreases es.len() - from,
{
    if 0 <= from < es.len() && es[from].0 != name {
        lemma_index_after_found(es, name, from + 1);
    }
}

proof fn lemma_index_after_same_names<H>(
    a: Seq<(Seq<char>, H)>,
    b: Seq<(Seq<char>, H)>,
    name: Seq<char>,
    from: int,
)
    requires
        a.len() == b.len(),
        forall|i: int| 0 <= i < a.len() ==> (#[trigger] a[i]).0 == b[i].0,
    ensures
        index_after(a, name, from) == index_after(b, name, from),
    decreases a.len() - from,
{
    if 0 <= from < a.len() {
        lemma_index_after_same_names(a, b, name, from + 1);
    }
}

proof fn lemma_index_after_push<H>(es: Seq<(Seq<char>, H)>, e: (Seq<char>, H), name: Seq<char>, from: int)
    requires
        0 <= from <= es.len(),
    ensures
        index_after(es.push(e), name, from) == match index_after(es, name, from) {
            Some(q) => Some(q),
            None => if e.0 == name {
                Some(es.len() as int)
            } else {
                None
            },
        },
    decreases es.len() - from,
{
    if from < es.len() {
        assert(es.push(e)[from] == es[from]);
        lemma_index_after_push(es, e, name, from + 1);
    } else {
        assert(es.push(e)[from] == e);
        assert(index_after(es.push(e), name, from + 1) == None::<int>);
    }
}

/// After registering `h` under `name`, looking `name` up gives `h`, and
/// every other name gives what it gave before.
pub proof fn law_registry_get_after_register<H>(
    es: Seq<(Seq<char>, H)>,
    name: Seq<char>,
    h: H,
    other: Seq<char>,
)
    ensures
        lookup(registered(es, name, h), name) == Some(h),
        other != name ==> lookup(registered(es, name, h), other) == lookup(es, other),
{
    let es2 = registered(es, name, h);
    lemma_index_after_found(es, name, 0);
    lemma_index_after_found(es, other, 0);
    match index_of_name(es, name) {
        Some(p) => {
            assert forall|i: int| 0 <= i < es.len() implies (#[trigger] es[i]).0 == es2[i].0 by {}
            lemma_index_after_same_names(es, es2, name, 0);
            lemma_index_after_same_names(es, es2, other, 0);
            if other != name {
                match index_of_name(es, other) {
                    Some(q) => {
                        assert(q != p);
                    },
                    None => {},
                }
            }
        },
        None => {
            lemma_index_after_push(es, (name, h), name, 0);
            lemma_index_after_push(es, (name, h), other, 0);
            match index_of_name(es, other) {
                Some(q) => {
                    assert(es2[q] == es[q]);
                },
                None => {},
            }
        },
    }
}

} // verus!
