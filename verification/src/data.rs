//! Module-private data (`pam_set_data` / `pam_get_data`): named slots kept
//! in the order of their names.
//!
//! What a slot holds (a pointer and its cleanup callback, for C modules) is
//! the caller's: setting a name hands back the data it replaces so that the
//! caller can clean it up, and clearing the table hands back every slot's
//! data in name order.

use vstd::prelude::*;

verus! {

/// `a` comes before `b` in the order of their characters (which is the
/// order of their UTF-8 bytes, the order of `str`).
pub open spec fn name_lt(a: Seq<char>, b: Seq<char>) -> bool
    decreases a.len(),
{
    if a.len() == 0 {
        b.len() > 0
    } else if b.len() == 0 {
        false
    } else if a[0] != b[0] {
        a[0] < b[0]
    } else {
        name_lt(a.drop_first(), b.drop_first())
    }
}

/// The names are in strictly increasing order.
pub open spec fn sorted_names<E>(es: Seq<(Seq<char>, E)>) -> bool {
    forall|i: int, j: int| 0 <= i < j < es.len() ==> name_lt(#[trigger] es[i].0, #[trigger] es[j].0)
}

/// A position of `es` that holds `name`, when there is one.
pub open spec fn slot_pos<E>(es: Seq<(Seq<char>, E)>, name: Seq<char>) -> int {
    choose|i: int| 0 <= i < es.len() && #[trigger] es[i].0 == name
}

/// The data stored under `name`, if any.
pub open spec fn slot<E>(es: Seq<(Seq<char>, E)>, name: Seq<char>) -> Option<E> {
    if exists|i: int| 0 <= i < es.len() && #[trigger] es[i].0 == name {
        Some(es[slot_pos(es, name)].1)
    } else {
        None
    }
}

proof fn lemma_name_lt_irreflexive(a: Seq<char>)
    ensures
        !name_lt(a, a),
    decreases a.len(),
{
    if a.len() > 0 {
        lemma_name_lt_irreflexive(a.drop_first());
    }
}

proof fn lemma_name_lt_transitive(a: Seq<char>, b: Seq<char>, c: Seq<char>)
    requires
        name_lt(a, b),
        name_lt(b, c),
    ensures
        name_lt(a, c),
    decreases a.len(),
{
    if a.len() > 0 && b.len() > 0 && c.len() > 0 && a[0] == b[0] && b[0] == c[0] {
        lemma_name_lt_transitive(a.drop_first(), b.drop_first(), c.drop_first());
    }
}

proof fn lemma_name_lt_total(a: Seq<char>, b: Seq<char>)
    ensures
        a == b || name_lt(a, b) || name_lt(b, a),
    decreases a.len(),
{
    if a.len() > 0 && b.len() > 0 && a[0] == b[0] {
        lemma_name_lt_total(a.drop_first(), b.drop_first());
        if a.drop_first() == b.drop_first() {
            assert(a =~= seq![a[0]] + a.drop_first());
            assert(b =~= seq![b[0]] + b.drop_first());
        }
    } else if a.len() == 0 && b.len() == 0 {
        assert(a =~= b);
    }
}

/// With names in increasing order, the slot of a name is the data at the
/// one position that holds it.
proof fn lemma_slot_at<E>(es: Seq<(Seq<char>, E)>, i: int)
    requires
        sorted_names(es),
        0 <= i < es.len(),
    ensures
        slot(es, es[i].0) == Some(es[i].1),
{
    let name = es[i].0;
    assert(exists|k: int| 0 <= k < es.len() && #[trigger] es[k].0 == name);
    let k = slot_pos(es, name);
    if k < i {
        assert(name_lt(es[k].0, es[i].0));
        lemma_name_lt_irreflexive(name);
    } else if k > i {
        assert(name_lt(es[i].0, es[k].0));
        lemma_name_lt_irreflexive(name);
    }
}

/// Whether `a` comes before `b`.
pub fn name_less(a: &str, b: &str) -> (r: bool)
    ensures
        r == name_lt(a@, b@),
{
    let x = crate::text::chars_of(a);
    let y = crate::text::chars_of(b);
    let mut i: usize = 0;
    assert(x@.skip(0) =~= x@);
    assert(y@.skip(0) =~= y@);
    while i < x.len() && i < y.len() && x[i] == y[i]
        invariant
            i <= x@.len(),
            i <= y@.len(),
            name_lt(x@, y@) == name_lt(x@.skip(i as int), y@.skip(i as int)),
        decreases x@.len() - i,
    {
        assert(x@.skip(i as int).drop_first() =~= x@.skip(i + 1));
        assert(y@.skip(i as int).drop_first() =~= y@.skip(i + 1));
        i += 1;
    }
    let ghost xs = x@.skip(i as int);
    let ghost ys = y@.skip(i as int);
    if i == x.len() {
        assert(xs.len() == 0);
        i < y.len()
    } else if i == y.len() {
        false
    } else {
        assert(xs[0] == x@[i as int] && ys[0] == y@[i as int]);
        x[i] < y[i]
    }
}

/// Named data slots, in name order.
pub struct DataTable<E> {
    slots: Vec<(String, E)>,
}

/// Slots as names and data.
pub open spec fn entries_of<E>(v: Seq<(String, E)>) -> Seq<(Seq<char>, E)> {
    v.map_values(|s: (String, E)| (s.0@, s.1))
}

impl<E> DataTable<E> {
    /// The slots: names and data, in name order.
    pub closed spec fn entries(&self) -> Seq<(Seq<char>, E)> {
        entries_of(self.slots@)
    }

    /// The table keeps its names in increasing order.
    #[verifier::type_invariant]
    spec fn well_formed(self) -> bool {
        sorted_names(entries_of(self.slots@))
    }

    /// The data stored under `name`, if any.
    pub open spec fn data(&self, name: Seq<char>) -> Option<E> {
        slot(self.entries(), name)
    }

    /// Create empty table.
    pub fn new() -> (r: Self)
        ensures
            forall|n: Seq<char>| #[trigger] r.data(n) is None,
    {
        let v: Vec<(String, E)> = Vec::new();
        assert(entries_of(v@) =~= Seq::<(Seq<char>, E)>::empty());
        let r = DataTable { slots: v };
        assert(r.entries() =~= Seq::<(Seq<char>, E)>::empty());
        r
    }

    /// [`Self::set`] on the slots themselves.
    fn set_in(slots: &mut Vec<(String, E)>, name: &str, data: E) -> (r: Option<E>)
        requires
            sorted_names(entries_of(old(slots)@)),
        ensures
            sorted_names(entries_of(final(slots)@)),
            r == slot(entries_of(old(slots)@), name@),
            slot(entries_of(final(slots)@), name@) == Some(data),
            forall|n: Seq<char>|
                n != name@ ==> #[trigger] slot(entries_of(final(slots)@), n) == slot(
                    entries_of(old(slots)@),
                    n,
                ),
    {
        let ghost es = entries_of(slots@);
        let mut i: usize = 0;
        while i < slots.len() && name_less(slots[i].0.as_str(), name)
            invariant
                i <= slots@.len(),
                es == entries_of(slots@),
                es.len() == slots@.len(),
                sorted_names(es),
                forall|j: int| 0 <= j < i ==> name_lt(#[trigger] es[j].0, name@),
            decreases slots@.len() - i,
        {
            assert(es[i as int].0 == slots@[i as int].0@);
            i += 1;
        }
        if i < slots.len() && crate::text::str_eq(slots[i].0.as_str(), name) {
            assert(es[i as int].0 == name@);
            proof {
                lemma_slot_at(es, i as int);
            }
            let (key, old_data) = slots.remove(i);
            slots.insert(i, (key, data));
            let ghost ns = entries_of(slots@);
            assert(ns =~= es.update(i as int, (name@, data)));
            proof {
                assert(sorted_names(ns)) by {
                    assert forall|a: int, b: int| 0 <= a < b < ns.len() implies name_lt(#[trigger] ns[a].0, #[trigger] ns[b].0) by {
                        assert(ns[a].0 == es[a].0 && ns[b].0 == es[b].0);
                    }
                }
                lemma_slot_at(ns, i as int);
                assert forall|n: Seq<char>| n != name@ implies #[trigger] slot(ns, n) == slot(es, n) by {
                    if exists|k: int| 0 <= k < es.len() && #[trigger] es[k].0 == n {
                        let k = choose|k: int| 0 <= k < es.len() && #[trigger] es[k].0 == n;
                        lemma_slot_at(es, k);
                        assert(ns[k] == es[k]);
                        lemma_slot_at(ns, k);
                    } else {
                        assert(!exists|k: int| 0 <= k < ns.len() && #[trigger] ns[k].0 == n) by {
                            if exists|k: int| 0 <= k < ns.len() && #[trigger] ns[k].0 == n {
                                let k = choose|k: int| 0 <= k < ns.len() && #[trigger] ns[k].0 == n;
                                assert(ns[k].0 == es[k].0);
                            }
                        }
                    }
                }
            }
            Some(old_data)
        } else {
            proof {
                if i < es.len() {
                    lemma_name_lt_total(es[i as int].0, name@);
                    assert(es[i as int].0 != name@);
                    assert(name_lt(name@, es[i as int].0));
                }
                assert forall|j: int| 0 <= j < es.len() implies #[trigger] es[j].0 != name@ by {
                    if j < i {
                        lemma_name_lt_irreflexive(name@);
                    } else if j > i {
                        lemma_name_lt_transitive(name@, es[i as int].0, es[j].0);
                        lemma_name_lt_irreflexive(name@);
                    } else {
                        lemma_name_lt_irreflexive(name@);
                    }
                }
            }
            let key = crate::text::owned(name);
            slots.insert(i, (key, data));
            let ghost ns = entries_of(slots@);
            assert(ns =~= es.insert(i as int, (name@, data)));
            proof {
                assert(sorted_names(ns)) by {
                    assert forall|a: int, b: int| 0 <= a < b < ns.len() implies name_lt(#[trigger] ns[a].0, #[trigger] ns[b].0) by {
                        if b < i {
                            assert(ns[a] == es[a] && ns[b] == es[b]);
                        } else if a > i {
                            assert(ns[a] == es[a - 1] && ns[b] == es[b - 1]);
                        } else if a == i {
                            assert(ns[b] == es[b - 1]);
                            assert(ns[a].0 == name@);
                            if b - 1 > i {
                                assert(name_lt(es[i as int].0, es[b - 1].0));
                                lemma_name_lt_transitive(name@, es[i as int].0, es[b - 1].0);
                            }
                        } else if b == i {
                            assert(ns[a] == es[a]);
                        } else {
                            assert(ns[a] == es[a] && ns[b] == es[b - 1]);
                        }
                    }
                }
                lemma_slot_at(ns, i as int);
                assert forall|n: Seq<char>| n != name@ implies #[trigger] slot(ns, n) == slot(es, n) by {
                    if exists|k: int| 0 <= k < es.len() && #[trigger] es[k].0 == n {
                        let k = choose|k: int| 0 <= k < es.len() && #[trigger] es[k].0 == n;
                        lemma_slot_at(es, k);
                        let k2 = if k < i { k } else { k + 1 };
                        assert(ns[k2] == es[k]);
                        lemma_slot_at(ns, k2);
                    } else {
                        assert(!exists|k: int| 0 <= k < ns.len() && #[trigger] ns[k].0 == n) by {
                            if exists|k: int| 0 <= k < ns.len() && #[trigger] ns[k].0 == n {
                                let k = choose|k: int| 0 <= k < ns.len() && #[trigger] ns[k].0 == n;
                                if k < i {
                                    assert(ns[k] == es[k]);
                                } else if k > i {
                                    assert(ns[k] == es[k - 1]);
                                }
                            }
                        }
                    }
                }
            }
            None
        }
    }

    /// Insert or replace the data of `name`; the data it replaces, if any,
    /// is handed back for the caller to clean up.
    pub fn set(&mut self, name: &str, data: E) -> (r: Option<E>)
        ensures
            r == old(self).data(name@),
            final(self).data(name@) == Some(data),
            forall|n: Seq<char>| n != name@ ==> #[trigger] final(self).data(n) == old(self).data(n),
    {
        proof {
            use_type_invariant(&*self);
        }
        let mut slots: Vec<(String, E)> = Vec::new();
        std::mem::swap(&mut slots, &mut self.slots);
        let r = Self::set_in(&mut slots, name, data);
        self.slots = slots;
        r
    }

    /// The data stored under `name`.
    pub fn get(&self, name: &str) -> (r: Option<&E>)
        ensures
            match self.data(name@) {
                Some(d) => r == Some(&d),
                None => r is None,
            },
    {
        proof {
            use_type_invariant(self);
        }
        let ghost es = self.entries();
        let mut i: usize = 0;
        while i < self.slots.len()
            invariant
                i <= self.slots@.len(),
                es == self.entries(),
                es.len() == self.slots@.len(),
                sorted_names(es),
                forall|j: int| 0 <= j < i ==> #[trigger] es[j].0 != name@,
            decreases self.slots@.len() - i,
        {
            assert(es[i as int] == (self.slots@[i as int].0@, self.slots@[i as int].1));
            if crate::text::str_eq(self.slots[i].0.as_str(), name) {
                proof {
                    lemma_slot_at(es, i as int);
                }
                return Some(&self.slots[i].1);
            }
            i += 1;
        }
        None
    }

    /// Empty the table, handing back every slot's data in name order.
    pub fn take_all(&mut self) -> (r: Vec<E>)
        ensures
            forall|n: Seq<char>| #[trigger] final(self).data(n) is None,
            r@ == old(self).entries().map_values(|s: (Seq<char>, E)| s.1),
    {
        let mut rest: Vec<(String, E)> = Vec::new();
        std::mem::swap(&mut rest, &mut self.slots);
        let ghost all = rest@;
        let ghost es = all.map_values(|s: (String, E)| (s.0@, s.1));
        assert(es == old(self).entries());
        let mut out: Vec<E> = Vec::new();
        let ghost mut k: int = 0;
        assert(all.skip(0) =~= all);
        while rest.len() > 0
            invariant
                0 <= k <= all.len(),
                es == all.map_values(|s: (String, E)| (s.0@, s.1)),
                rest@ == all.skip(k),
                out@ == es.take(k).map_values(|s: (Seq<char>, E)| s.1),
            decreases rest@.len(),
        {
            let (_name, d) = rest.remove(0);
            assert(d == all[k].1);
            out.push(d);
            proof {
                assert(all.skip(k).remove(0) =~= all.skip(k + 1));
                k = k + 1;
            }
            assert(out@ =~= es.take(k).map_values(|s: (Seq<char>, E)| s.1));
        }
        assert(k == all.len());
        assert(es.take(k) =~= es);
        assert(self.entries() =~= Seq::<(Seq<char>, E)>::empty());
        out
    }
}

} // verus!
