//! The failed-attempt tally shared by `pam_faillock` and `pam_tally2`: one
//! file per user, one decimal unix timestamp per line, and what a module
//! does with it.

use vstd::prelude::*;

use crate::text::{
    chars_of, decimal, fits_one_line, lemma_lines_append, lemma_parse_decimal, line_ranges,
    lines, parse_unsigned, parse_unsigned_range, pieces_of, push_char, push_decimal,
    ranges_within, trim, trim_range,
};

verus! {

/// The timestamps of tally lines: each line, trimmed, that reads as a `u64`.
pub open spec fn tally_entries(ls: Seq<Seq<char>>) -> Seq<u64>
    decreases ls.len(),
{
    if ls.len() == 0 {
        Seq::empty()
    } else {
        let init = tally_entries(ls.drop_last());
        match parse_unsigned(trim(ls.last()), u64::MAX as int) {
            Some(v) => init.push(v as u64),
            None => init,
        }
    }
}

/// The text of a tally file holding `es`: one decimal per line.
pub open spec fn tally_text(es: Seq<u64>) -> Seq<char>
    decreases es.len(),
{
    if es.len() == 0 {
        Seq::empty()
    } else {
        tally_text(es.drop_last()) + decimal(es.last() as nat) + seq!['\n']
    }
}

/// The timestamps stored in tally text; lines that are not numbers are
/// skipped.
pub fn parse_tally(text: &str) -> (r: Vec<u64>)
    ensures
        r@ == tally_entries(lines(text@)),
{
    let s = chars_of(text);
    let lr = line_ranges(&s);
    let ghost ls = lines(s@);
    let mut out: Vec<u64> = Vec::new();
    let mut i: usize = 0;
    assert(ls.take(0) =~= Seq::<Seq<char>>::empty());
    while i < lr.len()
        invariant
            i <= lr@.len(),
            ranges_within(lr@, 0, s@.len() as int),
            pieces_of(s@, lr@) == ls,
            ls == lines(text@),
            out@ == tally_entries(ls.take(i as int)),
        decreases lr@.len() - i,
    {
        let (a, b) = lr[i];
        assert(ls[i as int] == s@.subrange(a as int, b as int));
        assert(ls.take(i + 1).drop_last() =~= ls.take(i as int));
        assert(ls.take(i + 1).last() == ls[i as int]);
        let (c, d) = trim_range(&s, a, b);
        match parse_unsigned_range(&s, c, d, u64::MAX) {
            Some(v) => out.push(v),
            None => {},
        }
        i += 1;
    }
    assert(ls.take(i as int) =~= ls);
    out
}

/// Tally text holding `entries`, one per line in order.
pub fn render_tally(entries: &[u64]) -> (r: String)
    ensures
        r@ == tally_text(entries@),
{
    let mut out = String::new();
    let mut i: usize = 0;
    assert(entries@.take(0) =~= Seq::<u64>::empty());
    while i < entries.len()
        invariant
            i <= entries@.len(),
            out@ == tally_text(entries@.take(i as int)),
        decreases entries@.len() - i,
    {
        assert(entries@.take(i + 1).drop_last() =~= entries@.take(i as int));
        assert(entries@.take(i + 1).last() == entries@[i as int]);
        push_decimal(&mut out, entries[i]);
        push_char(&mut out, '\n');
        i += 1;
        assert(out@ =~= tally_text(entries@.take(i as int)));
    }
    assert(entries@.take(i as int) =~= entries@);
    out
}

/// Reading a written tally gives back the timestamps written, in order.
pub proof fn law_tally_round_trip(es: Seq<u64>)
    ensures
        tally_entries(lines(tally_text(es))) == es,
    decreases es.len(),
{
    if es.len() == 0 {
        assert(lines(Seq::<char>::empty()) =~= Seq::<Seq<char>>::empty());
    } else {
        let init = es.drop_last();
        law_tally_round_trip(init);
        let r = tally_text(init);
        let d = decimal(es.last() as nat);
        lemma_parse_decimal(es.last() as nat, u64::MAX as int);
        if init.len() > 0 {
            assert(r.last() == '\n');
        }
        lemma_lines_append(r, d);
        let ls = lines(r).push(d);
        assert(ls.drop_last() =~= lines(r));
        assert(ls.last() == d);
        assert(init.push(es.last()) =~= es);
    }
}

/// Saturating `a - b` (`u64::saturating_sub`).
pub open spec fn sat_sub(a: u64, b: u64) -> int {
    if a >= b {
        a - b
    } else {
        0
    }
}

/// The timestamps of `es` no more than `window` seconds before `now`, in
/// order.
pub open spec fn recent(es: Seq<u64>, now: u64, window: u64) -> Seq<u64>
    decreases es.len(),
{
    if es.len() == 0 {
        Seq::empty()
    } else {
        let init = recent(es.drop_last(), now, window);
        if sat_sub(now, es.last()) <= window {
            init.push(es.last())
        } else {
            init
        }
    }
}

/// The latest timestamp of `es`, or 0 for none.
pub open spec fn latest(es: Seq<u64>) -> u64
    decreases es.len(),
{
    if es.len() == 0 {
        0
    } else if latest(es.drop_last()) >= es.last() {
        latest(es.drop_last())
    } else {
        es.last()
    }
}

/// `latest` is the largest timestamp: no timestamp of `es` is later, and
/// for a non-empty `es` it is one of them (0 when there is none).
pub proof fn law_latest_is_maximum(es: Seq<u64>)
    ensures
        forall|i: int| 0 <= i < es.len() ==> #[trigger] es[i] <= latest(es),
        es.len() > 0 ==> es.contains(latest(es)),
        es.len() == 0 ==> latest(es) == 0,
    decreases es.len(),
{
    if es.len() > 0 {
        let init = es.drop_last();
        law_latest_is_maximum(init);
        assert forall|i: int| 0 <= i < es.len() implies #[trigger] es[i] <= latest(es) by {
            if i < es.len() - 1 {
                assert(es[i] == init[i]);
            }
        }
        if latest(init) >= es.last() && init.len() > 0 {
            let j = choose|j: int| 0 <= j < init.len() && init[j] == latest(init);
            assert(es[j] == init[j]);
        } else {
            assert(es[es.len() - 1] == es.last());
        }
    }
}

/// A lock runs from the latest failure: `now` is within `unlock` seconds
/// of `latest(es)` exactly when it is within `unlock` seconds of some
/// failure in `es`.
pub proof fn law_lock_runs_from_latest(es: Seq<u64>, now: u64, unlock: int)
    requires
        es.len() > 0,
    ensures
        (sat_sub(now, latest(es)) < unlock) == (exists|i: int|
            0 <= i < es.len() && sat_sub(now, #[trigger] es[i]) < unlock),
{
    law_latest_is_maximum(es);
    let j = choose|j: int| 0 <= j < es.len() && es[j] == latest(es);
    assert(sat_sub(now, es[j]) == sat_sub(now, latest(es)));
    assert forall|i: int| 0 <= i < es.len() implies sat_sub(now, latest(es)) <= sat_sub(
        now,
        #[trigger] es[i],
    ) by {
        assert(es[i] <= latest(es));
    }
}

/// The timestamps of `es` within `window` seconds of `now`.
pub fn retain_recent(es: &Vec<u64>, now: u64, window: u64) -> (r: Vec<u64>)
    ensures
        r@ == recent(es@, now, window),
{
    let mut out: Vec<u64> = Vec::new();
    let mut i: usize = 0;
    assert(es@.take(0) =~= Seq::<u64>::empty());
    while i < es.len()
        invariant
            i <= es@.len(),
            out@ == recent(es@.take(i as int), now, window),
        decreases es@.len() - i,
    {
        assert(es@.take(i + 1).drop_last() =~= es@.take(i as int));
        assert(es@.take(i + 1).last() == es@[i as int]);
        if now.saturating_sub(es[i]) <= window {
            out.push(es[i]);
        }
        i += 1;
    }
    assert(es@.take(i as int) =~= es@);
    out
}

/// A copy of the timestamps `es`.
pub fn copy_entries(es: &Vec<u64>) -> (r: Vec<u64>)
    ensures
        r@ == es@,
{
    let mut out: Vec<u64> = Vec::new();
    let mut i: usize = 0;
    while i < es.len()
        invariant
            i <= es@.len(),
            out@ == es@.take(i as int),
        decreases es@.len() - i,
    {
        out.push(es[i]);
        i += 1;
        assert(out@ =~= es@.take(i as int));
    }
    assert(es@.take(i as int) =~= es@);
    out
}

/// The latest timestamp of `es`, or 0.
pub fn latest_of(es: &Vec<u64>) -> (r: u64)
    ensures
        r == latest(es@),
{
    let mut m: u64 = 0;
    let mut i: usize = 0;
    assert(es@.take(0) =~= Seq::<u64>::empty());
    while i < es.len()
        invariant
            i <= es@.len(),
            m == latest(es@.take(i as int)),
        decreases es@.len() - i,
    {
        assert(es@.take(i + 1).drop_last() =~= es@.take(i as int));
        assert(es@.take(i + 1).last() == es@[i as int]);
        if es[i] > m {
            m = es[i];
        }
        i += 1;
    }
    assert(es@.take(i as int) =~= es@);
    m
}

/// What a tally module does with the tally file.
#[derive(Debug)]
pub enum TallyAction {
    /// Let the attempt through; leave the file alone.
    Allow,
    /// Remove the user's tally and let the attempt through.
    Clear,
    /// Write these timestamps as the user's tally and let the attempt through.
    Record(Vec<u64>),
    /// Refuse the attempt (`PAM_AUTH_ERR`): the user is locked out after this
    /// many recent failures.
    Lock(usize),
}

} // verus!
