use vstd::prelude::*;

use crate::message::{copy_records, is_address, RData, Record};

verus! {

/// What a probe of one address found: whether it answered, and its round-trip
/// time in milliseconds.
#[derive(Clone, Copy, PartialEq, Eq, Structural, Debug)]
pub struct Reachability {
    pub ok: bool,
    pub rtt_ms: u64,
}

/// `a` ranks no later than `b`: reachable before unreachable, then by
/// round-trip time.
pub open spec fn rank_le(a: Reachability, b: Reachability) -> bool {
    (a.ok && !b.ok) || (a.ok == b.ok && a.rtt_ms <= b.rtt_ms)
}

/// The rank a record sorts by: its probe for an address record; a record of
/// another type ranks ahead of every address.
pub open spec fn effective(r: Record, p: Reachability) -> Reachability {
    if is_address(r) {
        p
    } else {
        Reachability { ok: true, rtt_ms: 0 }
    }
}

/// The first index from `i` whose rank is strictly after `x`.
pub open spec fn first_after(s: Seq<(Record, Reachability)>, x: Reachability, i: int) -> int
    decreases s.len() - i,
{
    if i >= s.len() {
        s.len() as int
    } else if !rank_le(s[i].1, x) {
        i
    } else {
        first_after(s, x, i + 1)
    }
}

/// The stable sort of `s` by rank: each element goes after every element
/// before it whose rank is no later.
pub open spec fn sort_by_rank(s: Seq<(Record, Reachability)>) -> Seq<(Record, Reachability)>
    decreases s.len(),
{
    if s.len() == 0 {
        Seq::empty()
    } else {
        let t = sort_by_rank(s.drop_last());
        t.insert(first_after(t, s.last().1, 0), s.last())
    }
}

pub open spec fn ranked(answers: Seq<Record>, probes: Seq<Reachability>) -> Seq<(Record, Reachability)> {
    Seq::new(answers.len(), |i: int| (answers[i], effective(answers[i], probes[i])))
}

pub open spec fn address_count(s: Seq<Record>) -> nat
    decreases s.len(),
{
    if s.len() == 0 {
        0
    } else {
        address_count(s.drop_last()) + if is_address(s.last()) {
            1nat
        } else {
            0nat
        }
    }
}

pub open spec fn some_address_reachable(answers: Seq<Record>, probes: Seq<Reachability>) -> bool {
    exists|i: int| 0 <= i < answers.len() && is_address(answers[i]) && (#[trigger] probes[i]).ok
}

/// The answers in the order the speed test leaves them. They are unchanged when
/// the query opts out, when fewer than two are addresses, or when no address
/// answered its probe; otherwise they are stably sorted by rank.
pub open spec fn reordered(answers: Seq<Record>, probes: Seq<Reachability>, opt_out: bool) -> Seq<Record> {
    if opt_out || address_count(answers) < 2 || !some_address_reachable(answers, probes) {
        answers
    } else {
        sort_by_rank(ranked(answers, probes)).map_values(|p: (Record, Reachability)| p.0)
    }
}

fn rank_le_exec(a: Reachability, b: Reachability) -> (r: bool)
    ensures
        r == rank_le(a, b),
{
    (a.ok && !b.ok) || (a.ok == b.ok && a.rtt_ms <= b.rtt_ms)
}

fn count_addresses(answers: &Vec<Record>) -> (r: usize)
    ensures
        r == address_count(answers@),
{
    let mut n: usize = 0;
    let mut i: usize = 0;
    while i < answers.len()
        invariant
            0 <= i <= answers@.len(),
            n == address_count(answers@.subrange(0, i as int)),
            n <= i,
        decreases answers@.len() - i,
    {
        assert(answers@.subrange(0, i + 1).drop_last() == answers@.subrange(0, i as int));
        if matches!(answers[i].data, RData::Addr(_)) {
            n = n + 1;
        }
        i = i + 1;
    }
    assert(answers@ == answers@.subrange(0, answers@.len() as int));
    n
}

/// Sorts `s` stably by rank.
pub fn sort_ranked(s: &Vec<(Record, Reachability)>) -> (r: Vec<(Record, Reachability)>)
    ensures
        r@ == sort_by_rank(s@),
{
    let mut out: Vec<(Record, Reachability)> = Vec::new();
    let mut i: usize = 0;
    while i < s.len()
        invariant
            0 <= i <= s@.len(),
            out@ == sort_by_rank(s@.subrange(0, i as int)),
            out@.len() == i,
        decreases s@.len() - i,
    {
        let x = s[i];
        let mut j: usize = 0;
        while j < out.len() && rank_le_exec(out[j].1, x.1)
            invariant
                0 <= j <= out@.len(),
                first_after(out@, x.1, 0) == first_after(out@, x.1, j as int),
            decreases out@.len() - j,
        {
            j = j + 1;
        }
        let ghost prev = out@;
        out.insert(j, x);
        let ghost pre = s@.subrange(0, i + 1);
        assert(pre.drop_last() == s@.subrange(0, i as int));
        assert(pre.last() == x);
        assert(first_after(prev, x.1, j as int) == j);
        i = i + 1;
    }
    assert(s@ == s@.subrange(0, s@.len() as int));
    out
}

/// Reorders `answers` by the probe results `probes` (one per answer, in the
/// same order) as the speed-test stage does.
pub fn reorder(answers: &Vec<Record>, probes: &Vec<Reachability>, opt_out: bool) -> (r: Vec<Record>)
    requires
        answers@.len() == probes@.len(),
    ensures
        r@ == reordered(answers@, probes@, opt_out),
{
    if opt_out || count_addresses(answers) < 2 {
        return copy_records(answers);
    }
    let mut reachable = false;
    let mut k: usize = 0;
    while k < answers.len()
        invariant
            0 <= k <= answers@.len(),
            answers@.len() == probes@.len(),
            reachable == exists|i: int|
                0 <= i < k && is_address(answers@[i]) && (#[trigger] probes@[i]).ok,
        decreases answers@.len() - k,
    {
        if matches!(answers[k].data, RData::Addr(_)) && probes[k].ok {
            reachable = true;
        }
        k = k + 1;
    }
    if !reachable {
        return copy_records(answers);
    }
    let mut pairs: Vec<(Record, Reachability)> = Vec::new();
    let mut i: usize = 0;
    while i < answers.len()
        invariant
            0 <= i <= answers@.len(),
            answers@.len() == probes@.len(),
            pairs@ == ranked(answers@, probes@).subrange(0, i as int),
        decreases answers@.len() - i,
    {
        let a = answers[i];
        let p = if matches!(a.data, RData::Addr(_)) {
            probes[i]
        } else {
            Reachability { ok: true, rtt_ms: 0 }
        };
        pairs.push((a, p));
        assert(ranked(answers@, probes@).subrange(0, i + 1) == ranked(answers@, probes@).subrange(
            0,
            i as int,
        ).push((a, p)));
        i = i + 1;
    }
    assert(pairs@ == ranked(answers@, probes@));
    let sorted = sort_ranked(&pairs);
    let mut out: Vec<Record> = Vec::new();
    let mut m: usize = 0;
    while m < sorted.len()
        invariant
            0 <= m <= sorted@.len(),
            out@ == sorted@.subrange(0, m as int).map_values(|p: (Record, Reachability)| p.0),
        decreases sorted@.len() - m,
    {
        out.push(sorted[m].0);
        assert(sorted@.subrange(0, m + 1) == sorted@.subrange(0, m as int).push(sorted@[m as int]));
        assert(sorted@.subrange(0, m + 1).map_values(|p: (Record, Reachability)| p.0) =~= out@);
        m = m + 1;
    }
    assert(sorted@ == sorted@.subrange(0, sorted@.len() as int));
    out
}

} // verus!
