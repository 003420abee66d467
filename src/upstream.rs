use vstd::prelude::*;

use crate::message::Rcode;

verus! {

/// Longest back-off of an unhealthy member, in seconds.
pub const MAX_BACKOFF_SECS: u64 = 300;

/// How a group runs its members.
#[derive(Clone, Copy, PartialEq, Eq, Structural, Debug)]
pub enum GroupPolicy {
    /// All members at once; the first usable answer wins.
    ParallelFastest,
    /// One member after another, moving on only on transport failure.
    Sequential,
    /// All members at once; after the first NOERROR, wait a short window
    /// for an answer with more records.
    Race,
}

/// What one attempt against one member gave.
#[derive(Clone, Copy, PartialEq, Eq, Structural, Debug)]
pub enum Outcome {
    /// A DNS answer: its code, its number of answer records, and when it
    /// arrived, in milliseconds from the start of the call.
    Answered { rcode: Rcode, answers: u64, at_ms: u64 },
    Timeout,
    TransportError,
}

/// An answer is usable when its code is NOERROR or NXDOMAIN.
pub open spec fn usable(o: Outcome) -> bool {
    o matches Outcome::Answered { rcode, .. } && (rcode == Rcode::NoError || rcode
        == Rcode::NxDomain)
}

pub open spec fn is_noerror(o: Outcome) -> bool {
    o matches Outcome::Answered { rcode, .. } && rcode == Rcode::NoError
}

pub open spec fn arrival(o: Outcome) -> int {
    match o {
        Outcome::Answered { at_ms, .. } => at_ms as int,
        _ => 0,
    }
}

pub open spec fn answer_count(o: Outcome) -> int {
    match o {
        Outcome::Answered { answers, .. } => answers as int,
        _ => 0,
    }
}

pub fn is_usable(o: Outcome) -> (r: bool)
    ensures
        r == usable(o),
{
    match o {
        Outcome::Answered { rcode, .. } => rcode == Rcode::NoError || rcode == Rcode::NxDomain,
        _ => false,
    }
}

fn is_noerror_exec(o: Outcome) -> (r: bool)
    ensures
        r == is_noerror(o),
{
    match o {
        Outcome::Answered { rcode, .. } => rcode == Rcode::NoError,
        _ => false,
    }
}

/// The winner of a parallel call, with outcomes listed in order of arrival:
/// the first usable answer, if any.
pub fn pick_fastest(outcomes: &Vec<Outcome>) -> (r: Option<usize>)
    ensures
        r is None <==> forall|i: int| 0 <= i < outcomes@.len() ==> !usable(#[trigger] outcomes@[i]),
        r matches Some(w) ==> w < outcomes@.len() && usable(outcomes@[w as int]) && forall|i: int|
            0 <= i < w ==> !usable(#[trigger] outcomes@[i]),
{
    let mut i: usize = 0;
    while i < outcomes.len()
        invariant
            0 <= i <= outcomes@.len(),
            forall|k: int| 0 <= k < i ==> !usable(#[trigger] outcomes@[k]),
        decreases outcomes@.len() - i,
    {
        if is_usable(outcomes[i]) {
            return Some(i);
        }
        i = i + 1;
    }
    None
}

/// The winner of a race with a wait window of `window_ms`, outcomes listed in
/// order of arrival. Without a NOERROR answer it is the first usable answer.
/// Otherwise, among the NOERROR answers that arrived no later than the first
/// NOERROR plus the window, the one with the most records, the earliest
/// among equals.
pub open spec fn race_winner(s: Seq<Outcome>, window_ms: u64, f: int, w: int) -> bool {
    &&& 0 <= f <= w < s.len()
    &&& is_noerror(s[f])
    &&& forall|i: int| 0 <= i < f ==> !is_noerror(#[trigger] s[i])
    &&& is_noerror(s[w])
    &&& arrival(s[w]) <= arrival(s[f]) + window_ms
    &&& forall|i: int|
        0 <= i < s.len() && is_noerror(#[trigger] s[i]) && arrival(s[i]) <= arrival(s[f])
            + window_ms ==> answer_count(s[i]) <= answer_count(s[w])
    &&& forall|i: int|
        0 <= i < w && is_noerror(#[trigger] s[i]) && arrival(s[i]) <= arrival(s[f]) + window_ms
            ==> answer_count(s[i]) < answer_count(s[w])
}

pub fn pick_race(outcomes: &Vec<Outcome>, window_ms: u64) -> (r: Option<usize>)
    ensures
        (forall|i: int| 0 <= i < outcomes@.len() ==> !is_noerror(#[trigger] outcomes@[i])) ==> {
            &&& r is None <==> forall|i: int|
                0 <= i < outcomes@.len() ==> !usable(#[trigger] outcomes@[i])
            &&& r matches Some(w) ==> w < outcomes@.len() && usable(outcomes@[w as int])
                && forall|i: int| 0 <= i < w ==> !usable(#[trigger] outcomes@[i])
        },
        (exists|i: int| 0 <= i < outcomes@.len() && is_noerror(#[trigger] outcomes@[i])) ==> (
        r matches Some(w) && exists|f: int| race_winner(outcomes@, window_ms, f, w as int)),
{
    let mut f: usize = 0;
    while f < outcomes.len() && !is_noerror_exec(outcomes[f])
        invariant
            0 <= f <= outcomes@.len(),
            forall|k: int| 0 <= k < f ==> !is_noerror(#[trigger] outcomes@[k]),
        decreases outcomes@.len() - f,
    {
        f = f + 1;
    }
    if f == outcomes.len() {
        return pick_fastest(outcomes);
    }
    let first_at = match outcomes[f] {
        Outcome::Answered { at_ms, .. } => at_ms,
        _ => 0,
    };
    let limit: u64 = if first_at > u64::MAX - window_ms {
        u64::MAX
    } else {
        first_at + window_ms
    };
    let mut best: usize = f;
    let mut best_count: u64 = match outcomes[f] {
        Outcome::Answered { answers, .. } => answers,
        _ => 0,
    };
    let mut i: usize = 0;
    while i < outcomes.len()
        invariant
            0 <= f < outcomes@.len(),
            is_noerror(outcomes@[f as int]),
            forall|k: int| 0 <= k < f ==> !is_noerror(#[trigger] outcomes@[k]),
            first_at == arrival(outcomes@[f as int]),
            limit as int == if first_at + window_ms > u64::MAX {
                u64::MAX as int
            } else {
                first_at + window_ms
            },
            0 <= i <= outcomes@.len(),
            best < outcomes@.len(),
            (best as int) < i || best == f,
            is_noerror(outcomes@[best as int]),
            arrival(outcomes@[best as int]) <= arrival(outcomes@[f as int]) + window_ms,
            best_count == answer_count(outcomes@[best as int]),
            forall|k: int|
                0 <= k < i && is_noerror(#[trigger] outcomes@[k]) && arrival(outcomes@[k])
                    <= arrival(outcomes@[f as int]) + window_ms ==> answer_count(outcomes@[k])
                    <= best_count,
            forall|k: int|
                0 <= k < best && is_noerror(#[trigger] outcomes@[k]) && arrival(outcomes@[k])
                    <= arrival(outcomes@[f as int]) + window_ms ==> answer_count(outcomes@[k])
                    < best_count,
        decreases outcomes@.len() - i,
    {
        if let Outcome::Answered { rcode: Rcode::NoError, answers, at_ms } = outcomes[i] {
            if at_ms <= limit && answers > best_count {
                best = i;
                best_count = answers;
            }
        }
        i = i + 1;
    }
    assert(race_winner(outcomes@, window_ms, f as int, best as int));
    let r = Some(best);
    assert(r matches Some(w) && race_winner(outcomes@, window_ms, f as int, w as int));
    r
}

/// What a sequential call does next.
#[derive(Clone, Copy, PartialEq, Eq, Structural, Debug)]
pub enum SeqStep {
    /// Query the member with this index.
    Try(usize),
    /// The attempt with this index gave the answer to return.
    Done(usize),
    /// Every member failed at the transport level.
    Fail,
}

/// The next step of a sequential call over `members` members, given the
/// outcomes of its attempts so far. Each member gets two attempts, the second
/// only after a transport failure of the first; any DNS answer ends the call.
pub open spec fn seq_step_spec(members: nat, outcomes: Seq<Outcome>) -> SeqStep {
    if outcomes.len() > 0 && outcomes.last() is Answered {
        SeqStep::Done((outcomes.len() - 1) as usize)
    } else if outcomes.len() < 2 * members {
        SeqStep::Try((outcomes.len() / 2) as usize)
    } else {
        SeqStep::Fail
    }
}

pub fn sequential_step(members: usize, outcomes: &Vec<Outcome>) -> (r: SeqStep)
    ensures
        r == seq_step_spec(members as nat, outcomes@),
{
    let n = outcomes.len();
    if n > 0 {
        if let Outcome::Answered { .. } = outcomes[n - 1] {
            return SeqStep::Done(n - 1);
        }
    }
    if n / 2 < members {
        SeqStep::Try(n / 2)
    } else {
        SeqStep::Fail
    }
}

/// Health of one member: its run of consecutive failures, the back-off it
/// last got, and the time (seconds) until which it is skipped.
#[derive(Clone, Copy, PartialEq, Eq, Structural, Debug)]
pub struct Health {
    pub failures: u32,
    pub backoff_secs: u64,
    pub skip_until: u64,
}

/// The back-off after `prev`: the base first, then doubled, capped.
pub open spec fn next_backoff(prev: u64, base: u64) -> u64 {
    if prev == 0 {
        if base < MAX_BACKOFF_SECS {
            base
        } else {
            MAX_BACKOFF_SECS
        }
    } else if prev >= MAX_BACKOFF_SECS / 2 {
        MAX_BACKOFF_SECS
    } else {
        (2 * prev) as u64
    }
}

pub open spec fn skipped(h: Health, now: u64, threshold: u32) -> bool {
    h.failures >= threshold && now < h.skip_until
}

impl Health {
    pub fn new() -> (r: Health)
        ensures
            r.failures == 0 && r.backoff_secs == 0 && r.skip_until == 0,
    {
        Health { failures: 0, backoff_secs: 0, skip_until: 0 }
    }

    /// Records a transport failure at `now`. Once the run reaches `threshold`,
    /// the member is skipped for a back-off that starts at `base_secs` and
    /// doubles with each further failure, up to five minutes.
    pub fn record_failure(&mut self, now: u64, threshold: u32, base_secs: u64)
        requires
            old(self).backoff_secs <= MAX_BACKOFF_SECS,
            now <= u64::MAX - MAX_BACKOFF_SECS,
        ensures
            final(self).failures == if old(self).failures == u32::MAX {
                u32::MAX
            } else {
                (old(self).failures + 1) as u32
            },
            final(self).failures >= threshold ==> final(self).backoff_secs == next_backoff(
                old(self).backoff_secs,
                base_secs,
            ) && final(self).skip_until == now + final(self).backoff_secs,
            final(self).failures < threshold ==> final(self).backoff_secs == old(
                self,
            ).backoff_secs && final(self).skip_until == old(self).skip_until,
            final(self).backoff_secs <= MAX_BACKOFF_SECS,
    {
        if self.failures < u32::MAX {
            self.failures = self.failures + 1;
        }
        if self.failures >= threshold {
            let b = if self.backoff_secs == 0 {
                if base_secs < MAX_BACKOFF_SECS {
                    base_secs
                } else {
                    MAX_BACKOFF_SECS
                }
            } else if self.backoff_secs >= MAX_BACKOFF_SECS / 2 {
                MAX_BACKOFF_SECS
            } else {
                2 * self.backoff_secs
            };
            self.backoff_secs = b;
            self.skip_until = now + b;
        }
    }

    /// Records a usable answer: the member is healthy again.
    pub fn record_success(&mut self)
        ensures
            final(self).failures == 0 && final(self).backoff_secs == 0 && final(self).skip_until
                == 0,
    {
        self.failures = 0;
        self.backoff_secs = 0;
        self.skip_until = 0;
    }

    pub fn is_skipped(&self, now: u64, threshold: u32) -> (r: bool)
        ensures
            r == skipped(*self, now, threshold),
    {
        self.failures >= threshold && now < self.skip_until
    }
}

/// The members a call tries, in order: those not in back-off; when every
/// member is in back-off, the last member still is tried.
pub open spec fn to_try_spec(h: Seq<Health>, now: u64, threshold: u32) -> Seq<usize>
    decreases h.len(),
{
    let picked = Seq::new(h.len(), |i: int| i as usize).filter(
        |i: usize| !skipped(h[i as int], now, threshold),
    );
    if picked.len() == 0 && h.len() > 0 {
        seq![(h.len() - 1) as usize]
    } else {
        picked
    }
}

pub open spec fn not_skipped_upto(h: Seq<Health>, now: u64, threshold: u32, n: int) -> Seq<usize> {
    Seq::new(n as nat, |i: int| i as usize).filter(|i: usize| !skipped(h[i as int], now, threshold))
}

pub fn members_to_try(health: &Vec<Health>, now: u64, threshold: u32) -> (r: Vec<usize>)
    ensures
        r@ == to_try_spec(health@, now, threshold),
{
    let mut out: Vec<usize> = Vec::new();
    let mut i: usize = 0;
    while i < health.len()
        invariant
            0 <= i <= health@.len(),
            out@ == not_skipped_upto(health@, now, threshold, i as int),
        decreases health@.len() - i,
    {
        let ghost prev = Seq::new(i as nat, |k: int| k as usize);
        let ghost next = Seq::new((i + 1) as nat, |k: int| k as usize);
        assert(next.drop_last() =~= prev);
        assert(next.last() == i);
        proof {
            reveal(Seq::filter);
        }
        if !health[i].is_skipped(now, threshold) {
            out.push(i);
        }
        i = i + 1;
    }
    assert(Seq::new(health@.len(), |k: int| k as usize) =~= Seq::new(
        health@.len() as nat,
        |k: int| k as usize,
    ));
    if out.len() == 0 && health.len() > 0 {
        let mut last: Vec<usize> = Vec::new();
        last.push(health.len() - 1);
        assert(last@ =~= seq![(health@.len() - 1) as usize]);
        return last;
    }
    out
}

/// The group a query goes to: the matched group when it exists, else the
/// default group.
pub open spec fn group_for(n_groups: nat, matched: Option<u64>, default_group: usize) -> usize {
    match matched {
        Some(g) if g < n_groups => g as usize,
        _ => default_group,
    }
}

pub fn select_group(n_groups: usize, matched: Option<u64>, default_group: usize) -> (r: usize)
    ensures
        r == group_for(n_groups as nat, matched, default_group),
{
    match matched {
        Some(g) if g < n_groups as u64 => g as usize,
        _ => default_group,
    }
}

} // verus!
