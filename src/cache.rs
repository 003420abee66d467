use vstd::prelude::*;

use crate::message::{RData, Rcode, Record, Response};
use crate::name::DomainName;

verus! {

/// The cache key of a query: its folded name, type, class and DO bit.
pub struct Fingerprint {
    pub name: DomainName,
    pub qtype: u16,
    pub qclass: u16,
    pub dnssec_ok: bool,
}

pub type KeyView = (Seq<Seq<u8>>, u16, u16, bool);

impl View for Fingerprint {
    type V = KeyView;

    open spec fn view(&self) -> KeyView {
        (self.name@, self.qtype, self.qclass, self.dnssec_ok)
    }
}

impl Fingerprint {
    pub fn same_as(&self, other: &Fingerprint) -> (r: bool)
        ensures
            r == (self@ == other@),
    {
        self.qtype == other.qtype && self.qclass == other.qclass && self.dnssec_ok
            == other.dnssec_ok && self.name.same_as(&other.name)
    }

    pub fn copy(&self) -> (r: Fingerprint)
        ensures
            r@ == self@,
    {
        Fingerprint {
            name: self.name.copy(),
            qtype: self.qtype,
            qclass: self.qclass,
            dnssec_ok: self.dnssec_ok,
        }
    }
}

/// TTL limits and the TTL given to negative answers, in seconds.
#[derive(Clone, Copy, Debug)]
pub struct TtlPolicy {
    pub min_ttl: u32,
    pub max_ttl: u32,
    pub negative_ttl: u32,
}

/// The smallest TTL of a non-empty sequence of records.
pub open spec fn min_ttl_spec(s: Seq<Record>) -> u32
    recommends
        s.len() > 0,
    decreases s.len(),
{
    if s.len() <= 1 {
        s[0].ttl
    } else {
        let m = min_ttl_spec(s.drop_last());
        if s.last().ttl < m {
            s.last().ttl
        } else {
            m
        }
    }
}

pub open spec fn clamp_spec(v: u32, lo: u32, hi: u32) -> u32 {
    if v < lo {
        lo
    } else if v > hi {
        hi
    } else {
        v
    }
}

/// A response is negative when it is NXDOMAIN or carries no answers.
pub open spec fn is_negative(rcode: Rcode, answers: Seq<Record>) -> bool {
    rcode == Rcode::NxDomain || answers.len() == 0
}

/// The TTL an entry is stored with: the negative TTL for a negative answer,
/// else the smallest answer TTL clamped to the policy's bounds.
pub open spec fn stored_ttl_spec(p: TtlPolicy, rcode: Rcode, answers: Seq<Record>) -> u32 {
    if is_negative(rcode, answers) {
        p.negative_ttl
    } else {
        clamp_spec(min_ttl_spec(answers), p.min_ttl, p.max_ttl)
    }
}

/// A TTL after `elapsed` seconds, floored at one.
pub open spec fn decayed(ttl: u32, elapsed: int) -> int {
    if ttl - elapsed < 1 {
        1
    } else {
        ttl - elapsed
    }
}

/// A record as served `elapsed` seconds after it was stored.
pub open spec fn serve_record(r: Record, elapsed: int) -> Record {
    Record { data: r.data, ttl: decayed(r.ttl, elapsed) as u32 }
}

pub open spec fn serve_records(s: Seq<Record>, elapsed: int) -> Seq<Record> {
    s.map_values(|r: Record| serve_record(r, elapsed))
}

/// The smallest TTL among `answers`.
pub fn min_ttl(answers: &Vec<Record>) -> (r: u32)
    requires
        answers@.len() > 0,
    ensures
        r == min_ttl_spec(answers@),
{
    let mut m = answers[0].ttl;
    let mut i: usize = 1;
    while i < answers.len()
        invariant
            1 <= i <= answers@.len(),
            m == min_ttl_spec(answers@.subrange(0, i as int)),
        decreases answers@.len() - i,
    {
        let ghost pre = answers@.subrange(0, i + 1);
        assert(pre.drop_last() == answers@.subrange(0, i as int));
        if answers[i].ttl < m {
            m = answers[i].ttl;
        }
        i = i + 1;
    }
    assert(answers@ == answers@.subrange(0, answers@.len() as int));
    m
}

/// The TTL a response is cached with under `policy`.
pub fn stored_ttl(policy: &TtlPolicy, rcode: Rcode, answers: &Vec<Record>) -> (r: u32)
    requires
        policy.min_ttl <= policy.max_ttl,
    ensures
        r == stored_ttl_spec(*policy, rcode, answers@),
{
    if rcode == Rcode::NxDomain || answers.len() == 0 {
        policy.negative_ttl
    } else {
        let m = min_ttl(answers);
        if m < policy.min_ttl {
            policy.min_ttl
        } else if m > policy.max_ttl {
            policy.max_ttl
        } else {
            m
        }
    }
}

/// A TTL decremented by `elapsed` seconds, floored at one.
pub fn decay_ttl(ttl: u32, elapsed: u64) -> (r: u32)
    ensures
        r == decayed(ttl, elapsed as int),
{
    if elapsed >= ttl as u64 {
        1
    } else {
        let d = ttl - elapsed as u32;
        if d < 1 {
            1
        } else {
            d
        }
    }
}

/// One cached response.
pub struct CacheEntry {
    pub key: Fingerprint,
    pub rcode: Rcode,
    pub answers: Vec<Record>,
    pub inserted_at: u64,
    pub ttl: u32,
}

/// An entry is live at `now` when it was stored no later and its TTL has not run out.
pub open spec fn live(e: CacheEntry, now: u64) -> bool {
    e.inserted_at <= now && now < e.inserted_at + e.ttl
}

/// The answer records of `e` as served at `now`.
pub open spec fn served(e: CacheEntry, now: u64) -> Seq<Record> {
    serve_records(e.answers@, now - e.inserted_at)
}

/// `resp` is what a live entry stored under `k` gives at `now`.
pub open spec fn hit_from(entries: Seq<CacheEntry>, k: KeyView, now: u64, resp: Response) -> bool {
    exists|i: int|
        0 <= i < entries.len() && entries[i].key@ == k && live(entries[i], now) && resp.rcode == (
        #[trigger] entries[i]).rcode && resp.answers@ == served(entries[i], now)
}

/// A bounded response cache keyed by fingerprint. Entries are kept oldest
/// first; an entry found by `lookup` moves to the protected segment, and
/// eviction takes the oldest unprotected entry first.
pub struct Cache {
    pub entries: Vec<CacheEntry>,
    pub protected: Vec<bool>,
    pub capacity: usize,
    pub policy: TtlPolicy,
}

impl Cache {
    /// Keys are unique, the cache holds at most `capacity` entries, and each
    /// entry has its protection mark.
    pub open spec fn wf(&self) -> bool {
        &&& 0 < self.capacity
        &&& self.entries@.len() <= self.capacity
        &&& self.protected@.len() == self.entries@.len()
        &&& self.policy.min_ttl <= self.policy.max_ttl
        &&& forall|i: int, j: int|
            0 <= i < j < self.entries@.len() ==> self.entries@[i].key@ != self.entries@[j].key@
    }

    /// The keys the cache holds.
    pub open spec fn keys(&self) -> Seq<KeyView> {
        self.entries@.map_values(|e: CacheEntry| e.key@)
    }

    pub fn new(capacity: usize, policy: TtlPolicy) -> (r: Cache)
        requires
            0 < capacity,
            policy.min_ttl <= policy.max_ttl,
        ensures
            r.wf(),
            r.entries@.len() == 0,
            r.capacity == capacity,
            r.policy == policy,
    {
        Cache { entries: Vec::new(), protected: Vec::new(), capacity, policy }
    }

    /// The index of the entry stored under `key`, if any.
    pub fn position(&self, key: &Fingerprint) -> (r: Option<usize>)
        ensures
            r is None <==> forall|i: int|
                0 <= i < self.entries@.len() ==> (#[trigger] self.entries@[i]).key@ != key@,
            r matches Some(i) ==> i < self.entries@.len() && self.entries@[i as int].key@
                == key@,
    {
        let mut i: usize = 0;
        while i < self.entries.len()
            invariant
                0 <= i <= self.entries@.len(),
                forall|k: int| 0 <= k < i ==> (#[trigger] self.entries@[k]).key@ != key@,
            decreases self.entries@.len() - i,
        {
            if self.entries[i].key.same_as(key) {
                return Some(i);
            }
            i = i + 1;
        }
        None
    }

    /// Looks `key` up at time `now`. A hit gives the stored code and answers,
    /// each TTL decremented by the time since insertion and floored at one, and
    /// moves the entry to the protected segment.
    pub fn lookup(&mut self, key: &Fingerprint, now: u64) -> (r: Option<Response>)
        requires
            old(self).wf(),
        ensures
            final(self).wf(),
            final(self).entries@ == old(self).entries@,
            r is Some <==> exists|i: int|
                0 <= i < old(self).entries@.len() && old(self).entries@[i].key@ == key@ && live(
                    #[trigger] old(self).entries@[i],
                    now,
                ),
            r matches Some(resp) ==> hit_from(old(self).entries@, key@, now, resp),
    {
        match self.position(key) {
            None => None,
            Some(i) => {
                let e = &self.entries[i];
                if now < e.inserted_at || now - e.inserted_at >= e.ttl as u64 {
                    proof {
                        assert forall|j: int|
                            0 <= j < self.entries@.len() && self.entries@[j].key@ == key@ implies !live(
                            #[trigger] self.entries@[j],
                            now,
                        ) by {
                            if j != i {
                                assert(self.entries@[j].key@ != self.entries@[i as int].key@);
                            }
                        }
                    }
                    None
                } else {
                    let elapsed = now - e.inserted_at;
                    let mut out: Vec<Record> = Vec::new();
                    let mut k: usize = 0;
                    while k < e.answers.len()
                        invariant
                            0 <= k <= e.answers@.len(),
                            elapsed == now - e.inserted_at,
                            out@ == serve_records(e.answers@.subrange(0, k as int), elapsed as int),
                        decreases e.answers@.len() - k,
                    {
                        let rec = e.answers[k];
                        out.push(Record { data: rec.data, ttl: decay_ttl(rec.ttl, elapsed) });
                        assert(e.answers@.subrange(0, k + 1) == e.answers@.subrange(0, k as int).push(
                            e.answers@[k as int],
                        ));
                        k = k + 1;
                    }
                    assert(e.answers@ == e.answers@.subrange(0, e.answers@.len() as int));
                    let resp = Response { rcode: e.rcode, answers: out };
                    self.protected.set(i, true);
                    Some(resp)
                }
            },
        }
    }
}


/// The record data of a sequence of records, TTLs left out.
pub open spec fn record_data(s: Seq<Record>) -> Seq<RData> {
    s.map_values(|r: Record| r.data)
}

/// A hit served twice while the entry is live carries the same records,
/// TTLs aside.
pub proof fn lemma_repeat_hit_same_records(e: CacheEntry, t1: u64, t2: u64)
    requires
        live(e, t1),
        live(e, t2),
    ensures
        record_data(served(e, t1)) == record_data(served(e, t2)),
        record_data(served(e, t1)) == record_data(e.answers@),
{
    assert(record_data(served(e, t1)) =~= record_data(e.answers@));
    assert(record_data(served(e, t2)) =~= record_data(e.answers@));
}

/// Two hits on one key, from a cache whose keys are unique, carry the same
/// code and the same records, TTLs aside. `lookup` leaves the entries as they
/// were, so this holds of any two lookups that hit.
pub proof fn lemma_idempotent_hits(
    entries: Seq<CacheEntry>,
    k: KeyView,
    t1: u64,
    t2: u64,
    r1: Response,
    r2: Response,
)
    requires
        forall|i: int, j: int| 0 <= i < j < entries.len() ==> entries[i].key@ != entries[j].key@,
        hit_from(entries, k, t1, r1),
        hit_from(entries, k, t2, r2),
    ensures
        r1.rcode == r2.rcode,
        record_data(r1.answers@) == record_data(r2.answers@),
{
    let i = choose|i: int|
        0 <= i < entries.len() && entries[i].key@ == k && live(entries[i], t1) && r1.rcode == (
        #[trigger] entries[i]).rcode && r1.answers@ == served(entries[i], t1);
    let j = choose|j: int|
        0 <= j < entries.len() && entries[j].key@ == k && live(entries[j], t2) && r2.rcode == (
        #[trigger] entries[j]).rcode && r2.answers@ == served(entries[j], t2);
    if i < j {
        assert(entries[i].key@ != entries[j].key@);
    } else if j < i {
        assert(entries[j].key@ != entries[i].key@);
    }
    lemma_repeat_hit_same_records(entries[i], t1, t2);
}

/// Serving an entry later never raises a record's TTL: between two serves at
/// `t1 <= t2` each TTL drops by exactly `t2 - t1`, floored at one.
pub proof fn lemma_ttl_monotone(e: CacheEntry, t1: u64, t2: u64)
    requires
        e.inserted_at <= t1 <= t2,
    ensures
        served(e, t1).len() == served(e, t2).len(),
        forall|j: int|
            0 <= j < served(e, t2).len() ==> {
                &&& served(e, t2)[j].ttl <= served(e, t1)[j].ttl
                &&& served(e, t2)[j].ttl == if served(e, t1)[j].ttl - (t2 - t1) < 1 {
                    1
                } else {
                    served(e, t1)[j].ttl - (t2 - t1)
                }
            },
{
    assert forall|j: int| 0 <= j < served(e, t2).len() implies {
        &&& served(e, t2)[j].ttl <= served(e, t1)[j].ttl
        &&& served(e, t2)[j].ttl == if served(e, t1)[j].ttl - (t2 - t1) < 1 {
            1
        } else {
            served(e, t1)[j].ttl - (t2 - t1)
        }
    } by {
        let ttl = e.answers@[j].ttl;
        assert(0 <= decayed(ttl, t1 - e.inserted_at) <= u32::MAX);
        assert(0 <= decayed(ttl, t2 - e.inserted_at) <= u32::MAX);
    }
}

impl Cache {
    /// The entry that makes room for a new one: the oldest unprotected entry,
    /// or the oldest entry when all are protected.
    pub open spec fn is_victim(p: Seq<bool>, v: int) -> bool {
        &&& 0 <= v < p.len()
        &&& forall|j: int| 0 <= j < v ==> p[j]
        &&& (!p[v] || (v == 0 && forall|j: int| 0 <= j < p.len() ==> p[j]))
    }

    fn victim(&self) -> (r: usize)
        requires
            self.protected@.len() > 0,
        ensures
            Self::is_victim(self.protected@, r as int),
    {
        let mut i: usize = 0;
        while i < self.protected.len()
            invariant
                0 <= i <= self.protected@.len(),
                forall|j: int| 0 <= j < i ==> self.protected@[j],
            decreases self.protected@.len() - i,
        {
            if !self.protected[i] {
                return i;
            }
            i = i + 1;
        }
        0
    }

    /// Stores a response under `key` at time `now` with the TTL of the cache's
    /// policy. Only NOERROR and NXDOMAIN responses are stored; an entry under
    /// the same key is replaced in place; a full cache first evicts its victim.
    pub fn insert(&mut self, key: Fingerprint, rcode: Rcode, answers: Vec<Record>, now: u64)
        requires
            old(self).wf(),
        ensures
            final(self).wf(),
            final(self).capacity == old(self).capacity,
            final(self).policy == old(self).policy,
            !(rcode == Rcode::NoError || rcode == Rcode::NxDomain) ==> final(self).entries@
                == old(self).entries@,
            (rcode == Rcode::NoError || rcode == Rcode::NxDomain) ==> {
                let e = CacheEntry {
                    key,
                    rcode,
                    answers,
                    inserted_at: now,
                    ttl: stored_ttl_spec(old(self).policy, rcode, answers@),
                };
                if exists|i: int|
                    0 <= i < old(self).entries@.len() && (#[trigger] old(
                        self,
                    ).entries@[i]).key@ == key@ {
                    exists|i: int|
                        0 <= i < old(self).entries@.len() && (#[trigger] old(
                            self,
                        ).entries@[i]).key@ == key@ && final(self).entries@ == old(
                            self,
                        ).entries@.update(i, e)
                } else if old(self).entries@.len() < old(self).capacity {
                    final(self).entries@ == old(self).entries@.push(e)
                } else {
                    exists|v: int|
                        Self::is_victim(old(self).protected@, v) && final(self).entries@ == old(
                            self,
                        ).entries@.remove(v).push(e)
                }
            },
    {
        if !(rcode == Rcode::NoError || rcode == Rcode::NxDomain) {
            return ;
        }
        let ttl = stored_ttl(&self.policy, rcode, &answers);
        match self.position(&key) {
            Some(i) => {
                let ghost e = CacheEntry { key, rcode, answers, inserted_at: now, ttl };
                let ghost before = self.entries@;
                let e = CacheEntry { key, rcode, answers, inserted_at: now, ttl };
                self.entries.set(i, e);
                assert(self.entries@ == before.update(i as int, e));
                assert forall|a: int, b: int|
                    0 <= a < b < self.entries@.len() implies self.entries@[a].key@
                    != self.entries@[b].key@ by {
                    assert(before[i as int].key@ == self.entries@[i as int].key@);
                }
            },
            None => {
                let ghost before = self.entries@;
                let ghost pbefore = self.protected@;
                if self.entries.len() >= self.capacity {
                    let v = self.victim();
                    self.entries.remove(v);
                    self.protected.remove(v);
                    assert(Self::is_victim(pbefore, v as int));
                    assert forall|a: int, b: int|
                        0 <= a < b < self.entries@.len() implies self.entries@[a].key@
                        != self.entries@[b].key@ by {
                        let a0 = if a < v { a } else { a + 1 };
                        let b0 = if b < v { b } else { b + 1 };
                        assert(self.entries@[a] == before[a0]);
                        assert(self.entries@[b] == before[b0]);
                    }
                }
                let ghost mid = self.entries@;
                let e = CacheEntry { key, rcode, answers, inserted_at: now, ttl };
                self.entries.push(e);
                self.protected.push(false);
                assert forall|a: int, b: int|
                    0 <= a < b < self.entries@.len() implies self.entries@[a].key@
                    != self.entries@[b].key@ by {
                    if b == self.entries@.len() - 1 {
                        if before.len() >= self.capacity {
                            let v = choose|v: int| Self::is_victim(pbefore, v) && mid == before.remove(v);
                            let a0 = if a < v { a } else { a + 1 };
                            assert(mid[a] == before[a0]);
                        } else {
                            assert(mid[a] == before[a]);
                        }
                    }
                }
            },
        }
    }

    /// Drops the entry stored under `key`, if there is one.
    pub fn invalidate(&mut self, key: &Fingerprint)
        requires
            old(self).wf(),
        ensures
            final(self).wf(),
            final(self).capacity == old(self).capacity,
            final(self).policy == old(self).policy,
            forall|i: int|
                0 <= i < final(self).entries@.len() ==> (#[trigger] final(self).entries@[i]).key@
                    != key@,
            (forall|i: int|
                0 <= i < old(self).entries@.len() ==> (#[trigger] old(self).entries@[i]).key@
                    != key@) ==> final(self).entries@ == old(self).entries@,
            forall|i: int|
                0 <= i < old(self).entries@.len() && (#[trigger] old(self).entries@[i]).key@
                    == key@ ==> final(self).entries@ == old(self).entries@.remove(i),
    {
        match self.position(key) {
            None => {},
            Some(i) => {
                let ghost before = self.entries@;
                self.entries.remove(i);
                self.protected.remove(i);
                assert forall|a: int, b: int|
                    0 <= a < b < self.entries@.len() implies self.entries@[a].key@
                    != self.entries@[b].key@ by {
                    let a0 = if a < i { a } else { a + 1 };
                    let b0 = if b < i { b } else { b + 1 };
                    assert(self.entries@[a] == before[a0]);
                    assert(self.entries@[b] == before[b0]);
                }
                assert forall|k: int| 0 <= k < self.entries@.len() implies (
                #[trigger] self.entries@[k]).key@ != key@ by {
                    let k0 = if k < i { k } else { k + 1 };
                    assert(self.entries@[k] == before[k0]);
                }
                assert forall|k: int|
                    0 <= k < before.len() && (#[trigger] before[k]).key@ == key@ implies k == i by {
                    if k < i {
                        assert(before[k].key@ != before[i as int].key@);
                    } else if k > i {
                        assert(before[i as int].key@ != before[k].key@);
                    }
                }
            },
        }
    }
}

/// Whether an entry stored with `ttl` at `inserted_at` is due for a
/// background refresh at `now`: its remaining TTL has fallen below
/// `percent` percent of `ttl`.
pub open spec fn prefetch_due_spec(ttl: u32, inserted_at: u64, now: u64, percent: u32) -> bool {
    let remaining = if now < inserted_at {
        ttl as int
    } else if now - inserted_at >= ttl {
        0
    } else {
        ttl - (now - inserted_at)
    };
    remaining * 100 < (percent as int) * (ttl as int)
}

pub fn prefetch_due(ttl: u32, inserted_at: u64, now: u64, percent: u32) -> (r: bool)
    ensures
        r == prefetch_due_spec(ttl, inserted_at, now, percent),
{
    let remaining: u64 = if now < inserted_at {
        ttl as u64
    } else if now - inserted_at >= ttl as u64 {
        0
    } else {
        ttl as u64 - (now - inserted_at)
    };
    assert(remaining * 100 <= u32::MAX as u64 * 100) by (nonlinear_arith)
        requires remaining <= u32::MAX;
    assert((percent as u64) * (ttl as u64) <= u32::MAX as u64 * u32::MAX as u64) by (nonlinear_arith);
    remaining * 100 < (percent as u64) * (ttl as u64)
}

} // verus!
