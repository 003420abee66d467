use vstd::prelude::*;

use crate::cache::{live, served, stored_ttl_spec, Cache, CacheEntry, Fingerprint, KeyView};
use crate::flight::Inflight;
use crate::matcher::{is_best, lemma_best_unique, rule_matches, Matcher, RuleAction};
use crate::message::{Address, RData, Rcode, Record, Response, TYPE_A, TYPE_AAAA};
use crate::name::DomainName;
use crate::speedtest::{reorder, reordered, Reachability};
use crate::upstream::{group_for, select_group};

verus! {

/// A decoded query.
pub struct Request {
    pub name: DomainName,
    pub qtype: u16,
    pub qclass: u16,
    pub dnssec_ok: bool,
}

impl Request {
    pub open spec fn key(&self) -> KeyView {
        (self.name@, self.qtype, self.qclass, self.dnssec_ok)
    }

    pub fn fingerprint(&self) -> (r: Fingerprint)
        ensures
            r@ == self.key(),
    {
        Fingerprint {
            name: self.name.copy(),
            qtype: self.qtype,
            qclass: self.qclass,
            dnssec_ok: self.dnssec_ok,
        }
    }
}

/// What the engine needs next for a request.
#[derive(Debug)]
pub enum Step {
    /// A stage answered; send this response.
    Respond(Response),
    /// Nothing answered locally: resolve through the group with this index.
    /// `leader` is false when a resolution of the same fingerprint is already
    /// in flight, and the caller waits for that one instead of querying.
    Resolve { group: usize, leader: bool },
}

/// The name served by the zone stage.
pub open spec fn localhost() -> Seq<Seq<u8>> {
    seq![seq![108u8, 111u8, 99u8, 97u8, 108u8, 104u8, 111u8, 115u8, 116u8]]
}

/// TTL of the zone stage's answers.
pub const LOCAL_TTL: u32 = 60;

/// IPv4 loopback, 127.0.0.1.
pub const LOOPBACK_V4: u32 = 0x7f00_0001;

/// The answer records for a static address: one record when its family fits
/// the query type, none otherwise.
pub open spec fn static_records(addr: Address, qtype: u16, ttl: u32) -> Seq<Record> {
    match addr {
        Address::V4(_) => if qtype == TYPE_A {
            seq![Record { data: RData::Addr(addr), ttl }]
        } else {
            Seq::empty()
        },
        Address::V6(_) => if qtype == TYPE_AAAA {
            seq![Record { data: RData::Addr(addr), ttl }]
        } else {
            Seq::empty()
        },
    }
}

/// The decision of the address stage for `name`, if it answers.
pub open spec fn address_decides(m: Matcher, name: Seq<Seq<u8>>, a: RuleAction) -> bool {
    exists|i: int| is_best(m.rules@, name, i) && m.rules@[i].action == a
}

pub fn static_answer(addr: Address, qtype: u16, ttl: u32) -> (r: Vec<Record>)
    ensures
        r@ == static_records(addr, qtype, ttl),
{
    let mut v: Vec<Record> = Vec::new();
    let fits = match addr {
        Address::V4(_) => qtype == TYPE_A,
        Address::V6(_) => qtype == TYPE_AAAA,
    };
    if fits {
        v.push(Record { data: RData::Addr(addr), ttl });
    }
    assert(v@ =~= static_records(addr, qtype, ttl));
    v
}

/// The request-processing engine: its stages' configuration and state.
pub struct Engine {
    /// Static-address and block rules of the address stage.
    pub address_rules: Matcher,
    /// Rules that route names to nameserver groups.
    pub nameserver_rules: Matcher,
    /// Names for which the speed test is skipped.
    pub speed_test_exceptions: Matcher,
    pub group_count: usize,
    pub default_group: usize,
    pub static_ttl: u32,
    pub cache_enabled: bool,
    pub speed_test_enabled: bool,
    pub cache: Cache,
    pub inflight: Inflight,
}

impl Engine {
    pub open spec fn wf(&self) -> bool {
        self.cache.wf() && self.inflight.wf()
    }

    /// The group a name is routed to.
    pub open spec fn route(&self, name: Seq<Seq<u8>>) -> usize {
        if exists|i: int| is_best(self.nameserver_rules.rules@, name, i) {
            let i = choose|i: int| is_best(self.nameserver_rules.rules@, name, i);
            match self.nameserver_rules.rules@[i].action {
                RuleAction::Group(g) => group_for(self.group_count as nat, Some(g), self.default_group),
                _ => self.default_group,
            }
        } else {
            self.default_group
        }
    }

    /// Whether the address stage answers `name`, and with which rule action.
    pub open spec fn address_hit(&self, name: Seq<Seq<u8>>) -> Option<RuleAction> {
        if exists|i: int| is_best(self.address_rules.rules@, name, i) {
            let i = choose|i: int| is_best(self.address_rules.rules@, name, i);
            match self.address_rules.rules@[i].action {
                RuleAction::Group(_) => None,
                a => Some(a),
            }
        } else {
            None
        }
    }

    /// Whether the cache holds a live entry for `k` at `now`.
    pub open spec fn cache_hit(&self, k: KeyView, now: u64) -> bool {
        self.cache_enabled && exists|i: int|
            0 <= i < self.cache.entries@.len() && self.cache.entries@[i].key@ == k && live(
                #[trigger] self.cache.entries@[i],
                now,
            )
    }
}


/// The zone stage's answer records for a query type.
pub open spec fn local_records(qtype: u16) -> Seq<Record> {
    if qtype == TYPE_A {
        static_records(Address::V4(LOOPBACK_V4), qtype, LOCAL_TTL)
    } else {
        static_records(Address::V6(1), qtype, LOCAL_TTL)
    }
}

/// What `begin` gives: the first stage that answers decides, in the order
/// zone, address, cache; else the request goes upstream.
pub open spec fn begin_outcome(pre: Engine, post: Engine, req: Request, now: u64, r: Step) -> bool {
    let name = req.name@;
    if name == localhost() {
        r matches Step::Respond(resp) && resp.rcode == Rcode::NoError && resp.answers@
            == local_records(req.qtype)
    } else if pre.address_hit(name) == Some(RuleAction::Blocked) {
        r matches Step::Respond(resp) && resp.rcode == Rcode::NxDomain && resp.answers@.len() == 0
    } else if pre.address_hit(name) is Some {
        pre.address_hit(name) matches Some(RuleAction::Static(a)) && r matches Step::Respond(resp)
            && resp.rcode == Rcode::NoError && resp.answers@ == static_records(
            a,
            req.qtype,
            pre.static_ttl,
        )
    } else if pre.cache_hit(req.key(), now) {
        r matches Step::Respond(resp) && exists|i: int|
            0 <= i < pre.cache.entries@.len() && pre.cache.entries@[i].key@ == req.key()
                && resp.rcode == (#[trigger] pre.cache.entries@[i]).rcode && resp.answers@
                == served(pre.cache.entries@[i], now)
    } else {
        &&& r matches Step::Resolve { group, leader }
        &&& group == pre.route(name)
        &&& leader == !pre.inflight.pending_set().contains(req.key())
        &&& post.inflight.pending_set() == pre.inflight.pending_set().insert(req.key())
    }
}

/// The speed test is skipped when it is off or an exception rule matches.
pub open spec fn speed_test_skipped(e: Engine, name: Seq<Seq<u8>>) -> bool {
    !e.speed_test_enabled || exists|i: int|
        0 <= i < e.speed_test_exceptions.rules@.len() && rule_matches(
            name,
            #[trigger] e.speed_test_exceptions.rules@[i],
        )
}

/// An entry stored under `k` at `now` holding `resp`.
pub open spec fn holds(e: CacheEntry, k: KeyView, resp: Response, now: u64, ttl: u32) -> bool {
    e.key@ == k && e.rcode == resp.rcode && e.answers@ == resp.answers@ && e.inserted_at == now
        && e.ttl == ttl
}

/// What `finish` gives: SERVFAIL without an upstream answer, else the
/// upstream answer reordered by the speed test; a NOERROR or NXDOMAIN
/// result is then cached.
pub open spec fn finish_outcome(
    pre: Engine,
    post: Engine,
    req: Request,
    now: u64,
    upstream: Option<Response>,
    probes: Seq<Reachability>,
    r: Response,
) -> bool {
    &&& post.inflight.pending_set() == pre.inflight.pending_set().remove(req.key())
    &&& upstream is None ==> r.rcode == Rcode::ServFail && r.answers@.len() == 0
    &&& upstream matches Some(u) ==> r.rcode == u.rcode && r.answers@ == reordered(
        u.answers@,
        probes,
        speed_test_skipped(pre, req.name@),
    )
    &&& pre.cache_enabled && (r.rcode == Rcode::NoError || r.rcode == Rcode::NxDomain)
        ==> exists|i: int|
        0 <= i < post.cache.entries@.len() && holds(
            #[trigger] post.cache.entries@[i],
            req.key(),
            r,
            now,
            stored_ttl_spec(pre.cache.policy, r.rcode, r.answers@),
        )
    &&& !pre.cache_enabled ==> post.cache.entries@ == pre.cache.entries@
}

impl Engine {
    fn route_exec(&self, name: &DomainName) -> (r: usize)
        ensures
            r == self.route(name@),
    {
        match self.nameserver_rules.find(name) {
            None => self.default_group,
            Some(i) => {
                proof {
                    let c = choose|c: int| is_best(self.nameserver_rules.rules@, name@, c);
                    lemma_best_unique(self.nameserver_rules.rules@, name@, c, i as int);
                }
                match self.nameserver_rules.rules[i].action {
                    RuleAction::Group(g) => select_group(self.group_count, Some(g), self.default_group),
                    _ => self.default_group,
                }
            },
        }
    }

    fn address_exec(&self, name: &DomainName) -> (r: Option<RuleAction>)
        ensures
            r == self.address_hit(name@),
    {
        match self.address_rules.find(name) {
            None => None,
            Some(i) => {
                proof {
                    let c = choose|c: int| is_best(self.address_rules.rules@, name@, c);
                    lemma_best_unique(self.address_rules.rules@, name@, c, i as int);
                }
                match self.address_rules.rules[i].action {
                    RuleAction::Group(_) => None,
                    a => Some(a),
                }
            },
        }
    }

    /// Runs the stages that can answer without an upstream, in order: the
    /// zone stage (`localhost`), the address stage (static answers and
    /// blocks), and the cache. When none answers, the request is registered
    /// as in flight and routed to its nameserver group.
    pub fn begin(&mut self, req: &Request, now: u64) -> (r: Step)
        requires
            old(self).wf(),
        ensures
            final(self).wf(),
            final(self).address_rules == old(self).address_rules,
            final(self).nameserver_rules == old(self).nameserver_rules,
            final(self).group_count == old(self).group_count,
            final(self).default_group == old(self).default_group,
            final(self).cache_enabled == old(self).cache_enabled,
            final(self).cache.entries@ == old(self).cache.entries@,
            begin_outcome(*old(self), *final(self), *req, now, r),
    {
        let local: Vec<Vec<u8>> = vec![vec![108u8, 111u8, 99u8, 97u8, 108u8, 104u8, 111u8, 115u8, 116u8]];
        if req.name.has_suffix(&local) && req.name.labels.len() == 1 {
            proof {
                assert(local@.map_values(|l: Vec<u8>| l@) =~= localhost());
                assert(req.name@ =~= localhost());
            }
            let answers = if req.qtype == TYPE_A {
                static_answer(Address::V4(LOOPBACK_V4), req.qtype, LOCAL_TTL)
            } else {
                static_answer(Address::V6(1), req.qtype, LOCAL_TTL)
            };
            return Step::Respond(Response { rcode: Rcode::NoError, answers });
        }
        proof {
            assert(local@.map_values(|l: Vec<u8>| l@) =~= localhost());
            if req.name@ == localhost() {
                assert(req.name@.subrange(0, 1) =~= localhost());
            }
        }
        match self.address_exec(&req.name) {
            Some(RuleAction::Blocked) => {
                return Step::Respond(Response { rcode: Rcode::NxDomain, answers: Vec::new() });
            },
            Some(RuleAction::Static(a)) => {
                let answers = static_answer(a, req.qtype, self.static_ttl);
                return Step::Respond(Response { rcode: Rcode::NoError, answers });
            },
            _ => {},
        }
        let key = req.fingerprint();
        if self.cache_enabled {
            match self.cache.lookup(&key, now) {
                Some(resp) => {
                    return Step::Respond(resp);
                },
                None => {},
            }
        }
        let group = self.route_exec(&req.name);
        let leader = self.inflight.begin(key);
        Step::Resolve { group, leader }
    }

    /// Finishes a request that went upstream. `upstream` is the group's
    /// answer, or `None` when every member failed, which gives SERVFAIL.
    /// The speed test reorders the answers by `probes` (one per answer);
    /// the cache then stores the result, and the request leaves the set in
    /// flight.
    pub fn finish(
        &mut self,
        req: &Request,
        now: u64,
        upstream: Option<Response>,
        probes: &Vec<Reachability>,
    ) -> (r: Response)
        requires
            old(self).wf(),
            upstream matches Some(u) ==> probes@.len() == u.answers@.len(),
        ensures
            final(self).wf(),
            final(self).address_rules == old(self).address_rules,
            final(self).nameserver_rules == old(self).nameserver_rules,
            final(self).group_count == old(self).group_count,
            final(self).default_group == old(self).default_group,
            final(self).cache_enabled == old(self).cache_enabled,
            final(self).inflight.pending_set() == old(self).inflight.pending_set().remove(
                req.key(),
            ),
            finish_outcome(*old(self), *final(self), *req, now, upstream, probes@, r),
    {
        let key = req.fingerprint();
        self.inflight.finish(&key);
        let resp = match upstream {
            None => Response { rcode: Rcode::ServFail, answers: Vec::new() },
            Some(u) => {
                let opt_out = !self.speed_test_enabled || self.speed_test_exceptions.find(
                    &req.name,
                ).is_some();
                let answers = reorder(&u.answers, probes, opt_out);
                Response { rcode: u.rcode, answers }
            },
        };
        if self.cache_enabled && (resp.rcode == Rcode::NoError || resp.rcode == Rcode::NxDomain) {
            let stored = crate::message::copy_records(&resp.answers);
            let ghost k = key@;
            let ghost ttl = stored_ttl_spec(self.cache.policy, resp.rcode, resp.answers@);
            let ghost before = self.cache.entries@;
            self.cache.insert(key, resp.rcode, stored, now);
            proof {
                let after = self.cache.entries@;
                if exists|i: int| 0 <= i < before.len() && (#[trigger] before[i]).key@ == k {
                    let i = choose|i: int|
                        0 <= i < before.len() && (#[trigger] before[i]).key@ == k && after
                            == before.update(i, after[i]);
                    assert(holds(after[i], k, resp, now, ttl));
                } else if before.len() < self.cache.capacity {
                    assert(holds(after[after.len() - 1], k, resp, now, ttl));
                } else {
                    assert(holds(after[after.len() - 1], k, resp, now, ttl));
                }
            }
        }
        resp
    }
}

/// Two steps carry the same decision: the same response (code and answers),
/// or the same group and leadership.
pub open spec fn same_step(a: Step, b: Step) -> bool {
    match (a, b) {
        (Step::Respond(x), Step::Respond(y)) => x.rcode == y.rcode && x.answers@ == y.answers@,
        (Step::Resolve { group: g1, leader: l1 }, Step::Resolve { group: g2, leader: l2 }) => g1
            == g2 && l1 == l2,
        _ => false,
    }
}

/// The pipeline is deterministic: from the same engine state, the same
/// request at the same time yields the same step, and the same upstream
/// answer and probe results yield the same response.
pub proof fn lemma_pipeline_deterministic(
    pre: Engine,
    post1: Engine,
    post2: Engine,
    req: Request,
    now: u64,
    r1: Step,
    r2: Step,
    upstream: Option<Response>,
    probes: Seq<Reachability>,
    f1: Response,
    f2: Response,
)
    requires
        pre.wf(),
        begin_outcome(pre, post1, req, now, r1),
        begin_outcome(pre, post2, req, now, r2),
        finish_outcome(pre, post1, req, now, upstream, probes, f1),
        finish_outcome(pre, post2, req, now, upstream, probes, f2),
    ensures
        same_step(r1, r2),
        f1.rcode == f2.rcode && f1.answers@ == f2.answers@,
{
    let name = req.name@;
    if name != localhost() && pre.address_hit(name) is None && pre.cache_hit(req.key(), now) {
        let es = pre.cache.entries@;
        if let Step::Respond(x) = r1 {
            if let Step::Respond(y) = r2 {
                let i = choose|i: int|
                    0 <= i < es.len() && es[i].key@ == req.key() && x.rcode == (#[trigger] es[i]).rcode
                        && x.answers@ == served(es[i], now);
                let j = choose|j: int|
                    0 <= j < es.len() && es[j].key@ == req.key() && y.rcode == (#[trigger] es[j]).rcode
                        && y.answers@ == served(es[j], now);
                if i != j {
                    if i < j {
                        assert(es[i].key@ != es[j].key@);
                    } else {
                        assert(es[j].key@ != es[i].key@);
                    }
                }
            }
        }
    } else if pre.address_hit(name) is Some {
        if let Step::Respond(x) = r1 {
            if let Step::Respond(y) = r2 {
                assert(x.answers@ =~= y.answers@);
            }
        }
    }
    if upstream is None {
        assert(f1.answers@ =~= f2.answers@);
    }
}

} // verus!
