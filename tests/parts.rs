use smartdns::cache::{decay_ttl, min_ttl, stored_ttl, Cache, CacheEntry, Fingerprint, TtlPolicy};
use smartdns::flight::Inflight;
use smartdns::matcher::{Matcher, PatternKind, Rule, RuleAction};
use smartdns::message::{Address, RData, Rcode, Record, TYPE_A};
use smartdns::name::{lower_byte, DomainName};
use smartdns::speedtest::{reorder, sort_ranked, Reachability};
use smartdns::upstream::{
    members_to_try, pick_fastest, pick_race, select_group, sequential_step, Health, Outcome, SeqStep,
};
use smartdns::{banner, version};

fn name(s: &str) -> DomainName {
    DomainName::new(s.split('.').map(|l| l.as_bytes().to_vec()).collect())
}

fn rule(pattern: &str, kind: PatternKind, action: RuleAction) -> Rule {
    Rule { pattern: name(pattern), kind, action }
}

fn rec(last: u8, ttl: u32) -> Record {
    Record { data: RData::Addr(Address::V4(u32::from_be_bytes([10, 0, 0, last]))), ttl }
}

fn fp(n: &str) -> Fingerprint {
    Fingerprint { name: name(n), qtype: TYPE_A, qclass: 1, dnssec_ok: false }
}

fn policy() -> TtlPolicy {
    TtlPolicy { min_ttl: 5, max_ttl: 3600, negative_ttl: 30 }
}

fn ok(rtt_ms: u64) -> Reachability {
    Reachability { ok: true, rtt_ms }
}

fn down() -> Reachability {
    Reachability { ok: false, rtt_ms: u64::MAX }
}

fn answered(rcode: Rcode, answers: u64, at_ms: u64) -> Outcome {
    Outcome::Answered { rcode, answers, at_ms }
}

#[test]
fn version_and_banner() {
    assert_eq!(version(), "0.1.0");
    let b = banner();
    assert_eq!(b.len(), 7);
    assert_eq!(b[0], "");
    assert!(b[1].starts_with("     _____"));
}

#[test]
fn names_are_folded_to_lowercase() {
    assert_eq!(lower_byte(b'Q'), b'q');
    assert_eq!(lower_byte(b'q'), b'q');
    assert_eq!(lower_byte(b'-'), b'-');
    let n = name("WWW.Example.COM");
    assert_eq!(n.labels, vec![b"www".to_vec(), b"example".to_vec(), b"com".to_vec()]);
    assert!(n.same_as(&name("www.example.com")));
    assert!(!n.same_as(&name("www.example.org")));
    assert!(n.has_suffix(&name("example.com").labels));
    assert!(!n.has_suffix(&name("ample.com").labels));
}

#[test]
fn most_specific_rule_wins() {
    let m = Matcher::new(vec![
        rule("com", PatternKind::Domain, RuleAction::Group(1)),
        rule("example.com", PatternKind::Domain, RuleAction::Group(2)),
        rule("a.example.com", PatternKind::Domain, RuleAction::Group(3)),
    ]);
    assert_eq!(m.lookup(&name("x.a.example.com")), Some(RuleAction::Group(3)));
    assert_eq!(m.lookup(&name("b.example.com")), Some(RuleAction::Group(2)));
    assert_eq!(m.lookup(&name("other.com")), Some(RuleAction::Group(1)));
    assert_eq!(m.lookup(&name("example.org")), None);
    assert_eq!(m.find(&name("example.com")), Some(1));
}

#[test]
fn exact_beats_domain_beats_wildcard_at_equal_depth() {
    let m = Matcher::new(vec![
        rule("example.com", PatternKind::Wildcard, RuleAction::Group(1)),
        rule("example.com", PatternKind::Domain, RuleAction::Group(2)),
        rule("www.example.com", PatternKind::Exact, RuleAction::Group(3)),
        rule("www.example.com", PatternKind::Domain, RuleAction::Group(4)),
    ]);
    assert_eq!(m.lookup(&name("www.example.com")), Some(RuleAction::Group(3)));
    assert_eq!(m.lookup(&name("x.www.example.com")), Some(RuleAction::Group(4)));
    assert_eq!(m.lookup(&name("mail.example.com")), Some(RuleAction::Group(2)));
}

#[test]
fn wildcard_does_not_match_apex() {
    let m = Matcher::new(vec![rule("example.com", PatternKind::Wildcard, RuleAction::Blocked)]);
    assert_eq!(m.lookup(&name("example.com")), None);
    assert_eq!(m.lookup(&name("a.example.com")), Some(RuleAction::Blocked));
    assert_eq!(m.lookup(&name("a.b.example.com")), Some(RuleAction::Blocked));
}

#[test]
fn earlier_rule_wins_among_equals() {
    let m = Matcher::new(vec![
        rule("example.com", PatternKind::Domain, RuleAction::Group(1)),
        rule("example.com", PatternKind::Domain, RuleAction::Group(2)),
    ]);
    assert_eq!(m.find(&name("example.com")), Some(0));
    assert_eq!(Matcher::new(Vec::new()).find(&name("example.com")), None);
}

#[test]
fn ttl_arithmetic() {
    assert_eq!(min_ttl(&vec![rec(1, 60), rec(2, 20), rec(3, 45)]), 20);
    assert_eq!(stored_ttl(&policy(), Rcode::NoError, &vec![rec(1, 2)]), 5);
    assert_eq!(stored_ttl(&policy(), Rcode::NoError, &vec![rec(1, 99999)]), 3600);
    assert_eq!(stored_ttl(&policy(), Rcode::NoError, &vec![rec(1, 60), rec(2, 40)]), 40);
    assert_eq!(stored_ttl(&policy(), Rcode::NxDomain, &Vec::new()), 30);
    assert_eq!(stored_ttl(&policy(), Rcode::NoError, &Vec::new()), 30);
    assert_eq!(decay_ttl(60, 30), 30);
    assert_eq!(decay_ttl(60, 59), 1);
    assert_eq!(decay_ttl(60, 60), 1);
    assert_eq!(decay_ttl(60, 1000), 1);
    assert_eq!(decay_ttl(0, 0), 1);
}

#[test]
fn ttl_drops_by_elapsed_time_between_serves() {
    let mut c = Cache::new(4, policy());
    c.insert(fp("a.example"), Rcode::NoError, vec![rec(1, 100), rec(2, 50)], 1000);
    let t1 = c.lookup(&fp("a.example"), 1010).unwrap();
    let t2 = c.lookup(&fp("a.example"), 1030).unwrap();
    assert_eq!(t1.answers.iter().map(|r| r.ttl).collect::<Vec<_>>(), vec![90, 40]);
    assert_eq!(t2.answers.iter().map(|r| r.ttl).collect::<Vec<_>>(), vec![70, 20]);
    let d1: Vec<RData> = t1.answers.iter().map(|r| r.data).collect();
    let d2: Vec<RData> = t2.answers.iter().map(|r| r.data).collect();
    assert_eq!(d1, d2);
}

#[test]
fn cache_expiry_and_clock_before_insert() {
    let mut c = Cache::new(4, policy());
    c.insert(fp("a.example"), Rcode::NoError, vec![rec(1, 10)], 100);
    assert!(c.lookup(&fp("a.example"), 109).is_some());
    assert!(c.lookup(&fp("a.example"), 110).is_none());
    assert!(c.lookup(&fp("a.example"), 99).is_none());
    assert!(c.lookup(&fp("b.example"), 105).is_none());
}

#[test]
fn cache_replaces_entry_under_same_key() {
    let mut c = Cache::new(4, policy());
    c.insert(fp("a.example"), Rcode::NoError, vec![rec(1, 60)], 0);
    c.insert(fp("A.Example"), Rcode::NoError, vec![rec(2, 60)], 10);
    assert_eq!(c.entries.len(), 1);
    assert_eq!(c.lookup(&fp("a.example"), 10).unwrap().answers, vec![rec(2, 60)]);
}

#[test]
fn cache_evicts_oldest_unprotected_entry() {
    let mut c = Cache::new(2, policy());
    c.insert(fp("a.example"), Rcode::NoError, vec![rec(1, 60)], 0);
    c.insert(fp("b.example"), Rcode::NoError, vec![rec(2, 60)], 0);
    assert!(c.lookup(&fp("a.example"), 1).is_some());
    c.insert(fp("c.example"), Rcode::NoError, vec![rec(3, 60)], 2);
    assert_eq!(c.entries.len(), 2);
    assert!(c.lookup(&fp("a.example"), 3).is_some());
    assert!(c.lookup(&fp("b.example"), 3).is_none());
    assert!(c.lookup(&fp("c.example"), 3).is_some());
}

#[test]
fn cache_evicts_oldest_when_all_protected() {
    let mut c = Cache::new(1, policy());
    c.insert(fp("a.example"), Rcode::NoError, vec![rec(1, 60)], 0);
    assert!(c.lookup(&fp("a.example"), 1).is_some());
    c.insert(fp("b.example"), Rcode::NoError, vec![rec(2, 60)], 2);
    assert!(c.lookup(&fp("a.example"), 3).is_none());
    assert!(c.lookup(&fp("b.example"), 3).is_some());
}

#[test]
fn cache_stores_only_noerror_and_nxdomain() {
    let mut c = Cache::new(4, policy());
    c.insert(fp("a.example"), Rcode::ServFail, Vec::new(), 0);
    c.insert(fp("b.example"), Rcode::Refused, Vec::new(), 0);
    assert!(c.entries.is_empty());
}

#[test]
fn cache_invalidate() {
    let mut c = Cache::new(4, policy());
    c.insert(fp("a.example"), Rcode::NoError, vec![rec(1, 60)], 0);
    c.insert(fp("b.example"), Rcode::NoError, vec![rec(2, 60)], 0);
    c.invalidate(&fp("a.example"));
    assert!(c.lookup(&fp("a.example"), 1).is_none());
    assert!(c.lookup(&fp("b.example"), 1).is_some());
    c.invalidate(&fp("z.example"));
    assert_eq!(c.entries.len(), 1);
    let _unused: Option<&CacheEntry> = c.entries.first();
}

#[test]
fn single_flight_leader_then_new_leader_after_finish() {
    let mut f = Inflight::new();
    assert!(f.begin(fp("a.example")));
    assert!(!f.begin(fp("a.example")));
    assert!(!f.begin(fp("A.EXAMPLE")));
    assert!(f.begin(fp("b.example")));
    f.finish(&fp("a.example"));
    assert!(f.begin(fp("a.example")));
    assert_eq!(f.pending.len(), 2);
}

#[test]
fn speed_test_reorder_scenario() {
    let answers = vec![rec(1, 60), rec(2, 60)];
    let r = reorder(&answers, &vec![down(), ok(5)], false);
    assert_eq!(r, vec![rec(2, 60), rec(1, 60)]);
}

#[test]
fn speed_test_sorts_by_reachability_then_rtt_stably() {
    let answers = vec![rec(1, 60), rec(2, 60), rec(3, 60), rec(4, 60), rec(5, 60)];
    let probes = vec![ok(30), down(), ok(10), ok(30), ok(5)];
    let r = reorder(&answers, &probes, false);
    assert_eq!(r, vec![rec(5, 60), rec(3, 60), rec(1, 60), rec(4, 60), rec(2, 60)]);
    let sorted = sort_ranked(&vec![(rec(1, 1), ok(2)), (rec(2, 1), ok(1))]);
    assert_eq!(sorted, vec![(rec(2, 1), ok(1)), (rec(1, 1), ok(2))]);
}

#[test]
fn speed_test_keeps_order_when_all_fail_or_too_few_or_opted_out() {
    let answers = vec![rec(1, 60), rec(2, 60)];
    assert_eq!(reorder(&answers, &vec![down(), down()], false), answers);
    assert_eq!(reorder(&answers, &vec![down(), ok(1)], true), answers);
    let one = vec![rec(1, 60)];
    assert_eq!(reorder(&one, &vec![ok(1)], false), one);
    let empty: Vec<Record> = Vec::new();
    assert_eq!(reorder(&empty, &Vec::new(), false), empty);
}

#[test]
fn speed_test_puts_other_records_first() {
    let cname = Record { data: RData::Other(5, 77), ttl: 60 };
    let answers = vec![rec(1, 60), cname, rec(2, 60)];
    let r = reorder(&answers, &vec![ok(50), down(), ok(4)], false);
    assert_eq!(r, vec![cname, rec(2, 60), rec(1, 60)]);
}

#[test]
fn upstream_failover_parallel_fastest() {
    // u1 times out, u2 answers NOERROR A 9.9.9.9
    let outcomes = vec![Outcome::Timeout, answered(Rcode::NoError, 1, 40)];
    assert_eq!(pick_fastest(&outcomes), Some(1));
    let mut u1 = Health::new();
    for t in 0..3u64 {
        u1.record_failure(t, 3, 10);
    }
    assert!(u1.is_skipped(3, 3));
    assert_eq!(members_to_try(&vec![u1, Health::new()], 3, 3), vec![1]);
}

#[test]
fn fastest_skips_unusable_answers() {
    let outcomes = vec![answered(Rcode::ServFail, 0, 1), Outcome::TransportError, answered(Rcode::NxDomain, 0, 9)];
    assert_eq!(pick_fastest(&outcomes), Some(2));
    assert_eq!(pick_fastest(&vec![Outcome::Timeout, answered(Rcode::Refused, 0, 1)]), None);
    assert_eq!(pick_fastest(&Vec::new()), None);
}

#[test]
fn race_prefers_more_answers_within_window() {
    let outcomes = vec![
        answered(Rcode::NoError, 1, 10),
        answered(Rcode::NoError, 3, 50),
        answered(Rcode::NoError, 5, 70),
    ];
    assert_eq!(pick_race(&outcomes, 50), Some(1));
    assert_eq!(pick_race(&outcomes, 0), Some(0));
    assert_eq!(pick_race(&vec![answered(Rcode::NxDomain, 0, 1)], 50), Some(0));
    assert_eq!(pick_race(&vec![Outcome::Timeout], 50), None);
}

#[test]
fn sequential_steps() {
    assert_eq!(sequential_step(2, &Vec::new()), SeqStep::Try(0));
    assert_eq!(sequential_step(2, &vec![Outcome::Timeout]), SeqStep::Try(0));
    assert_eq!(sequential_step(2, &vec![Outcome::Timeout, Outcome::TransportError]), SeqStep::Try(1));
    assert_eq!(
        sequential_step(2, &vec![Outcome::Timeout, answered(Rcode::ServFail, 0, 3)]),
        SeqStep::Done(1)
    );
    assert_eq!(sequential_step(1, &vec![Outcome::Timeout, Outcome::Timeout]), SeqStep::Fail);
    assert_eq!(sequential_step(0, &Vec::new()), SeqStep::Fail);
}

#[test]
fn backoff_grows_and_is_capped() {
    let mut h = Health::new();
    h.record_failure(0, 2, 10);
    assert_eq!(h.failures, 1);
    assert!(!h.is_skipped(0, 2));
    h.record_failure(0, 2, 10);
    assert_eq!(h.backoff_secs, 10);
    assert_eq!(h.skip_until, 10);
    assert!(h.is_skipped(9, 2));
    assert!(!h.is_skipped(10, 2));
    let mut last = 0;
    for _ in 0..10 {
        h.record_failure(100, 2, 10);
        last = h.backoff_secs;
    }
    assert_eq!(last, 300);
    h.record_success();
    assert_eq!(h, Health::new());
}

#[test]
fn last_member_is_tried_when_all_in_backoff() {
    let mut h = Health::new();
    h.record_failure(0, 1, 60);
    assert_eq!(members_to_try(&vec![h, h, h], 5, 1), vec![2]);
    assert_eq!(members_to_try(&vec![h, Health::new(), h], 5, 1), vec![1]);
    assert_eq!(members_to_try(&Vec::new(), 5, 1), Vec::<usize>::new());
}

#[test]
fn group_selection_falls_back_to_default() {
    assert_eq!(select_group(3, Some(2), 0), 2);
    assert_eq!(select_group(3, Some(3), 0), 0);
    assert_eq!(select_group(3, None, 1), 1);
}
