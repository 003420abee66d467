use vstd::prelude::*;

use crate::message::Address;
use crate::name::{ends_with, DomainName};

verus! {

/// How a rule's pattern relates to the names it matches.
#[derive(Clone, Copy, PartialEq, Eq, Structural, Debug)]
pub enum PatternKind {
    /// The pattern itself and nothing else.
    Exact,
    /// The pattern and every name below it.
    Domain,
    /// Every name strictly below the pattern, not the pattern itself.
    Wildcard,
}

/// What a rule decides for the names it matches.
#[derive(Clone, Copy, PartialEq, Eq, Structural, Debug)]
pub enum RuleAction {
    /// Forward to the nameserver group with this index.
    Group(u64),
    /// Answer with this static address.
    Static(Address),
    /// Answer NXDOMAIN.
    Blocked,
}

/// One rule: a pattern (labels left to right, folded), its kind and its action.
pub struct Rule {
    pub pattern: DomainName,
    pub kind: PatternKind,
    pub action: RuleAction,
}

pub open spec fn kind_rank(k: PatternKind) -> int {
    match k {
        PatternKind::Exact => 2,
        PatternKind::Domain => 1,
        PatternKind::Wildcard => 0,
    }
}

/// Whether a pattern of the given kind matches `name`.
pub open spec fn pattern_matches(name: Seq<Seq<u8>>, pat: Seq<Seq<u8>>, k: PatternKind) -> bool {
    match k {
        PatternKind::Exact => name == pat,
        PatternKind::Domain => ends_with(name, pat),
        PatternKind::Wildcard => ends_with(name, pat) && name.len() > pat.len(),
    }
}

/// Specificity of a rule: the longer label suffix wins, and at equal depth
/// an exact rule beats a domain rule, which beats a wildcard.
pub open spec fn specificity(r: Rule) -> int {
    3 * r.pattern@.len() + kind_rank(r.kind)
}

pub open spec fn rule_matches(name: Seq<Seq<u8>>, r: Rule) -> bool {
    pattern_matches(name, r.pattern@, r.kind)
}

/// The index of the rule that decides for `name`: a matching rule of the
/// highest specificity, the earliest among equals.
pub open spec fn is_best(rules: Seq<Rule>, name: Seq<Seq<u8>>, i: int) -> bool {
    &&& 0 <= i < rules.len()
    &&& rule_matches(name, rules[i])
    &&& forall|j: int|
        0 <= j < rules.len() && rule_matches(name, rules[j]) ==> specificity(rules[j])
            <= specificity(rules[i])
    &&& forall|j: int|
        0 <= j < i && rule_matches(name, rules[j]) ==> specificity(rules[j]) < specificity(
            rules[i],
        )
}

/// Whatever the rules, at most one of them decides for a name: two indices
/// that both satisfy `is_best` are the same.
pub proof fn lemma_best_unique(rules: Seq<Rule>, name: Seq<Seq<u8>>, i: int, j: int)
    requires
        is_best(rules, name, i),
        is_best(rules, name, j),
    ensures
        i == j,
{
    if i < j {
        assert(specificity(rules[i]) < specificity(rules[j]));
    } else if j < i {
        assert(specificity(rules[j]) < specificity(rules[i]));
    }
}

/// The rule that decides for a name has the longest pattern among the rules
/// that match it, and among matching rules of that length the highest kind:
/// exact before domain before wildcard.
pub proof fn lemma_most_specific(rules: Seq<Rule>, name: Seq<Seq<u8>>, i: int)
    requires
        is_best(rules, name, i),
    ensures
        forall|j: int|
            0 <= j < rules.len() && rule_matches(name, #[trigger] rules[j]) ==> {
                &&& rules[j].pattern@.len() <= rules[i].pattern@.len()
                &&& rules[j].pattern@.len() == rules[i].pattern@.len() ==> kind_rank(rules[j].kind)
                    <= kind_rank(rules[i].kind)
            },
{
    assert forall|j: int| 0 <= j < rules.len() && rule_matches(name, #[trigger] rules[j]) implies {
        &&& rules[j].pattern@.len() <= rules[i].pattern@.len()
        &&& rules[j].pattern@.len() == rules[i].pattern@.len() ==> kind_rank(rules[j].kind)
            <= kind_rank(rules[i].kind)
    } by {
        assert(specificity(rules[j]) <= specificity(rules[i]));
        assert(0 <= kind_rank(rules[j].kind) <= 2);
        assert(0 <= kind_rank(rules[i].kind) <= 2);
    }
}

/// An ordered list of domain rules, immutable once built.
pub struct Matcher {
    pub rules: Vec<Rule>,
}

impl Matcher {
    pub fn new(rules: Vec<Rule>) -> (r: Matcher)
        ensures
            r.rules@ == rules@,
    {
        Matcher { rules }
    }

    /// Whether rule `i` matches `name`.
    pub fn rule_matches_at(&self, i: usize, name: &DomainName) -> (r: bool)
        requires
            i < self.rules@.len(),
        ensures
            r == rule_matches(name@, self.rules@[i as int]),
    {
        let rule = &self.rules[i];
        match rule.kind {
            PatternKind::Exact => name.same_as(&rule.pattern),
            PatternKind::Domain => name.has_suffix(&rule.pattern.labels),
            PatternKind::Wildcard => name.labels.len() > rule.pattern.labels.len()
                && name.has_suffix(&rule.pattern.labels),
        }
    }

    /// Finds the rule that decides for `name`, if any rule matches it.
    pub fn find(&self, name: &DomainName) -> (r: Option<usize>)
        ensures
            r is None <==> forall|j: int|
                0 <= j < self.rules@.len() ==> !rule_matches(name@, #[trigger] self.rules@[j]),
            r matches Some(i) ==> is_best(self.rules@, name@, i as int),
    {
        let mut best: Option<usize> = None;
        let mut i: usize = 0;
        while i < self.rules.len()
            invariant
                0 <= i <= self.rules@.len(),
                best is None <==> forall|j: int|
                    0 <= j < i ==> !rule_matches(name@, #[trigger] self.rules@[j]),
                best matches Some(b) ==> {
                    &&& b < i
                    &&& rule_matches(name@, self.rules@[b as int])
                    &&& forall|j: int|
                        0 <= j < i && rule_matches(name@, self.rules@[j]) ==> specificity(
                            self.rules@[j],
                        ) <= specificity(self.rules@[b as int])
                    &&& forall|j: int|
                        0 <= j < b && rule_matches(name@, self.rules@[j]) ==> specificity(
                            self.rules@[j],
                        ) < specificity(self.rules@[b as int])
                },
            decreases self.rules@.len() - i,
        {
            if self.rule_matches_at(i, name) {
                match best {
                    None => {
                        best = Some(i);
                    },
                    Some(b) => {
                        let ri = &self.rules[i];
                        let rb = &self.rules[b];
                        let li = ri.pattern.labels.len();
                        let lb = rb.pattern.labels.len();
                        let better = li > lb || (li == lb && Self::kind_above(ri.kind, rb.kind));
                        if better {
                            best = Some(i);
                        }
                    },
                }
            }
            i = i + 1;
        }
        best
    }

    fn kind_above(a: PatternKind, b: PatternKind) -> (r: bool)
        ensures
            r == (kind_rank(a) > kind_rank(b)),
    {
        match (a, b) {
            (PatternKind::Exact, PatternKind::Domain) => true,
            (PatternKind::Exact, PatternKind::Wildcard) => true,
            (PatternKind::Domain, PatternKind::Wildcard) => true,
            _ => false,
        }
    }

    /// The action of the rule that decides for `name`, if any.
    pub fn lookup(&self, name: &DomainName) -> (r: Option<RuleAction>)
        ensures
            r is None <==> forall|j: int|
                0 <= j < self.rules@.len() ==> !rule_matches(name@, #[trigger] self.rules@[j]),
            r matches Some(a) ==> exists|i: int|
                is_best(self.rules@, name@, i) && self.rules@[i].action == a,
    {
        match self.find(name) {
            None => None,
            Some(i) => Some(self.rules[i].action),
        }
    }
}

} // verus!
