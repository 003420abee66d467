use vstd::prelude::*;

use crate::cache::{Fingerprint, KeyView};

verus! {

/// The fingerprints whose upstream resolution is in flight. The first miss
/// on a fingerprint leads the resolution; later misses on it wait for that
/// one until it finishes.
pub struct Inflight {
    pub pending: Vec<Fingerprint>,
}

/// What the state machine does with a run of misses: the set in flight
/// afterwards, and how many of the misses led a resolution.
pub open spec fn begin_all(p: Set<KeyView>, reqs: Seq<KeyView>) -> (Set<KeyView>, nat)
    decreases reqs.len(),
{
    if reqs.len() == 0 {
        (p, 0)
    } else {
        let (rest, c) = begin_all(p, reqs.drop_last());
        if rest.contains(reqs.last()) {
            (rest, c)
        } else {
            (rest.insert(reqs.last()), c + 1)
        }
    }
}

/// Any number of misses on one fingerprint that is not yet in flight make
/// exactly one upstream query.
pub proof fn lemma_single_flight(p: Set<KeyView>, k: KeyView, reqs: Seq<KeyView>)
    requires
        !p.contains(k),
        reqs.len() > 0,
        forall|i: int| 0 <= i < reqs.len() ==> reqs[i] == k,
    ensures
        begin_all(p, reqs).1 == 1,
        begin_all(p, reqs).0 == p.insert(k),
    decreases reqs.len(),
{
    assert(reqs.last() == k);
    if reqs.len() == 1 {
        assert(begin_all(p, reqs.drop_last()) == (p, 0nat));
    } else {
        lemma_single_flight(p, k, reqs.drop_last());
        assert(p.insert(k).contains(k));
    }
}

impl Inflight {
    pub open spec fn wf(&self) -> bool {
        forall|i: int, j: int|
            0 <= i < j < self.pending@.len() ==> self.pending@[i]@ != self.pending@[j]@
    }

    /// The fingerprints in flight.
    pub open spec fn pending_set(&self) -> Set<KeyView> {
        Set::new(|k: KeyView| exists|i: int| 0 <= i < self.pending@.len() && self.pending@[i]@ == k)
    }

    pub fn new() -> (r: Inflight)
        ensures
            r.wf(),
            r.pending_set() == Set::<KeyView>::empty(),
    {
        let r = Inflight { pending: Vec::new() };
        assert(r.pending_set() =~= Set::<KeyView>::empty());
        r
    }

    fn position(&self, key: &Fingerprint) -> (r: Option<usize>)
        ensures
            r is None <==> !self.pending_set().contains(key@),
            r matches Some(i) ==> i < self.pending@.len() && self.pending@[i as int]@ == key@,
    {
        let mut i: usize = 0;
        while i < self.pending.len()
            invariant
                0 <= i <= self.pending@.len(),
                forall|k: int| 0 <= k < i ==> self.pending@[k]@ != key@,
            decreases self.pending@.len() - i,
        {
            if self.pending[i].same_as(key) {
                return Some(i);
            }
            i = i + 1;
        }
        None
    }

    /// Registers a miss on `key`: true when this miss leads the resolution,
    /// false when one is already in flight and the caller waits for it.
    pub fn begin(&mut self, key: Fingerprint) -> (leader: bool)
        requires
            old(self).wf(),
        ensures
            final(self).wf(),
            leader == !old(self).pending_set().contains(key@),
            final(self).pending_set() == old(self).pending_set().insert(key@),
    {
        let ghost k = key@;
        match self.position(&key) {
            Some(_) => {
                assert(self.pending_set() =~= self.pending_set().insert(k));
                false
            },
            None => {
                let ghost before = self.pending_set();
                self.pending.push(key);
                assert(self.pending_set() =~= before.insert(k)) by {
                    assert(self.pending@[self.pending@.len() - 1]@ == k);
                    assert forall|x: KeyView| before.contains(x) implies self.pending_set().contains(
                        x,
                    ) by {
                        let i = choose|i: int|
                            0 <= i < self.pending@.len() - 1 && old(self).pending@[i]@ == x;
                        assert(self.pending@[i] == old(self).pending@[i]);
                    }
                    assert forall|x: KeyView| self.pending_set().contains(x) implies before.insert(
                        k,
                    ).contains(x) by {
                        let i = choose|i: int| 0 <= i < self.pending@.len() && self.pending@[i]@ == x;
                        if i < self.pending@.len() - 1 {
                            assert(self.pending@[i] == old(self).pending@[i]);
                        }
                    }
                }
                true
            },
        }
    }

    /// Marks the resolution of `key` as finished, so the next miss leads anew.
    pub fn finish(&mut self, key: &Fingerprint)
        requires
            old(self).wf(),
        ensures
            final(self).wf(),
            final(self).pending_set() == old(self).pending_set().remove(key@),
    {
        match self.position(key) {
            None => {
                assert(self.pending_set() =~= self.pending_set().remove(key@));
            },
            Some(i) => {
                let ghost before = self.pending@;
                let ghost bset = self.pending_set();
                self.pending.remove(i);
                assert forall|a: int, b: int|
                    0 <= a < b < self.pending@.len() implies self.pending@[a]@
                    != self.pending@[b]@ by {
                    let a0 = if a < i { a } else { a + 1 };
                    let b0 = if b < i { b } else { b + 1 };
                    assert(self.pending@[a] == before[a0]);
                    assert(self.pending@[b] == before[b0]);
                }
                assert(self.pending_set() =~= bset.remove(key@)) by {
                    assert forall|x: KeyView| self.pending_set().contains(x) implies bset.remove(
                        key@,
                    ).contains(x) by {
                        let k = choose|k: int| 0 <= k < self.pending@.len() && self.pending@[k]@ == x;
                        let k0 = if k < i { k } else { k + 1 };
                        assert(self.pending@[k] == before[k0]);
                        assert(k0 != i);
                    }
                    assert forall|x: KeyView| bset.remove(key@).contains(x) implies self.pending_set().contains(
                        x,
                    ) by {
                        let k = choose|k: int| 0 <= k < before.len() && before[k]@ == x;
                        assert(k != i);
                        let k1 = if k < i { k } else { k - 1 };
                        assert(self.pending@[k1] == before[k]);
                    }
                }
            },
        }
    }
}

} // verus!
