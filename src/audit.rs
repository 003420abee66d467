use vstd::prelude::*;

use crate::message::Rcode;

verus! {

/// One completed query as the audit log records it.
#[derive(Clone, Copy, PartialEq, Eq, Structural, Debug)]
pub struct AuditEntry {
    /// Completion time, seconds since the epoch.
    pub at: u64,
    pub qtype: u16,
    pub rcode: Rcode,
    pub latency_ms: u64,
    pub cache_hit: bool,
    /// Index of the upstream that answered, if one did.
    pub upstream: Option<u64>,
}

/// The bounded queue between the query path and the audit writer. Offering
/// never blocks: when the queue is full the entry is dropped and counted.
pub struct AuditQueue {
    pub pending: Vec<AuditEntry>,
    pub capacity: usize,
    pub dropped: u64,
}

impl AuditQueue {
    pub open spec fn wf(&self) -> bool {
        self.pending@.len() <= self.capacity
    }

    pub fn new(capacity: usize) -> (r: AuditQueue)
        ensures
            r.wf(),
            r.pending@.len() == 0,
            r.capacity == capacity,
            r.dropped == 0,
    {
        AuditQueue { pending: Vec::new(), capacity, dropped: 0 }
    }

    /// Queues `e` when there is room (true); otherwise counts it as dropped
    /// (false), the count saturating.
    pub fn offer(&mut self, e: AuditEntry) -> (queued: bool)
        requires
            old(self).wf(),
        ensures
            final(self).wf(),
            final(self).capacity == old(self).capacity,
            queued == (old(self).pending@.len() < old(self).capacity),
            queued ==> final(self).pending@ == old(self).pending@.push(e) && final(self).dropped
                == old(self).dropped,
            !queued ==> final(self).pending@ == old(self).pending@ && final(self).dropped == if old(
                self,
            ).dropped == u64::MAX {
                u64::MAX
            } else {
                (old(self).dropped + 1) as u64
            },
    {
        if self.pending.len() < self.capacity {
            self.pending.push(e);
            true
        } else {
            if self.dropped < u64::MAX {
                self.dropped = self.dropped + 1;
            }
            false
        }
    }

    /// Hands every queued entry to the writer, oldest first.
    pub fn take_all(&mut self) -> (r: Vec<AuditEntry>)
        requires
            old(self).wf(),
        ensures
            final(self).wf(),
            r@ == old(self).pending@,
            final(self).pending@.len() == 0,
            final(self).capacity == old(self).capacity,
            final(self).dropped == old(self).dropped,
    {
        let mut r: Vec<AuditEntry> = Vec::new();
        std::mem::swap(&mut r, &mut self.pending);
        r
    }
}

/// Whether writing `add` more bytes to a log of `size` bytes passes `limit`.
pub fn needs_rotation(size: u64, add: u64, limit: u64) -> (r: bool)
    ensures
        r == (size + add > limit),
{
    size > limit || add > limit - size
}

/// The renames that rotate a log keeping `keep` old files: file `i` becomes
/// file `i + 1`, highest first, where file 0 is the live log. The oldest
/// file, `keep`, is overwritten.
pub open spec fn rotation_step(keep: nat, i: int) -> (usize, usize) {
    ((keep - 1 - i) as usize, (keep - i) as usize)
}

pub fn rotation_plan(keep: usize) -> (r: Vec<(usize, usize)>)
    ensures
        r@.len() == keep,
        forall|i: int| 0 <= i < keep ==> r@[i] == rotation_step(keep as nat, i),
{
    let mut out: Vec<(usize, usize)> = Vec::new();
    let mut i: usize = 0;
    while i < keep
        invariant
            0 <= i <= keep,
            out@.len() == i,
            forall|k: int| 0 <= k < i ==> out@[k] == rotation_step(keep as nat, k),
        decreases keep - i,
    {
        out.push((keep - 1 - i, keep - i));
        i = i + 1;
    }
    out
}

} // verus!
