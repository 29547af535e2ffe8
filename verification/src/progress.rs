//! The progress protocol: one event per attempted file, with counts
//! that never decrease and never exceed the announced total.

use vstd::prelude::*;

verus! {

/// One progress report: how many filtered-in files have been attempted
/// so far, out of how many in total.
#[derive(Clone, Copy, PartialEq, Eq, Structural, Debug)]
pub struct ProgressEvent {
    pub processed: usize,
    pub total: usize,
}

/// Drives the event stream of one run: the caller announces the total
/// once, then records one attempt per filtered-in file and hands the
/// returned event to its sink.
pub struct ProgressTracker {
    pub processed: usize,
    pub total: usize,
    pub events: Ghost<Seq<ProgressEvent>>,
}

impl ProgressTracker {
    /// The events issued so far are exactly `(1, total)` up to
    /// `(processed, total)`, in order.
    pub open spec fn wf(self) -> bool {
        &&& self.processed <= self.total
        &&& self.events@.len() == self.processed
        &&& forall|k: int|
            0 <= k < self.events@.len() ==> (#[trigger] self.events@[k]).processed == k + 1
                && self.events@[k].total == self.total
    }

    /// Start a run over `total` filtered-in files.
    pub fn new(total: usize) -> (r: ProgressTracker)
        ensures
            r.wf(),
            r.total == total,
            r.processed == 0,
            r.events@ == Seq::<ProgressEvent>::empty(),
    {
        ProgressTracker { processed: 0, total, events: Ghost(Seq::empty()) }
    }

    /// Record that one more filtered-in file has been attempted and
    /// return the event to report.
    pub fn record_attempt(&mut self) -> (ev: ProgressEvent)
        requires
            old(self).wf(),
            old(self).processed < old(self).total,
        ensures
            final(self).wf(),
            final(self).total == old(self).total,
            final(self).processed == old(self).processed + 1,
            ev == (ProgressEvent { processed: final(self).processed, total: final(self).total }),
            final(self).events@ == old(self).events@.push(ev),
    {
        self.processed = self.processed + 1;
        let ev = ProgressEvent { processed: self.processed, total: self.total };
        proof {
            self.events@ = self.events@.push(ev);
        }
        ev
    }
}

/// In one run the reported counts strictly increase from event to
/// event, never exceed the total, and once every filtered-in file has
/// been attempted the last event reads `(total, total)`.
pub proof fn lemma_progress_monotone(t: ProgressTracker)
    requires
        t.wf(),
    ensures
        forall|i: int, j: int|
            0 <= i < j < t.events@.len() ==> t.events@[i].processed < t.events@[j].processed,
        forall|i: int| 0 <= i < t.events@.len() ==> (#[trigger] t.events@[i]).processed <= t.total,
        t.processed == t.total && t.total > 0 ==> t.events@.last() == (ProgressEvent {
            processed: t.total,
            total: t.total,
        }),
{
}

} // verus!
