//! The cycle collector that the allocation policy drives. Its state is a
//! thread-local buffer of `bacon_rajan_cc`, changed by every handle that is
//! dropped or cloned, so nothing is promised of what a query returns beyond its
//! type. What is recorded is the order of the calls: a `CollectorLog` gains a
//! count only from a real query and a pass only from a real collection.

use vstd::prelude::*;

use crate::policy::Event;

verus! {

/// The calls made on the collector, in order. Only the functions of this
/// module write it.
pub struct CollectorLog {
    events: Ghost<Seq<Event>>,
}

impl CollectorLog {
    /// The calls recorded so far.
    pub closed spec fn events(&self) -> Seq<Event> {
        self.events@
    }

    /// The log that holds exactly `events`.
    pub closed spec fn recorded(events: Seq<Event>) -> CollectorLog {
        CollectorLog { events: Ghost(events) }
    }

    /// A log is the one that holds what it records.
    pub proof fn lemma_recorded(&self)
        ensures
            *self == CollectorLog::recorded(self.events()),
    {
    }

    /// A log with nothing recorded.
    pub fn new() -> (r: CollectorLog)
        ensures
            r.events() == Seq::<Event>::empty(),
    {
        CollectorLog { events: Ghost(Seq::empty()) }
    }

    /// Records that a value was allocated.
    pub(crate) fn note_allocated(&mut self)
        ensures
            final(self).events() == old(self).events().push(Event::Allocated),
    {
        self.events = Ghost(self.events@.push(Event::Allocated));
    }
}

/// Relies on `bacon_rajan_cc::number_of_roots_buffered`: the length of this
/// thread's buffer of possible cycle roots, which the policy only reads. The
/// log records the count that was read.
#[verifier::external_body]
pub(crate) fn roots_buffered(log: &mut CollectorLog) -> (r: usize)
    ensures
        final(log).events() == old(log).events().push(Event::Observed(r)),
{
    bacon_rajan_cc::number_of_roots_buffered()
}

/// Relies on `bacon_rajan_cc::collect_cycles`: one full collection pass over
/// this thread's buffered roots, run to completion before it returns. The log
/// records the pass.
#[verifier::external_body]
pub(crate) fn collect(log: &mut CollectorLog)
    ensures
        final(log).events() == old(log).events().push(Event::Collected),
{
    bacon_rajan_cc::collect_cycles()
}

} // verus!
