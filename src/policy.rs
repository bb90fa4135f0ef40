//! The trigger policy as mathematics: when a collection pass is due, when a
//! pass counts as ineffective, and what the threshold becomes afterwards.

use vstd::prelude::*;

verus! {

/// A growth ratio `num / den`, meant to lie strictly between 0 and 1.
#[derive(Clone, Copy, Debug, PartialEq, Eq, Structural)]
pub struct Ratio {
    pub num: u64,
    pub den: u64,
}

impl Ratio {
    /// The ratio lies strictly between 0 and 1.
    pub open spec fn valid(self) -> bool {
        0 < self.num < self.den
    }

    /// Whether the ratio lies strictly between 0 and 1.
    pub fn is_valid(&self) -> (r: bool)
        ensures
            r == self.valid(),
    {
        0 < self.num && self.num < self.den
    }
}

/// How the threshold reacts to a collection pass.
#[derive(Clone, Copy, Debug, PartialEq, Eq, Structural)]
pub enum Growth {
    /// The threshold never changes.
    Fixed,
    /// The threshold becomes `threshold / ratio` after an ineffective pass.
    Adaptive(Ratio),
}

impl Growth {
    pub open spec fn valid(self) -> bool {
        match self {
            Growth::Fixed => true,
            Growth::Adaptive(ratio) => ratio.valid(),
        }
    }
}

/// A step that an allocation takes, in the order it takes it.
#[derive(Clone, Copy, Debug, PartialEq, Eq, Structural)]
pub enum Event {
    /// The buffered-root count was read and was this.
    Observed(usize),
    /// A full collection pass ran.
    Collected,
    /// The new value was allocated.
    Allocated,
}

/// A collection pass is due once the buffered roots reach the threshold.
pub open spec fn triggers(threshold: nat, roots: nat) -> bool {
    roots >= threshold
}

/// A pass was ineffective when more than `threshold * ratio` roots remain.
pub open spec fn ineffective(threshold: nat, ratio: Ratio, remaining: nat) -> bool {
    remaining * (ratio.den as nat) > threshold * (ratio.num as nat)
}

/// `threshold / ratio`, rounded down and capped at the largest `usize`.
pub open spec fn grown(threshold: nat, ratio: Ratio) -> nat {
    let g = (threshold * (ratio.den as nat)) / (ratio.num as nat);
    if g > usize::MAX {
        usize::MAX as nat
    } else {
        g
    }
}

/// The threshold after a pass that left `remaining` roots buffered.
pub open spec fn threshold_after_collection(threshold: nat, growth: Growth, remaining: nat) -> nat {
    match growth {
        Growth::Fixed => threshold,
        Growth::Adaptive(ratio) => if ineffective(threshold, ratio, remaining) {
            grown(threshold, ratio)
        } else {
            threshold
        },
    }
}

/// The threshold after one allocation that saw `roots` buffered roots and,
/// where that triggered a pass, `remaining` roots after it.
pub open spec fn threshold_after_call(threshold: nat, growth: Growth, roots: nat, remaining: nat) -> nat {
    if triggers(threshold, roots) {
        threshold_after_collection(threshold, growth, remaining)
    } else {
        threshold
    }
}

/// The steps of one allocation, in order: the count is read; where it has
/// reached the threshold a pass runs and, under an adaptive policy, the count
/// is read again; then the value is allocated.
pub open spec fn call_events(threshold: nat, growth: Growth, roots: usize, remaining: usize) -> Seq<Event> {
    if triggers(threshold, roots as nat) {
        match growth {
            Growth::Fixed => seq![Event::Observed(roots), Event::Collected, Event::Allocated],
            Growth::Adaptive(_) => seq![
                Event::Observed(roots),
                Event::Collected,
                Event::Observed(remaining),
                Event::Allocated,
            ],
        }
    } else {
        seq![Event::Observed(roots), Event::Allocated]
    }
}

/// The threshold after a sequence of allocations, each given by the counts
/// `(roots, remaining)` that it read.
pub open spec fn threshold_after_calls(threshold: nat, growth: Growth, calls: Seq<(nat, nat)>) -> nat
    decreases calls.len(),
{
    if calls.len() == 0 {
        threshold
    } else {
        let t = threshold_after_calls(threshold, growth, calls.drop_last());
        threshold_after_call(t, growth, calls.last().0, calls.last().1)
    }
}

/// How many of a sequence of allocations ran a collection pass.
pub open spec fn collections_in(threshold: nat, growth: Growth, calls: Seq<(nat, nat)>) -> nat
    decreases calls.len(),
{
    if calls.len() == 0 {
        0
    } else {
        let t = threshold_after_calls(threshold, growth, calls.drop_last());
        collections_in(threshold, growth, calls.drop_last()) + if triggers(t, calls.last().0) {
            1nat
        } else {
            0nat
        }
    }
}

/// Growing never lowers a threshold that fits a `usize`.
pub proof fn lemma_grown_not_smaller(threshold: nat, ratio: Ratio)
    requires
        ratio.valid(),
        threshold <= usize::MAX,
    ensures
        grown(threshold, ratio) >= threshold,
{
    let num = ratio.num as int;
    let den = ratio.den as int;
    assert(threshold * num <= threshold * den) by (nonlinear_arith)
        requires num < den, threshold >= 0;
    vstd::arithmetic::div_mod::lemma_div_is_ordered(threshold * num, threshold * den, num);
    vstd::arithmetic::div_mod::lemma_div_by_multiple(threshold as int, num);
}

/// The steps of a sequence of allocations, each given by the counts
/// `(roots, remaining)` that it read, one after another.
pub open spec fn events_of_calls(threshold: nat, growth: Growth, calls: Seq<(usize, usize)>) -> Seq<Event>
    decreases calls.len(),
{
    if calls.len() == 0 {
        Seq::empty()
    } else {
        let prefix = calls.drop_last();
        let t = threshold_after_calls(threshold, growth, counts_of(prefix));
        events_of_calls(threshold, growth, prefix) + call_events(t, growth, calls.last().0, calls.last().1)
    }
}

/// The counts of a sequence of allocations, as numbers.
pub open spec fn counts_of(calls: Seq<(usize, usize)>) -> Seq<(nat, nat)> {
    calls.map_values(|c: (usize, usize)| (c.0 as nat, c.1 as nat))
}

/// One allocation never lowers the threshold, and keeps it within a `usize`.
pub proof fn lemma_call_keeps_or_raises(threshold: nat, growth: Growth, roots: nat, remaining: nat)
    requires
        growth.valid(),
        threshold <= usize::MAX,
    ensures
        threshold <= threshold_after_call(threshold, growth, roots, remaining) <= usize::MAX,
{
    if let Growth::Adaptive(ratio) = growth {
        lemma_grown_not_smaller(threshold, ratio);
    }
}

/// Over any sequence of allocations the threshold never decreases: after the
/// first `j` calls it is at least what it was after the first `i`, for `i <= j`.
pub proof fn lemma_threshold_never_decreases(
    threshold: nat,
    growth: Growth,
    calls: Seq<(nat, nat)>,
    i: int,
    j: int,
)
    requires
        growth.valid(),
        threshold <= usize::MAX,
        0 <= i <= j <= calls.len(),
    ensures
        threshold_after_calls(threshold, growth, calls.take(i)) <= threshold_after_calls(
            threshold,
            growth,
            calls.take(j),
        ),
        threshold_after_calls(threshold, growth, calls.take(j)) <= usize::MAX,
    decreases j,
{
    if j > 0 {
        assert(calls.take(j).drop_last() == calls.take(j - 1));
        if i < j {
            lemma_threshold_never_decreases(threshold, growth, calls, i, j - 1);
        } else {
            lemma_threshold_never_decreases(threshold, growth, calls, j - 1, j - 1);
        }
        let t = threshold_after_calls(threshold, growth, calls.take(j - 1));
        lemma_call_keeps_or_raises(t, growth, calls[j - 1].0, calls[j - 1].1);
    }
}

/// Allocations that each find fewer buffered roots than the threshold never
/// run a collection pass and leave the threshold as it was.
pub proof fn lemma_fast_path_never_collects(threshold: nat, growth: Growth, calls: Seq<(nat, nat)>)
    requires
        forall|k: int| 0 <= k < calls.len() ==> (#[trigger] calls[k]).0 < threshold,
    ensures
        collections_in(threshold, growth, calls) == 0,
        threshold_after_calls(threshold, growth, calls) == threshold,
    decreases calls.len(),
{
    if calls.len() > 0 {
        let prefix = calls.drop_last();
        assert forall|k: int| 0 <= k < prefix.len() implies (#[trigger] prefix[k]).0 < threshold by {
            assert(prefix[k] == calls[k]);
        }
        lemma_fast_path_never_collects(threshold, growth, prefix);
        assert(calls.last() == calls[calls.len() - 1]);
    }
}

/// A fixed policy keeps its threshold through any sequence of allocations,
/// however many passes they run.
pub proof fn lemma_fixed_threshold_constant(threshold: nat, calls: Seq<(nat, nat)>)
    ensures
        threshold_after_calls(threshold, Growth::Fixed, calls) == threshold,
    decreases calls.len(),
{
    if calls.len() > 0 {
        lemma_fixed_threshold_constant(threshold, calls.drop_last());
    }
}

/// Over any sequence of allocations, each collection pass comes right after
/// the count that called for it and before the allocation it was run for: the
/// allocation follows the pass at once, or, under an adaptive policy, after
/// one more count, the one the pass left.
pub proof fn lemma_pass_precedes_allocation(
    threshold: nat,
    growth: Growth,
    calls: Seq<(usize, usize)>,
    i: int,
)
    requires
        0 <= i < events_of_calls(threshold, growth, calls).len(),
        events_of_calls(threshold, growth, calls)[i] == Event::Collected,
    ensures
        1 <= i,
        events_of_calls(threshold, growth, calls)[i - 1] is Observed,
        growth is Fixed ==> i + 1 < events_of_calls(threshold, growth, calls).len()
            && events_of_calls(threshold, growth, calls)[i + 1] == Event::Allocated,
        growth is Adaptive ==> i + 2 < events_of_calls(threshold, growth, calls).len()
            && events_of_calls(threshold, growth, calls)[i + 1] is Observed
            && events_of_calls(threshold, growth, calls)[i + 2] == Event::Allocated,
    decreases calls.len(),
{
    let events = events_of_calls(threshold, growth, calls);
    if calls.len() > 0 {
        let prefix = calls.drop_last();
        let before = events_of_calls(threshold, growth, prefix);
        let t = threshold_after_calls(threshold, growth, counts_of(prefix));
        let last = call_events(t, growth, calls.last().0, calls.last().1);
        assert(events == before + last);
        if i < before.len() {
            assert(events[i] == before[i]);
            lemma_pass_precedes_allocation(threshold, growth, prefix, i);
            assert(events[i - 1] == before[i - 1]);
            assert(events[i + 1] == before[i + 1]);
            if growth is Adaptive {
                assert(events[i + 2] == before[i + 2]);
            }
        } else {
            assert(events[i] == last[i - before.len()]);
        }
    }
}

} // verus!
