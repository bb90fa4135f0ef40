//! Allocation under a collection policy: policy state owned by its caller,
//! consulted before every allocation.

use vstd::prelude::*;

use crate::collector::{collect, roots_buffered, CollectorLog};
use crate::policy::{
    call_events, lemma_grown_not_smaller, threshold_after_call, threshold_after_collection,
    triggers, Event, Growth, Ratio,
};

verus! {

/// The threshold of the fixed policy that `cc_with` uses.
pub const DEFAULT_THRESHOLD: usize = 128;

/// Why a policy could not be built.
#[derive(Clone, Copy, Debug, PartialEq, Eq, Structural)]
pub enum ConfigError {
    /// A threshold of zero would run a pass before every allocation.
    ZeroThreshold,
    /// The growth ratio does not lie strictly between 0 and 1.
    RatioOutOfRange,
}

/// What a policy is: its threshold, how that threshold grows, and the steps
/// that its allocations have taken so far.
pub struct PolicyModel {
    pub threshold: nat,
    pub growth: Growth,
    pub history: Seq<Event>,
}

/// The state of one policy, owned by the context that allocates through it.
pub struct Policy {
    threshold: usize,
    growth: Growth,
    log: CollectorLog,
}

impl View for Policy {
    type V = PolicyModel;

    closed spec fn view(&self) -> PolicyModel {
        PolicyModel {
            threshold: self.threshold as nat,
            growth: self.growth,
            history: self.log.events(),
        }
    }
}

/// The count found at position `i` of a history, where a count stands there.
pub open spec fn count_at(history: Seq<Event>, i: int) -> usize {
    match history[i] {
        Event::Observed(n) => n,
        _ => 0,
    }
}

impl Policy {
    /// The threshold is at least 1 and the growth ratio lies in (0, 1).
    pub open spec fn wf(&self) -> bool {
        &&& self@.threshold >= 1
        &&& self@.threshold <= usize::MAX
        &&& self@.growth.valid()
    }

    /// A policy whose threshold never changes.
    pub fn fixed(threshold: usize) -> (r: Result<Policy, ConfigError>)
        ensures
            r is Ok <==> threshold > 0,
            threshold == 0 <==> r == Err::<Policy, ConfigError>(ConfigError::ZeroThreshold),
            r matches Ok(p) ==> p.wf() && p@ == (PolicyModel {
                threshold: threshold as nat,
                growth: Growth::Fixed,
                history: Seq::empty(),
            }),
    {
        if threshold == 0 {
            Err(ConfigError::ZeroThreshold)
        } else {
            Ok(Policy { threshold, growth: Growth::Fixed, log: CollectorLog::new() })
        }
    }

    /// A policy whose threshold becomes `threshold / ratio` after a pass that
    /// leaves more than `threshold * ratio` roots buffered.
    pub fn adaptive(threshold: usize, ratio: Ratio) -> (r: Result<Policy, ConfigError>)
        ensures
            r is Ok <==> threshold > 0 && ratio.valid(),
            threshold == 0 <==> r == Err::<Policy, ConfigError>(ConfigError::ZeroThreshold),
            threshold > 0 && !ratio.valid() <==> r == Err::<Policy, ConfigError>(
                ConfigError::RatioOutOfRange,
            ),
            r matches Ok(p) ==> p.wf() && p@ == (PolicyModel {
                threshold: threshold as nat,
                growth: Growth::Adaptive(ratio),
                history: Seq::empty(),
            }),
    {
        if threshold == 0 {
            Err(ConfigError::ZeroThreshold)
        } else if !ratio.is_valid() {
            Err(ConfigError::RatioOutOfRange)
        } else {
            Ok(Policy { threshold, growth: Growth::Adaptive(ratio), log: CollectorLog::new() })
        }
    }

    /// The buffered-root count at or above which a pass runs.
    pub fn threshold(&self) -> (r: usize)
        ensures
            r == self@.threshold,
    {
        self.threshold
    }

    /// How the threshold reacts to a pass.
    pub fn growth(&self) -> (r: Growth)
        ensures
            r == self@.growth,
    {
        self.growth
    }

    /// Whether `roots` buffered roots call for a pass before allocating.
    pub fn should_collect(&self, roots: usize) -> (r: bool)
        ensures
            r == triggers(self@.threshold, roots as nat),
    {
        roots >= self.threshold
    }

    /// Adjusts the threshold to a pass that left `remaining` roots buffered.
    pub fn record_collection(&mut self, remaining: usize)
        requires
            old(self).wf(),
        ensures
            final(self).wf(),
            final(self)@ == (PolicyModel {
                threshold: threshold_after_collection(old(self)@.threshold, old(self)@.growth, remaining as nat),
                ..old(self)@
            }),
            final(self)@.threshold >= old(self)@.threshold,
    {
        match self.growth {
            Growth::Fixed => {},
            Growth::Adaptive(ratio) => {
                let t = self.threshold;
                assert((remaining as nat) * (ratio.den as nat) <= u128::MAX) by (nonlinear_arith)
                    requires remaining <= u64::MAX, ratio.den <= u64::MAX;
                assert((t as nat) * (ratio.den as nat) <= u128::MAX) by (nonlinear_arith)
                    requires t <= u64::MAX, ratio.den <= u64::MAX;
                assert((t as nat) * (ratio.num as nat) <= u128::MAX) by (nonlinear_arith)
                    requires t <= u64::MAX, ratio.num <= u64::MAX;
                let scaled: u128 = t as u128 * ratio.den as u128;
                if remaining as u128 * ratio.den as u128 > t as u128 * ratio.num as u128 {
                    let g: u128 = scaled / ratio.num as u128;
                    proof {
                        lemma_grown_not_smaller(t as nat, ratio);
                    }
                    if g > usize::MAX as u128 {
                        self.threshold = usize::MAX;
                    } else {
                        self.threshold = g as usize;
                    }
                }
            },
        }
    }

    /// Allocates through `make`, running a collection pass first where the
    /// buffered roots have reached the threshold, and adjusting the threshold
    /// to what that pass left behind. `make` is handed the collector log as it
    /// stands when the allocation is made: after the count was read and after
    /// any pass. The history gains the steps taken, in order.
    pub fn allocate_with<H, F: FnOnce(&CollectorLog) -> H>(&mut self, make: F) -> (r: H)
        requires
            old(self).wf(),
            forall|l: CollectorLog| make.requires((&l,)),
        ensures
            make.ensures((&CollectorLog::recorded(final(self)@.history.drop_last()),), r),
            final(self).wf(),
            final(self)@.growth == old(self)@.growth,
            ({
                let start = old(self)@.history.len() as int;
                let roots = count_at(final(self)@.history, start);
                let remaining = count_at(final(self)@.history, start + 2);
                &&& final(self)@.history == old(self)@.history + call_events(
                    old(self)@.threshold,
                    old(self)@.growth,
                    roots,
                    remaining,
                )
                &&& final(self)@.threshold == threshold_after_call(
                    old(self)@.threshold,
                    old(self)@.growth,
                    roots as nat,
                    remaining as nat,
                )
            }),
            final(self)@.threshold >= old(self)@.threshold,
    {
        let roots = roots_buffered(&mut self.log);
        if self.should_collect(roots) {
            collect(&mut self.log);
            match self.growth {
                Growth::Fixed => {},
                Growth::Adaptive(_) => {
                    let remaining = roots_buffered(&mut self.log);
                    self.record_collection(remaining);
                },
            }
        }
        proof {
            self.log.lemma_recorded();
        }
        let ghost before = self.log.events();
        let r = make(&self.log);
        self.log.note_allocated();
        assert(self@.history.drop_last() =~= before);
        r
    }
}

/// Allocates through `make` under a fixed policy of `DEFAULT_THRESHOLD`
/// roots: a collection pass runs first where that many roots are buffered.
/// `log` gains the calls made on the collector, then the allocation; `make`
/// is handed `log` as it stands when the allocation is made.
pub fn cc_with<H, F: FnOnce(&CollectorLog) -> H>(log: &mut CollectorLog, make: F) -> (r: H)
    requires
        forall|l: CollectorLog| make.requires((&l,)),
    ensures
        make.ensures((&CollectorLog::recorded(final(log).events().drop_last()),), r),
        ({
            let start = old(log).events().len() as int;
            let roots = count_at(final(log).events(), start);
            final(log).events() == old(log).events() + call_events(
                DEFAULT_THRESHOLD as nat,
                Growth::Fixed,
                roots,
                0,
            )
        }),
{
    match Policy::fixed(DEFAULT_THRESHOLD) {
        Ok(mut policy) => {
            std::mem::swap(&mut policy.log, log);
            let r = policy.allocate_with(make);
            std::mem::swap(&mut policy.log, log);
            r
        },
        Err(_) => make(log),
    }
}

} // verus!
