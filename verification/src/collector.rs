//! The background collector's decisions: its fixed-period schedule, when an
//! early wake from the interface means collecting now, what a tick does
//! while updates are paused, and when a snapshot is published. Times are
//! milliseconds on the collector's monotonic clock.

use vstd::prelude::*;
use crate::system::ProcessEnrichmentRequirements;

verus! {

/// The period of a tick: the refresh rate, at least one millisecond.
pub open spec fn period(rate_ms: u64) -> u128 {
    if rate_ms >= 1 { rate_ms as u128 } else { 1 }
}

fn period_of(rate_ms: u64) -> (r: u128)
    ensures
        r == period(rate_ms),
{
    if rate_ms >= 1 { rate_ms as u128 } else { 1 }
}

/// The collector's schedule and what it last published.
#[derive(Clone, Copy, Debug, PartialEq, Eq, Structural)]
pub struct CollectorSchedule {
    /// The refresh rate the schedule was derived from.
    pub rate_ms: u64,
    /// When the next tick is due.
    pub next_tick_ms: u128,
    /// The last tick was skipped because updates were paused.
    pub was_paused: bool,
    /// The metadata the last published snapshot carries.
    pub published: ProcessEnrichmentRequirements,
}

/// What the collector does before the next tick.
#[derive(Clone, Copy, Debug, PartialEq, Eq, Structural)]
pub enum WaitStep {
    /// Sleep until this time unless woken.
    WaitUntil(u128),
    /// The deadline has passed: tick now.
    TickNow,
}

/// What a tick does.
#[derive(Clone, Copy, Debug, PartialEq, Eq, Structural)]
pub enum TickAction {
    /// Paused, and the published snapshot has what the interface needs.
    Skip,
    /// Paused, but the interface needs metadata the published snapshot
    /// lacks: collect and publish once.
    CollectWhilePaused,
    /// Collect; `zero_rates` when the last tick was paused, since rates
    /// over the paused span would be meaningless averages.
    Collect { zero_rates: bool },
}

/// A tick: see [`CollectorSchedule::tick`].
pub open spec fn spec_tick(s: CollectorSchedule, paused: bool, wanted: ProcessEnrichmentRequirements) -> (
    CollectorSchedule,
    TickAction,
) {
    (
        CollectorSchedule { was_paused: paused, ..s },
        if paused {
            if s.published.spec_contains(wanted) {
                TickAction::Skip
            } else {
                TickAction::CollectWhilePaused
            }
        } else {
            TickAction::Collect { zero_rates: s.was_paused }
        },
    )
}

impl CollectorSchedule {
    /// The schedule after the first snapshot: the first tick one period
    /// after `now_ms`.
    pub fn start(rate_ms: u64, now_ms: u64, published: ProcessEnrichmentRequirements) -> (s: CollectorSchedule)
        ensures
            s == (CollectorSchedule {
                rate_ms,
                next_tick_ms: (now_ms + period(rate_ms)) as u128,
                was_paused: false,
                published,
            }),
    {
        CollectorSchedule {
            rate_ms,
            next_tick_ms: now_ms as u128 + period_of(rate_ms),
            was_paused: false,
            published,
        }
    }

    /// Top of the loop at `now_ms` with the current refresh rate: a changed
    /// rate restarts the schedule from now; then wait for the deadline, or,
    /// past it, tick at once (no catching up on missed ticks) with the next
    /// deadline one period from now.
    pub fn before_wait(&mut self, rate_ms: u64, now_ms: u64) -> (step: WaitStep)
        ensures
            ({
                let next = if rate_ms != old(self).rate_ms {
                    now_ms + period(rate_ms)
                } else {
                    old(self).next_tick_ms as int
                };
                &&& final(self).rate_ms == rate_ms
                &&& final(self).was_paused == old(self).was_paused
                &&& final(self).published == old(self).published
                &&& if next > now_ms {
                    step == WaitStep::WaitUntil(next as u128) && final(self).next_tick_ms == next
                } else {
                    step == WaitStep::TickNow && final(self).next_tick_ms == now_ms + period(rate_ms)
                }
            }),
    {
        if rate_ms != self.rate_ms {
            self.rate_ms = rate_ms;
            self.next_tick_ms = now_ms as u128 + period_of(rate_ms);
        }
        if self.next_tick_ms > now_ms as u128 {
            WaitStep::WaitUntil(self.next_tick_ms)
        } else {
            self.next_tick_ms = now_ms as u128 + period_of(self.rate_ms);
            WaitStep::TickNow
        }
    }

    /// After waiting. Reaching the deadline ticks, with the next deadline a
    /// period after it. An early wake (`woken_early`, at `now_ms`) ticks now
    /// only when the interface waits on a snapshot: updates resume
    /// (`resuming`) or it wants metadata the published snapshot lacks;
    /// otherwise the loop starts over (returns `false`).
    pub fn after_wait(
        &mut self,
        woken_early: bool,
        now_ms: u64,
        resuming: bool,
        wanted: ProcessEnrichmentRequirements,
    ) -> (tick: bool)
        requires
            old(self).next_tick_ms <= u128::MAX - u64::MAX as u128,
        ensures
            tick == (!woken_early || resuming || !old(self).published.spec_contains(wanted)),
            final(self).rate_ms == old(self).rate_ms,
            final(self).was_paused == old(self).was_paused,
            final(self).published == old(self).published,
            final(self).next_tick_ms == if !tick {
                old(self).next_tick_ms as int
            } else if woken_early {
                now_ms + period(old(self).rate_ms)
            } else {
                old(self).next_tick_ms + period(old(self).rate_ms)
            },
    {
        if woken_early {
            if !resuming && self.published.contains(wanted) {
                return false;
            }
            self.next_tick_ms = now_ms as u128 + period_of(self.rate_ms);
        } else {
            self.next_tick_ms = self.next_tick_ms + period_of(self.rate_ms);
        }
        true
    }

    /// What a tick does, given whether updates are paused and the metadata
    /// the interface wants.
    pub fn tick(&mut self, paused: bool, wanted: ProcessEnrichmentRequirements) -> (action: TickAction)
        ensures
            (*final(self), action) == spec_tick(*old(self), paused, wanted),
    {
        if paused {
            self.was_paused = true;
            if self.published.contains(wanted) {
                TickAction::Skip
            } else {
                TickAction::CollectWhilePaused
            }
        } else {
            let zero_rates = self.was_paused;
            self.was_paused = false;
            TickAction::Collect { zero_rates }
        }
    }

    /// Whether a snapshot collected with `enrichment` is published: always
    /// while updates run (`paused_now` is read after collecting), and while
    /// paused only when it adds metadata the published one lacks.
    pub fn should_publish(&self, paused_now: bool, enrichment: ProcessEnrichmentRequirements) -> (r: bool)
        ensures
            r == (!paused_now || !self.published.spec_contains(enrichment)),
    {
        !paused_now || !self.published.contains(enrichment)
    }

    /// Record that a snapshot with `enrichment` was published.
    pub fn published_with(&mut self, enrichment: ProcessEnrichmentRequirements)
        ensures
            *final(self) == (CollectorSchedule { published: enrichment, ..*old(self) }),
    {
        self.published = enrichment;
    }
}

/// After any number of paused ticks, the first running tick zeroes the
/// rates and the one after it does not.
pub proof fn resume_zeroes_rates_once(
    s: CollectorSchedule,
    wanted: ProcessEnrichmentRequirements,
    later: ProcessEnrichmentRequirements,
    again: ProcessEnrichmentRequirements,
)
    ensures
        ({
            let (paused, _) = spec_tick(s, true, wanted);
            let (resumed, first) = spec_tick(paused, false, later);
            let (_, second) = spec_tick(resumed, false, again);
            first == (TickAction::Collect { zero_rates: true }) && second == (TickAction::Collect {
                zero_rates: false,
            })
        }),
{
}

} // verus!
