use vstd::prelude::*;
use crate::easing::Weight;
use crate::utils::{
    is_unit, lerp, lerp_spec, quantized_floor, quantized_remainder, unit_interval, unit_interval_spec,
    UnitIntervalChecker, ONE,
};

verus! {

/// One edge of a repeater's envelope: moves from `start` to `end`, eased by
/// `weight`, as the repeats go on.
#[derive(Clone, Copy, Debug)]
pub struct RepeaterClamp {
    pub start: i64,
    pub end: i64,
    pub weight: Weight,
}

impl RepeaterClamp {
    pub open spec fn wf(self) -> bool {
        is_unit(self.start as int) && is_unit(self.end as int)
    }

    /// Whether both ends lie in the unit interval.
    pub fn is_valid(&self) -> (r: bool)
        ensures
            r == self.wf(),
    {
        UnitIntervalChecker::check(self.start) && UnitIntervalChecker::check(self.end)
    }

    pub open spec fn spec_eval(self, t: int) -> int {
        lerp_spec(self.start as int, self.end as int, self.weight.spec_eval(t))
    }

    /// The edge's position at unit progress `t` through the repeats.
    pub fn eval(&self, t: i64) -> (r: i64)
        requires
            self.wf(),
            is_unit(t as int),
        ensures
            r as int == self.spec_eval(t as int),
            is_unit(r as int),
    {
        let w = self.weight.eval(t);
        lerp(self.start, self.end, w)
    }
}

/// Loops clip-local time through `period` for as long as `duration` lasts,
/// narrowing or widening the output with a moving envelope. On a clip the
/// period is the span of the anchor curve, the time of its last anchor
/// (`Automation::wf`), so each cycle replays the whole curve.
#[derive(Clone, Copy, Debug)]
pub struct Repeater {
    /// Plays odd cycles backwards.
    pub ping_pong: bool,
    /// Samples the bound tables at the looped time rather than the clip time.
    pub repeat_bounds: bool,
    pub period: i64,
    /// How long the repeating lasts, from the clip's start.
    pub duration: i64,
    pub ceil: RepeaterClamp,
    pub floor: RepeaterClamp,
}

/// Where a repeater puts a clip-local time: the looped time, and the envelope
/// of the current cycle.
#[derive(Clone, Copy, Debug, PartialEq, Eq, Structural)]
pub struct RepeaterOutput {
    pub repeat_time: i64,
    pub lower_clamp: i64,
    pub upper_clamp: i64,
}

impl RepeaterOutput {
    /// No looping, and the full unit envelope.
    pub fn new(seek_time: i64) -> (r: Self)
        ensures
            r == (RepeaterOutput { repeat_time: seek_time, lower_clamp: 0, upper_clamp: ONE }),
    {
        RepeaterOutput { repeat_time: seek_time, lower_clamp: 0, upper_clamp: ONE }
    }
}

impl Repeater {
    pub open spec fn wf(self) -> bool {
        &&& 0 < self.period <= crate::utils::LIMIT
        &&& 0 < self.duration <= crate::utils::LIMIT
        &&& self.ceil.wf()
        &&& self.floor.wf()
    }

    /// Whether the period and the duration are positive and in range, and
    /// the envelope lies in the unit interval.
    pub fn is_valid(&self) -> (r: bool)
        ensures
            r == self.wf(),
    {
        0 < self.period && self.period <= crate::utils::LIMIT && 0 < self.duration
            && self.duration <= crate::utils::LIMIT && self.ceil.is_valid() && self.floor.is_valid()
    }

    /// Whether clip-local time `offset` falls in the repeating span.
    pub open spec fn covers(self, offset: int) -> bool {
        0 <= offset < self.duration
    }

    /// The looped time: the remainder within the cycle, mirrored on odd
    /// cycles when ping-pong is on.
    pub open spec fn repeat_time_spec(self, offset: int) -> int {
        let cycle = offset / (self.period as int);
        let rem = offset % (self.period as int);
        if self.ping_pong && cycle % 2 == 1 {
            self.period - rem
        } else {
            rem
        }
    }

    /// Progress through the repeats: the start of the current cycle as a unit
    /// fraction of the duration.
    pub open spec fn progress_spec(self, offset: int) -> int {
        unit_interval_spec((offset / (self.period as int)) * self.period, 0, self.duration as int)
    }

    pub open spec fn produce_spec(self, offset: int) -> RepeaterOutput {
        RepeaterOutput {
            repeat_time: self.repeat_time_spec(offset) as i64,
            lower_clamp: self.floor.spec_eval(self.progress_spec(offset)) as i64,
            upper_clamp: self.ceil.spec_eval(self.progress_spec(offset)) as i64,
        }
    }

    /// The looped time and the envelope for clip-local time `offset`.
    pub fn produce(&self, offset: i64) -> (r: RepeaterOutput)
        requires
            self.wf(),
            self.covers(offset as int),
        ensures
            r == self.produce_spec(offset as int),
            r.repeat_time as int == self.repeat_time_spec(offset as int),
            0 <= r.repeat_time <= self.period,
            is_unit(r.lower_clamp as int),
            is_unit(r.upper_clamp as int),
    {
        let cycle: i64 = offset / self.period;
        let rem: i64 = quantized_remainder(offset, self.period, 0);
        proof {
            vstd::arithmetic::div_mod::lemma_fundamental_div_mod(offset as int, self.period as int);
            vstd::arithmetic::div_mod::lemma_mod_pos_bound(offset as int, self.period as int);
            vstd::arithmetic::div_mod::lemma_div_pos_is_pos(offset as int, self.period as int);
            assert(cycle * self.period == self.period * cycle);
        }
        let start: i64 = quantized_floor(offset, self.period, 0);
        let progress = unit_interval(start, 0, self.duration);
        let repeat_time: i64 = if self.ping_pong && cycle % 2 == 1 {
            self.period - rem
        } else {
            rem
        };
        RepeaterOutput {
            repeat_time,
            lower_clamp: self.floor.eval(progress),
            upper_clamp: self.ceil.eval(progress),
        }
    }
}

/// In ping-pong mode the second cycle runs the first one backwards: time
/// `period + r` loops to `period - r`.
pub proof fn lemma_ping_pong_second_cycle(rep: Repeater, r: int)
    requires
        rep.wf(),
        rep.ping_pong,
        0 <= r < rep.period,
    ensures
        rep.repeat_time_spec(rep.period + r) == rep.period - r,
{
    let p = rep.period as int;
    vstd::arithmetic::div_mod::lemma_fundamental_div_mod_converse(p + r, p, 1, r);
}

} // verus!
