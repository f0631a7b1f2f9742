//! The integer side of the downsampler: the upsampling factor between the
//! two rates, and the clock that picks which intermediate samples are kept.
use vstd::prelude::*;

verus! {

/// The upsampling factor for a rate change: `max(1, 6 * out / in)`.
pub open spec fn inter_factor_of(in_rate: int, out_rate: int) -> int {
    if 6 * out_rate / in_rate >= 1 {
        6 * out_rate / in_rate
    } else {
        1
    }
}

/// Which intermediate samples a downsampler keeps.
#[derive(Clone, Copy, Debug, PartialEq, Eq, Structural)]
pub struct DecimationClock {
    /// Equal rates: every input sample passes unchanged.
    pub skip: bool,
    /// Upsampling factor: intermediate samples per input sample.
    pub inter_factor: u32,
    /// Rate of the intermediate samples.
    pub inter_sample_rate: u32,
    /// Output rate.
    pub out_sample_rate: u32,
    /// Accumulated output counts, at most one intermediate period.
    pub accumulator: u32,
}

impl DecimationClock {
    /// Counters within their ranges.
    pub open spec fn wf(&self) -> bool {
        &&& self.accumulator <= self.inter_sample_rate
        &&& self.inter_sample_rate as int + self.out_sample_rate as int <= u32::MAX
        &&& !self.skip ==> self.out_sample_rate <= self.inter_sample_rate
    }

    /// The clock for downsampling from `in_rate` to `out_rate`; the two
    /// rates equal make a bypass.
    pub fn new(in_rate: u32, out_rate: u32) -> (r: DecimationClock)
        requires
            0 < in_rate,
            out_rate <= in_rate,
            in_rate <= u32::MAX / 8,
        ensures
            r.wf(),
            r.skip == (in_rate == out_rate),
            !r.skip ==> r.inter_factor == inter_factor_of(in_rate as int, out_rate as int)
                && r.inter_sample_rate == in_rate * r.inter_factor,
            r.out_sample_rate == out_rate,
            r.accumulator == 0,
    {
        if in_rate == out_rate {
            return DecimationClock {
                skip: true,
                inter_factor: 0,
                inter_sample_rate: 0,
                out_sample_rate: out_rate,
                accumulator: 0,
            };
        }
        let q = 6 * out_rate / in_rate;
        let inter_factor: u32 = if q >= 1 {
            q
        } else {
            1
        };
        assert(q <= 6) by (nonlinear_arith)
            requires
                q as int == (6 * out_rate as int) / (in_rate as int),
                out_rate <= in_rate,
                0 < in_rate,
        ;
        assert(in_rate <= in_rate * inter_factor <= in_rate * 6) by (nonlinear_arith)
            requires
                1 <= inter_factor <= 6,
        ;
        DecimationClock {
            skip: false,
            inter_factor,
            inter_sample_rate: in_rate * inter_factor,
            out_sample_rate: out_rate,
            accumulator: 0,
        }
    }

    /// Advances by one intermediate sample; true when that sample is kept.
    pub fn tick(&mut self) -> (r: bool)
        requires
            old(self).wf(),
            !old(self).skip,
        ensures
            final(self).wf(),
            final(self).skip == old(self).skip,
            final(self).inter_factor == old(self).inter_factor,
            final(self).inter_sample_rate == old(self).inter_sample_rate,
            final(self).out_sample_rate == old(self).out_sample_rate,
            r == (old(self).accumulator + old(self).out_sample_rate > old(self).inter_sample_rate),
            r ==> final(self).accumulator == old(self).accumulator + old(self).out_sample_rate
                - old(self).inter_sample_rate,
            !r ==> final(self).accumulator == old(self).accumulator + old(self).out_sample_rate,
    {
        self.accumulator = self.accumulator + self.out_sample_rate;
        if self.accumulator > self.inter_sample_rate {
            self.accumulator = self.accumulator - self.inter_sample_rate;
            true
        } else {
            false
        }
    }
}

} // verus!
