//! The integer stages of the Bell-202 modem: the line levels sent for a
//! frame, and the chain that turns sliced samples back into frames.
use vstd::prelude::*;
use crate::bits::{bits_lsb, lsb_bits};
use crate::hdlc::{
    bit_sampler_step, collect_step, hdlc_encode, hdlc_encoded, hdlc_input, BitSampler,
    FrameCollector, FrameSignal, HdlcDecode,
};
use crate::nrzi::{nrzi_encoded, NrziDecode, NrziEncode};

verus! {

/// Symbol rate of the Bell-202 modem, in baud.
pub const BELL202_RATE: u32 = 1200;

/// Mark tone, in hertz.
pub const BELL202_MARK: u32 = 1200;

/// Space tone, in hertz.
pub const BELL202_SPACE: u32 = 2200;

/// Sample rate at which the demodulator works best, in hertz.
pub const BELL202_OPTIMAL_SAMPLE_RATE: u32 = 7500;

/// The line levels sent for a frame: its bits least significant first,
/// framed and stuffed, then NRZI coded from level low.
pub open spec fn line_levels(frame: Seq<u8>) -> Seq<bool> {
    nrzi_encoded(hdlc_encoded(lsb_bits(frame)), false)
}

/// The line levels sent for a frame (check sequence already appended).
pub fn bell_202_line_levels(frame: &[u8]) -> (r: Vec<bool>)
    ensures
        r@ == line_levels(frame@),
{
    let wire = hdlc_encode(bits_lsb(frame));
    let mut nrzi = NrziEncode::new();
    nrzi.encode(wire.as_slice())
}

/// Sliced samples to frames: bit clock recovery, NRZI decoding, HDLC
/// decoding and frame collection, in that order.
pub struct Bell202Deframer {
    pub sampler: BitSampler,
    pub nrzi: NrziDecode,
    pub hdlc: HdlcDecode,
    pub collector: FrameCollector,
}

impl Bell202Deframer {
    /// Counters of the stages within their ranges.
    pub open spec fn wf(&self) -> bool {
        self.sampler.wf() && self.hdlc.wf()
    }

    /// A chain for sliced samples at `sample_rate`, at least the symbol rate.
    pub fn new(sample_rate: u32) -> (r: Bell202Deframer)
        requires
            BELL202_RATE <= sample_rate,
        ensures
            r.wf(),
            r.sampler == (BitSampler {
                sample_rate,
                bit_rate: BELL202_RATE,
                accumulator: 0,
                last_bit: false,
            }),
            !r.nrzi.last,
            r.hdlc == crate::hdlc::decoder_reset(),
            r.collector.pending() == Seq::<u8>::empty(),
    {
        Bell202Deframer {
            sampler: BitSampler::new(sample_rate, BELL202_RATE),
            nrzi: NrziDecode::new(),
            hdlc: HdlcDecode::new(),
            collector: FrameCollector::new(),
        }
    }

    /// Takes one sliced sample (`None` where the slicer saw no carrier);
    /// gives a frame when one is complete.
    pub fn filter(&mut self, sliced: Option<bool>) -> (r: Option<Vec<u8>>)
        requires
            old(self).wf(),
        ensures
            final(self).wf(),
            ({
                let (s1, level) = bit_sampler_step(old(self).sampler, sliced);
                let bit = match level {
                    Some(l) => Some(l == old(self).nrzi.last),
                    None => None,
                };
                let (h1, sig) = hdlc_input(old(self).hdlc, bit);
                &&& final(self).sampler == s1
                &&& final(self).nrzi.last == match level {
                    Some(l) => l,
                    None => old(self).nrzi.last,
                }
                &&& final(self).hdlc == h1
                &&& match sig {
                    Some(x) => (final(self).collector.pending(), match r {
                        Some(v) => Some(v@),
                        None => None::<Seq<u8>>,
                    }) == collect_step(old(self).collector.pending(), x),
                    None => r is None && final(self).collector.pending() == old(
                        self,
                    ).collector.pending(),
                }
            }),
    {
        let level = self.sampler.filter(sliced);
        let bit = match level {
            Some(l) => Some(self.nrzi.filter(l)),
            None => None,
        };
        let sig = self.hdlc.filter_opt(bit);
        self.collector.filter(sig)
    }
}

} // verus!
