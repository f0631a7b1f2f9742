//! HDLC framing: flag markers, bit stuffing, and the decoder that undoes them.
use vstd::prelude::*;
use crate::bits::{byte_bit, lsb_bits};

verus! {

/// The flag marker `01111110`, in the order it is sent.
pub open spec fn flag_bits() -> Seq<bool> {
    seq![false, true, true, true, true, true, true, false]
}

/// `n` flag markers in a row.
pub open spec fn repeat_flag(n: nat) -> Seq<bool>
    decreases n,
{
    if n == 0 {
        seq![]
    } else {
        repeat_flag((n - 1) as nat) + flag_bits()
    }
}

/// Number of flag markers sent before a frame.
pub const PREAMBLE_FLAGS: u32 = 15;

/// `bits` with a zero inserted after every run of five ones, `ones` being
/// the length of the run of ones just before them.
pub open spec fn stuffed(bits: Seq<bool>, ones: int) -> Seq<bool>
    decreases 2 * bits.len() + if ones >= 5 {
        1int
    } else {
        0int
    },
{
    if ones >= 5 {
        seq![false] + stuffed(bits, 0)
    } else if bits.len() == 0 {
        seq![]
    } else {
        seq![bits[0]] + stuffed(
            bits.drop_first(),
            if bits[0] {
                ones + 1
            } else {
                0
            },
        )
    }
}

/// The bits sent for a frame body: fifteen flags, the stuffed body, and
/// two closing flags.
pub open spec fn hdlc_encoded(bits: Seq<bool>) -> Seq<bool> {
    repeat_flag(15) + stuffed(bits, 0) + flag_bits() + flag_bits()
}

/// Every flag of a run of flags has the marker's bits.
proof fn lemma_repeat_flag(n: nat)
    ensures
        repeat_flag(n).len() == 8 * n,
        forall|i: int| 0 <= i < 8 * n ==> #[trigger] repeat_flag(n)[i] == flag_bits()[i % 8],
    decreases n,
{
    if n > 0 {
        lemma_repeat_flag((n - 1) as nat);
        assert forall|i: int| 0 <= i < 8 * n implies #[trigger] repeat_flag(n)[i] == flag_bits()[i
            % 8] by {
            if i >= 8 * (n - 1) {
                assert(i % 8 == i - 8 * (n - 1)) by (nonlinear_arith)
                    requires
                        8 * (n - 1) <= i < 8 * n,
                ;
            }
        }
    }
}

/// Where the encoder stands.
#[derive(Clone, Copy, Debug, PartialEq, Eq, Structural)]
pub enum HdlcEncoderState {
    /// Sending the opening flags; `index` bits of them are out.
    Prelude { index: u32 },
    /// Sending the body; `ones` ones in a row were just sent.
    Body { ones: u32 },
    /// Sending the closing flags; `index` bits of them are out.
    Finishing { index: u32 },
    /// Done.
    End,
}

/// Bit-level HDLC encoder: hands out the opening flags, the stuffed body
/// bits and the closing flags one at a time.
pub struct HdlcEncoderIter {
    bits: Vec<bool>,
    pos: usize,
    state: HdlcEncoderState,
}

/// The marker bit at position `i` of a run of flags.
fn flag_bit(i: u32) -> (r: bool)
    ensures
        r == flag_bits()[(i % 8) as int],
{
    let k = i % 8;
    !(k == 0 || k == 7)
}

impl HdlcEncoderIter {
    /// The body bits being sent.
    pub closed spec fn bits(&self) -> Seq<bool> {
        self.bits@
    }

    /// The bits still to come.
    pub closed spec fn remaining(&self) -> Seq<bool> {
        let rest = self.bits@.subrange(self.pos as int, self.bits@.len() as int);
        match self.state {
            HdlcEncoderState::Prelude { index } => repeat_flag(15).subrange(index as int, 120)
                + stuffed(rest, 0) + flag_bits() + flag_bits(),
            HdlcEncoderState::Body { ones } => stuffed(rest, ones as int) + flag_bits()
                + flag_bits(),
            HdlcEncoderState::Finishing { index } => (flag_bits() + flag_bits()).subrange(
                index as int,
                16,
            ),
            HdlcEncoderState::End => seq![],
        }
    }

    #[verifier::type_invariant]
    spec fn inv(&self) -> bool {
        &&& self.pos <= self.bits@.len()
        &&& match self.state {
            HdlcEncoderState::Prelude { index } => index < 120 && self.pos == 0,
            HdlcEncoderState::Body { ones } => ones <= 5,
            HdlcEncoderState::Finishing { index } => 1 <= index < 16,
            HdlcEncoderState::End => true,
        }
    }

    /// An encoder for the body `bits`.
    pub fn new(bits: Vec<bool>) -> (r: HdlcEncoderIter)
        ensures
            r.bits() == bits@,
            r.remaining() == hdlc_encoded(bits@),
    {
        let r = HdlcEncoderIter { bits, pos: 0, state: HdlcEncoderState::Prelude { index: 0 } };
        proof {
            lemma_repeat_flag(15);
            assert(r.bits@.subrange(0, r.bits@.len() as int) =~= r.bits@);
            assert(repeat_flag(15).subrange(0, 120) =~= repeat_flag(15));
        }
        r
    }

    /// The next bit, or `None` once the closing flags are out.
    pub fn next(&mut self) -> (r: Option<bool>)
        ensures
            final(self).bits() == old(self).bits(),
            old(self).remaining().len() > 0 ==> r == Some(old(self).remaining()[0])
                && final(self).remaining() == old(self).remaining().drop_first(),
            old(self).remaining().len() == 0 ==> r is None && final(self).remaining().len() == 0,
    {
        proof {
            use_type_invariant(&*self);
            lemma_repeat_flag(15);
        }
        let ghost old_rem = self.remaining();
        let ghost rest = self.bits@.subrange(self.pos as int, self.bits@.len() as int);
        match self.state {
            HdlcEncoderState::Prelude { index } => {
                let r = flag_bit(index);
                let next_index = index + 1;
                if next_index >= 120 {
                    self.state = HdlcEncoderState::Body { ones: 0 };
                } else {
                    self.state = HdlcEncoderState::Prelude { index: next_index };
                }
                assert(self.remaining() =~= old_rem.drop_first());
                Some(r)
            },
            HdlcEncoderState::Body { ones } => {
                if ones == 5 {
                    self.state = HdlcEncoderState::Body { ones: 0 };
                    assert(self.remaining() =~= old_rem.drop_first());
                    Some(false)
                } else if self.pos < self.bits.len() {
                    let x = self.bits[self.pos];
                    self.pos = self.pos + 1;
                    self.state = HdlcEncoderState::Body { ones: if x { ones + 1 } else { 0 } };
                    assert(rest.drop_first() =~= self.bits@.subrange(
                        self.pos as int,
                        self.bits@.len() as int,
                    ));
                    assert(self.remaining() =~= old_rem.drop_first());
                    Some(x)
                } else {
                    self.state = HdlcEncoderState::Finishing { index: 1 };
                    assert(rest.len() == 0);
                    assert(self.remaining() =~= old_rem.drop_first());
                    Some(false)
                }
            },
            HdlcEncoderState::Finishing { index } => {
                let r = flag_bit(index);
                let next_index = index + 1;
                if next_index >= 16 {
                    self.state = HdlcEncoderState::End;
                } else {
                    self.state = HdlcEncoderState::Finishing { index: next_index };
                }
                assert(self.remaining() =~= old_rem.drop_first());
                Some(r)
            },
            HdlcEncoderState::End => None,
        }
    }
}

/// The bits sent for a frame body: fifteen opening flags, the body with a
/// zero stuffed after every five ones in a row, and two closing flags.
pub fn hdlc_encode(bits: Vec<bool>) -> (r: Vec<bool>)
    ensures
        r@ == hdlc_encoded(bits@),
{
    let ghost b0 = bits@;
    let ghost target = hdlc_encoded(bits@);
    let mut it = HdlcEncoderIter::new(bits);
    let mut out: Vec<bool> = Vec::new();
    loop
        invariant
            b0 == bits@,
            target == hdlc_encoded(b0),
            out@ + it.remaining() == target,
        decreases it.remaining().len(),
    {
        let ghost before = it.remaining();
        match it.next() {
            Some(b) => {
                out.push(b);
                assert(out@ + it.remaining() =~= target) by {
                    assert(before =~= seq![b] + before.drop_first());
                }
            },
            None => {
                assert(out@ =~= target);
                return out;
            },
        }
    }
}


/// What the decoder reports for a bit.
#[derive(Clone, Copy, Debug, PartialEq, Eq, Structural)]
pub enum FrameSignal {
    /// A complete octet of a frame body.
    Octet(u8),
    /// A flag marker at an octet boundary: a frame starts or ends here.
    FrameMarker,
    /// A flag marker off an octet boundary while a frame was running.
    DecodeError,
}

/// Number of empty inputs in a row after which the decoder resets.
pub const MAX_EMPTY_BITS: u8 = 20;

/// Bit-level HDLC decoder.
#[derive(Clone, Copy, Debug, Default)]
pub struct HdlcDecode {
    /// The last eight bits received, the newest in the top bit.
    pub accum: u8,
    /// Bits of the current octet received so far.
    pub bit: u8,
    /// Ones received in a row.
    pub ones: u8,
    /// Five ones were received: the next bit is a stuffed zero or part of a marker.
    pub skip_next_zero: bool,
    /// Six ones were received: the next bit ends a marker.
    pub reset_next: bool,
    /// Inside a frame.
    pub is_running: bool,
    /// Empty inputs received in a row.
    pub empty_bits: u8,
}

/// The decoder at rest: hunting for a marker.
pub open spec fn decoder_reset() -> HdlcDecode {
    HdlcDecode {
        accum: 0,
        bit: 0,
        ones: 0,
        skip_next_zero: false,
        reset_next: false,
        is_running: false,
        empty_bits: 0,
    }
}

/// The decoder's state and output after one received bit.
pub open spec fn hdlc_step(s: HdlcDecode, sample: bool) -> (HdlcDecode, Option<FrameSignal>) {
    if s.reset_next {
        if !sample && (!s.is_running || s.bit == 6 || s.bit == 5) {
            (HdlcDecode { is_running: true, ..decoder_reset() }, Some(FrameSignal::FrameMarker))
        } else if s.is_running {
            (decoder_reset(), Some(FrameSignal::DecodeError))
        } else {
            (decoder_reset(), None)
        }
    } else if s.skip_next_zero {
        (HdlcDecode { skip_next_zero: false, reset_next: sample, ..s }, None)
    } else {
        let accum = (s.accum / 2 + if sample {
            128int
        } else {
            0int
        }) as u8;
        let run = if sample {
            s.ones + 1
        } else {
            0
        };
        let ones = if run == 5 {
            0
        } else {
            run
        };
        let t = HdlcDecode { accum, ones: ones as u8, skip_next_zero: run == 5, ..s };
        if s.bit + 1 >= 8 {
            (
                HdlcDecode { bit: 0, ..t },
                if s.is_running {
                    Some(FrameSignal::Octet(accum))
                } else {
                    None
                },
            )
        } else {
            (HdlcDecode { bit: (s.bit + 1) as u8, ..t }, None)
        }
    }
}

/// The decoder's state and output after one input that may be empty: an
/// empty input counts towards the carrier-loss limit, beyond which the
/// decoder resets.
pub open spec fn hdlc_input(s: HdlcDecode, sample: Option<bool>) -> (HdlcDecode, Option<FrameSignal>) {
    match sample {
        Some(b) => hdlc_step(HdlcDecode { empty_bits: 0, ..s }, b),
        None => if s.empty_bits + 1 > MAX_EMPTY_BITS {
            (decoder_reset(), None)
        } else {
            (HdlcDecode { empty_bits: (s.empty_bits + 1) as u8, ..s }, None)
        },
    }
}

impl HdlcDecode {
    /// Counters within their ranges.
    pub open spec fn wf(&self) -> bool {
        self.bit < 8 && self.ones < 5 && self.empty_bits <= MAX_EMPTY_BITS
    }

    /// A decoder hunting for a marker.
    pub fn new() -> (r: HdlcDecode)
        ensures
            r == decoder_reset(),
    {
        HdlcDecode {
            accum: 0,
            bit: 0,
            ones: 0,
            skip_next_zero: false,
            reset_next: false,
            is_running: false,
            empty_bits: 0,
        }
    }

    /// Delay in bits.
    pub fn delay(&self) -> (r: usize)
        ensures
            r == 8,
    {
        8
    }

    /// Goes back to hunting for a marker.
    pub fn reset(&mut self)
        ensures
            *final(self) == decoder_reset(),
    {
        *self = HdlcDecode::new();
    }

    /// Takes one bit.
    pub fn filter(&mut self, sample: bool) -> (r: Option<FrameSignal>)
        requires
            old(self).wf(),
        ensures
            (*final(self), r) == hdlc_step(*old(self), sample),
            final(self).wf(),
    {
        if self.reset_next {
            return if !sample && (!self.is_running || self.bit == 6 || self.bit == 5) {
                self.reset();
                self.is_running = true;
                Some(FrameSignal::FrameMarker)
            } else if self.is_running {
                self.reset();
                Some(FrameSignal::DecodeError)
            } else {
                self.reset();
                None
            };
        }
        if self.skip_next_zero {
            self.skip_next_zero = false;
            self.reset_next = sample;
            return None;
        }
        self.accum = self.accum / 2 + if sample {
            128
        } else {
            0
        };
        if sample {
            self.ones = self.ones + 1;
        } else {
            self.ones = 0;
        }
        if self.ones == 5 {
            self.skip_next_zero = true;
            self.ones = 0;
        }
        self.bit = self.bit + 1;
        if self.bit >= 8 {
            self.bit = 0;
            if self.is_running {
                return Some(FrameSignal::Octet(self.accum));
            }
        }
        None
    }

    /// Takes one input that may be empty; after more than twenty empty
    /// inputs in a row (carrier lost) the decoder resets.
    pub fn filter_opt(&mut self, sample: Option<bool>) -> (r: Option<FrameSignal>)
        requires
            old(self).wf(),
        ensures
            final(self).wf(),
            (*final(self), r) == hdlc_input(*old(self), sample),
    {
        match sample {
            Some(b) => {
                self.empty_bits = 0;
                self.filter(b)
            },
            None => {
                self.empty_bits = self.empty_bits + 1;
                if self.empty_bits > MAX_EMPTY_BITS {
                    self.reset();
                }
                None
            },
        }
    }
}

/// Gathers decoded octets into frames.
#[derive(Clone, Debug, Default)]
pub struct FrameCollector {
    frame: Vec<u8>,
}

impl FrameCollector {
    /// The octets of the frame being gathered.
    pub closed spec fn pending(&self) -> Seq<u8> {
        self.frame@
    }

    /// A collector with nothing gathered.
    pub fn new() -> (r: FrameCollector)
        ensures
            r.pending() == Seq::<u8>::empty(),
    {
        FrameCollector { frame: Vec::new() }
    }

    /// Drops what was gathered.
    pub fn reset(&mut self)
        ensures
            final(self).pending() == Seq::<u8>::empty(),
    {
        self.frame = Vec::new();
    }

    /// Delay in signals: none.
    pub fn delay(&self) -> (r: usize)
        ensures
            r == 0,
    {
        0
    }

    /// Takes one decoder output: an octet is gathered, a marker after
    /// octets hands the frame out, an error drops what was gathered.
    pub fn filter(&mut self, sample: Option<FrameSignal>) -> (r: Option<Vec<u8>>)
        ensures
            sample matches Some(sig) ==> (final(self).pending(), match r {
                Some(v) => Some(v@),
                None => None::<Seq<u8>>,
            }) == collect_step(old(self).pending(), sig),
            match sample {
                Some(FrameSignal::Octet(x)) => r is None && final(self).pending() == old(self).pending().push(x),
                Some(FrameSignal::FrameMarker) => if old(self).pending().len() > 0 {
                    (r matches Some(v) && v@ == old(self).pending()) && final(self).pending()
                        == Seq::<u8>::empty()
                } else {
                    r is None && final(self).pending() == old(self).pending()
                },
                Some(FrameSignal::DecodeError) => r is None && final(self).pending() == Seq::<u8>::empty(),
                None => r is None && final(self).pending() == old(self).pending(),
            },
    {
        match sample {
            Some(FrameSignal::Octet(x)) => {
                self.frame.push(x);
                None
            },
            Some(FrameSignal::FrameMarker) => {
                if self.frame.len() > 0 {
                    let x = self.frame.clone();
                    self.frame = Vec::new();
                    Some(x)
                } else {
                    None
                }
            },
            Some(FrameSignal::DecodeError) => {
                self.reset();
                None
            },
            None => None,
        }
    }
}

/// Recovers the bit clock: samples the input once per bit period,
/// resynchronising to mid-bit on every transition.
#[derive(Clone, Debug, Default)]
pub struct BitSampler {
    pub sample_rate: u32,
    pub bit_rate: u32,
    pub accumulator: u32,
    pub last_bit: bool,
}

/// The sampler's state and output after one sliced sample: on a change of
/// level the clock is set to mid-bit; otherwise a bit is given when the
/// accumulator is below one bit period.
pub open spec fn bit_sampler_step(s: BitSampler, sample: Option<bool>) -> (BitSampler, Option<bool>) {
    match sample {
        None => (BitSampler { accumulator: 0, last_bit: false, ..s }, None),
        Some(b) => if b != s.last_bit {
            (BitSampler { accumulator: s.sample_rate / 2, last_bit: b, ..s }, None)
        } else if s.accumulator < s.bit_rate {
            (
                BitSampler { accumulator: (s.accumulator + s.sample_rate - s.bit_rate) as u32, ..s },
                Some(b),
            )
        } else {
            (BitSampler { accumulator: (s.accumulator - s.bit_rate) as u32, ..s }, None)
        },
    }
}

impl BitSampler {
    /// Rates in order and the accumulator within a sample period.
    pub open spec fn wf(&self) -> bool {
        self.bit_rate <= self.sample_rate && self.accumulator <= self.sample_rate
    }

    /// A sampler for a bit rate no higher than the sample rate.
    pub fn new(sample_rate: u32, bit_rate: u32) -> (r: BitSampler)
        requires
            bit_rate <= sample_rate,
        ensures
            r.wf(),
            r == (BitSampler { sample_rate, bit_rate, accumulator: 0, last_bit: false }),
    {
        BitSampler { sample_rate, bit_rate, accumulator: 0, last_bit: false }
    }

    /// Delay in samples: none.
    pub fn delay(&self) -> (r: usize)
        ensures
            r == 0,
    {
        0
    }

    /// Forgets the clock phase and the last bit.
    pub fn reset(&mut self)
        ensures
            *final(self) == (BitSampler { accumulator: 0, last_bit: false, ..*old(self) }),
    {
        self.accumulator = 0;
        self.last_bit = false;
    }

    /// Takes one sliced sample; gives a bit at each sampling instant.
    pub fn filter(&mut self, sample: Option<bool>) -> (r: Option<bool>)
        requires
            old(self).wf(),
        ensures
            final(self).wf(),
            (*final(self), r) == bit_sampler_step(*old(self), sample),
    {
        match sample {
            Some(b) => {
                if self.last_bit == b {
                    if self.accumulator < self.bit_rate {
                        self.accumulator = self.accumulator + (self.sample_rate - self.bit_rate);
                        Some(b)
                    } else {
                        self.accumulator = self.accumulator - self.bit_rate;
                        None
                    }
                } else {
                    self.accumulator = self.sample_rate / 2;
                    self.last_bit = b;
                    None
                }
            },
            None => {
                self.reset();
                None
            },
        }
    }
}


// ---- the decoder undoes the encoder ----

/// The decoder's state after a run of bits, and the signals it gave, in order.
pub open spec fn hdlc_run(s: HdlcDecode, bits: Seq<bool>) -> (HdlcDecode, Seq<FrameSignal>)
    decreases bits.len(),
{
    if bits.len() == 0 {
        (s, seq![])
    } else {
        let (t, o) = hdlc_step(s, bits[0]);
        let (u, rest) = hdlc_run(t, bits.drop_first());
        (
            u,
            match o {
                Some(x) => seq![x] + rest,
                None => rest,
            },
        )
    }
}

/// The decoder right after a marker: inside a frame, nothing gathered.
pub open spec fn decoder_framing() -> HdlcDecode {
    HdlcDecode { is_running: true, ..decoder_reset() }
}

/// The octets of a byte sequence as decoder signals.
pub open spec fn octet_signals(b: Seq<u8>) -> Seq<FrameSignal> {
    Seq::new(b.len(), |i: int| FrameSignal::Octet(b[i]))
}

/// `n` marker signals.
pub open spec fn marker_signals(n: nat) -> Seq<FrameSignal> {
    Seq::new(n, |i: int| FrameSignal::FrameMarker)
}

/// The run of ones the encoder counts after `bits`, once any zero owed
/// after five ones is sent.
pub open spec fn ones_after(bits: Seq<bool>, ones: int) -> int
    decreases 2 * bits.len() + if ones >= 5 {
        1int
    } else {
        0int
    },
{
    if ones >= 5 {
        ones_after(bits, 0)
    } else if bits.len() == 0 {
        ones
    } else {
        ones_after(
            bits.drop_first(),
            if bits[0] {
                ones + 1
            } else {
                0
            },
        )
    }
}

/// The shift register after taking `bits`, each into the top bit.
pub open spec fn shift_in(acc: u8, bits: Seq<bool>) -> u8
    decreases bits.len(),
{
    if bits.len() == 0 {
        acc
    } else {
        shift_in(
            (acc / 2 + if bits[0] {
                128int
            } else {
                0int
            }) as u8,
            bits.drop_first(),
        )
    }
}

/// The eight bits of a byte, least significant first.
pub open spec fn byte_bits(x: u8) -> Seq<bool> {
    Seq::new(8, |k: int| byte_bit(x, k))
}

/// Running the decoder over two runs of bits is running it over each in turn.
proof fn lemma_run_concat(s: HdlcDecode, a: Seq<bool>, c: Seq<bool>)
    ensures
        hdlc_run(s, a + c) == (
            hdlc_run(hdlc_run(s, a).0, c).0,
            hdlc_run(s, a).1 + hdlc_run(hdlc_run(s, a).0, c).1,
        ),
    decreases a.len(),
{
    if a.len() == 0 {
        assert(a + c =~= c);
        assert(hdlc_run(s, a).1 + hdlc_run(s, c).1 =~= hdlc_run(s, c).1);
    } else {
        let (t, o) = hdlc_step(s, a[0]);
        assert((a + c).drop_first() =~= a.drop_first() + c);
        lemma_run_concat(t, a.drop_first(), c);
        let r1 = hdlc_run(t, a.drop_first());
        let r2 = hdlc_run(r1.0, c);
        match o {
            Some(x) => {
                assert(seq![x] + (r1.1 + r2.1) =~= (seq![x] + r1.1) + r2.1);
            },
            None => {},
        }
    }
}

/// Stuffing two runs of bits is stuffing each in turn.
proof fn lemma_stuffed_concat(a: Seq<bool>, c: Seq<bool>, ones: int)
    requires
        0 <= ones <= 5,
    ensures
        stuffed(a + c, ones) == stuffed(a, ones) + stuffed(c, ones_after(a, ones)),
        ones_after(a + c, ones) == ones_after(c, ones_after(a, ones)),
        0 <= ones_after(a, ones) < 5,
    decreases 2 * a.len() + if ones >= 5 {
        1int
    } else {
        0int
    },
{
    if ones >= 5 {
        lemma_stuffed_concat(a, c, 0);
        assert(seq![false] + (stuffed(a, 0) + stuffed(c, ones_after(a, 0))) =~= (seq![false]
            + stuffed(a, 0)) + stuffed(c, ones_after(a, 0)));
    } else if a.len() == 0 {
        assert(a + c =~= c);
        assert(stuffed(a, ones) + stuffed(c, ones) =~= stuffed(c, ones));
    } else {
        let next = if a[0] {
            ones + 1
        } else {
            0
        };
        assert((a + c).drop_first() =~= a.drop_first() + c);
        assert((a + c)[0] == a[0]);
        lemma_stuffed_concat(a.drop_first(), c, next);
        assert(seq![a[0]] + (stuffed(a.drop_first(), next) + stuffed(c, ones_after(a, ones)))
            =~= (seq![a[0]] + stuffed(a.drop_first(), next)) + stuffed(c, ones_after(a, ones)));
    }
}


/// Between octets, a flag gives one marker and leaves the decoder framing.
proof fn lemma_flag(s: HdlcDecode)
    requires
        !s.reset_next,
        !s.skip_next_zero,
        s.ones < 5,
        s.bit == 0,
    ensures
        hdlc_run(s, flag_bits()) == (decoder_framing(), seq![FrameSignal::FrameMarker]),
{
    let f = flag_bits();
    let s1 = hdlc_step(s, false).0;
    let s2 = hdlc_step(s1, true).0;
    let s3 = hdlc_step(s2, true).0;
    let s4 = hdlc_step(s3, true).0;
    let s5 = hdlc_step(s4, true).0;
    let s6 = hdlc_step(s5, true).0;
    let s7 = hdlc_step(s6, true).0;
    assert(s1.bit == 1 && s1.ones == 0 && !s1.skip_next_zero && !s1.reset_next);
    assert(s2.bit == 2 && s2.ones == 1 && !s2.skip_next_zero && !s2.reset_next);
    assert(s3.bit == 3 && s3.ones == 2 && !s3.skip_next_zero && !s3.reset_next);
    assert(s4.bit == 4 && s4.ones == 3 && !s4.skip_next_zero && !s4.reset_next);
    assert(s5.bit == 5 && s5.ones == 4 && !s5.skip_next_zero && !s5.reset_next);
    assert(s6.bit == 6 && s6.ones == 0 && s6.skip_next_zero && !s6.reset_next);
    assert(s7.bit == 6 && !s7.skip_next_zero && s7.reset_next);
    assert(hdlc_step(s7, false) == (decoder_framing(), Some(FrameSignal::FrameMarker)));
    let t7 = seq![false];
    let t6 = seq![true, false];
    let t5 = seq![true, true, false];
    let t4 = seq![true, true, true, false];
    let t3 = seq![true, true, true, true, false];
    let t2 = seq![true, true, true, true, true, false];
    let t1 = seq![true, true, true, true, true, true, false];
    assert(t7.drop_first() =~= Seq::<bool>::empty());
    assert(t6.drop_first() =~= t7);
    assert(t5.drop_first() =~= t6);
    assert(t4.drop_first() =~= t5);
    assert(t3.drop_first() =~= t4);
    assert(t2.drop_first() =~= t3);
    assert(t1.drop_first() =~= t2);
    assert(f.drop_first() =~= t1);
    assert(hdlc_run(decoder_framing(), Seq::<bool>::empty()) == (
        decoder_framing(),
        Seq::<FrameSignal>::empty(),
    ));
    assert(hdlc_run(s7, t7).1 =~= seq![FrameSignal::FrameMarker]);
    assert(hdlc_run(s6, t6) == hdlc_run(s7, t7));
    assert(hdlc_run(s5, t5) == hdlc_run(s6, t6));
    assert(hdlc_run(s4, t4) == hdlc_run(s5, t5));
    assert(hdlc_run(s3, t3) == hdlc_run(s4, t4));
    assert(hdlc_run(s2, t2) == hdlc_run(s3, t3));
    assert(hdlc_run(s1, t1) == hdlc_run(s2, t2));
    assert(hdlc_run(s, f) == hdlc_run(s1, t1));
}

/// A run of flags from rest or between octets gives one marker each.
proof fn lemma_flags(s: HdlcDecode, n: nat)
    requires
        !s.reset_next,
        !s.skip_next_zero,
        s.ones < 5,
        s.bit == 0,
        n >= 1,
    ensures
        hdlc_run(s, repeat_flag(n)) == (decoder_framing(), marker_signals(n)),
    decreases n,
{
    if n == 1 {
        assert(repeat_flag(1) =~= flag_bits());
        lemma_flag(s);
        assert(marker_signals(1) =~= seq![FrameSignal::FrameMarker]);
    } else {
        lemma_flags(s, (n - 1) as nat);
        lemma_run_concat(s, repeat_flag((n - 1) as nat), flag_bits());
        lemma_flag(decoder_framing());
        assert(marker_signals((n - 1) as nat) + seq![FrameSignal::FrameMarker] =~= marker_signals(
            n,
        ));
    }
}


/// The decoder inside a frame, in step with an encoder that has just sent
/// `ones` ones in a row (five meaning a stuffed zero is owed).
pub open spec fn body_state(d: HdlcDecode, ones: int) -> bool {
    &&& d.is_running
    &&& !d.reset_next
    &&& d.ones < 5
    &&& d.bit < 8
    &&& if ones >= 5 {
        d.skip_next_zero && d.ones == 0
    } else {
        !d.skip_next_zero && d.ones == ones
    }
}

/// Up to the end of an octet, the decoder takes the stuffed bits back,
/// shifting the data bits in and giving the octet when it is complete.
proof fn lemma_body_bits(d: HdlcDecode, a: Seq<bool>, ones: int)
    requires
        0 <= ones <= 5,
        body_state(d, ones),
        d.bit + a.len() <= 8,
    ensures
        ({
            let (d2, out) = hdlc_run(d, stuffed(a, ones));
            &&& body_state(d2, ones_after(a, ones))
            &&& d2.bit == (d.bit + a.len()) % 8
            &&& d2.accum == shift_in(d.accum, a)
            &&& d2.empty_bits == d.empty_bits
            &&& out == if d.bit + a.len() == 8 {
                seq![FrameSignal::Octet(d2.accum)]
            } else {
                Seq::<FrameSignal>::empty()
            }
        }),
    decreases 2 * a.len() + if ones >= 5 {
        1int
    } else {
        0int
    },
{
    if ones >= 5 {
        let d1 = hdlc_step(d, false).0;
        assert(hdlc_step(d, false).1 is None);
        assert(body_state(d1, 0));
        lemma_body_bits(d1, a, 0);
        assert((seq![false] + stuffed(a, 0)).drop_first() =~= stuffed(a, 0));
    } else if a.len() == 0 {
    } else {
        let x = a[0];
        let next = if x {
            ones + 1
        } else {
            0
        };
        let (d1, o) = hdlc_step(d, x);
        assert(body_state(d1, next));
        lemma_body_bits(d1, a.drop_first(), next);
        assert((seq![x] + stuffed(a.drop_first(), next)).drop_first() =~= stuffed(
            a.drop_first(),
            next,
        ));
        let (d2, rest) = hdlc_run(d1, stuffed(a.drop_first(), next));
        if d.bit + 1 == 8 {
            assert(a.drop_first().len() == 0);
            assert(o == Some(FrameSignal::Octet(d1.accum)));
            assert(seq![FrameSignal::Octet(d1.accum)] + rest =~= seq![FrameSignal::Octet(d2.accum)]);
        } else {
            assert(o is None);
        }
    }
}

/// One step of the shift register, in bit operations.
proof fn lemma_shift_step(acc: u8, b: bool)
    ensures
        (acc / 2 + if b {
            128int
        } else {
            0int
        }) as u8 == (acc >> 1u8) | if b {
            128u8
        } else {
            0u8
        },
{
    if b {
        assert((acc / 2 + 128) as u8 == (acc >> 1u8) | 128u8) by (bit_vector);
    } else {
        assert((acc / 2) as u8 == (acc >> 1u8) | 0u8) by (bit_vector);
    }
}

/// Shifting in the eight bits of a byte, least significant first, leaves
/// the byte in the register whatever it held before.
proof fn lemma_shift_in_byte(acc: u8, x: u8)
    ensures
        shift_in(acc, byte_bits(x)) == x,
{
    let bb = byte_bits(x);
    let b0 = (x & 1u8) == 1u8;
    let b1 = ((x >> 1u8) & 1u8) == 1u8;
    let b2 = ((x >> 2u8) & 1u8) == 1u8;
    let b3 = ((x >> 3u8) & 1u8) == 1u8;
    let b4 = ((x >> 4u8) & 1u8) == 1u8;
    let b5 = ((x >> 5u8) & 1u8) == 1u8;
    let b6 = ((x >> 6u8) & 1u8) == 1u8;
    let b7 = ((x >> 7u8) & 1u8) == 1u8;
    assert(bb[0] == b0 && bb[1] == b1 && bb[2] == b2 && bb[3] == b3) by {
        assert((x as int % 2 == 1) == ((x & 1u8) == 1u8)) by (bit_vector);
        assert((x as int / 2 % 2 == 1) == (((x >> 1u8) & 1u8) == 1u8)) by (bit_vector);
        assert((x as int / 4 % 2 == 1) == (((x >> 2u8) & 1u8) == 1u8)) by (bit_vector);
        assert((x as int / 8 % 2 == 1) == (((x >> 3u8) & 1u8) == 1u8)) by (bit_vector);
    }
    assert(bb[4] == b4 && bb[5] == b5 && bb[6] == b6 && bb[7] == b7) by {
        assert((x as int / 16 % 2 == 1) == (((x >> 4u8) & 1u8) == 1u8)) by (bit_vector);
        assert((x as int / 32 % 2 == 1) == (((x >> 5u8) & 1u8) == 1u8)) by (bit_vector);
        assert((x as int / 64 % 2 == 1) == (((x >> 6u8) & 1u8) == 1u8)) by (bit_vector);
        assert((x as int / 128 % 2 == 1) == (((x >> 7u8) & 1u8) == 1u8)) by (bit_vector);
    }
    let m0 = if b0 { 128u8 } else { 0u8 };
    let m1 = if b1 { 128u8 } else { 0u8 };
    let m2 = if b2 { 128u8 } else { 0u8 };
    let m3 = if b3 { 128u8 } else { 0u8 };
    let m4 = if b4 { 128u8 } else { 0u8 };
    let m5 = if b5 { 128u8 } else { 0u8 };
    let m6 = if b6 { 128u8 } else { 0u8 };
    let m7 = if b7 { 128u8 } else { 0u8 };
    assert(m0 == (x & 1u8) << 7u8 && m1 == ((x >> 1u8) & 1u8) << 7u8 && m2 == ((x >> 2u8) & 1u8)
        << 7u8 && m3 == ((x >> 3u8) & 1u8) << 7u8) by (bit_vector)
        requires
            m0 == if (x & 1u8) == 1u8 { 128u8 } else { 0u8 },
            m1 == if ((x >> 1u8) & 1u8) == 1u8 { 128u8 } else { 0u8 },
            m2 == if ((x >> 2u8) & 1u8) == 1u8 { 128u8 } else { 0u8 },
            m3 == if ((x >> 3u8) & 1u8) == 1u8 { 128u8 } else { 0u8 },
    ;
    assert(m4 == ((x >> 4u8) & 1u8) << 7u8 && m5 == ((x >> 5u8) & 1u8) << 7u8 && m6 == ((x >> 6u8)
        & 1u8) << 7u8 && m7 == ((x >> 7u8) & 1u8) << 7u8) by (bit_vector)
        requires
            m4 == if ((x >> 4u8) & 1u8) == 1u8 { 128u8 } else { 0u8 },
            m5 == if ((x >> 5u8) & 1u8) == 1u8 { 128u8 } else { 0u8 },
            m6 == if ((x >> 6u8) & 1u8) == 1u8 { 128u8 } else { 0u8 },
            m7 == if ((x >> 7u8) & 1u8) == 1u8 { 128u8 } else { 0u8 },
    ;
    let a1 = (acc >> 1u8) | m0;
    let a2 = (a1 >> 1u8) | m1;
    let a3 = (a2 >> 1u8) | m2;
    let a4 = (a3 >> 1u8) | m3;
    let a5 = (a4 >> 1u8) | m4;
    let a6 = (a5 >> 1u8) | m5;
    let a7 = (a6 >> 1u8) | m6;
    let a8 = (a7 >> 1u8) | m7;
    assert(a8 == x) by (bit_vector)
        requires
            m0 == (x & 1u8) << 7u8,
            m1 == ((x >> 1u8) & 1u8) << 7u8,
            m2 == ((x >> 2u8) & 1u8) << 7u8,
            m3 == ((x >> 3u8) & 1u8) << 7u8,
            m4 == ((x >> 4u8) & 1u8) << 7u8,
            m5 == ((x >> 5u8) & 1u8) << 7u8,
            m6 == ((x >> 6u8) & 1u8) << 7u8,
            m7 == ((x >> 7u8) & 1u8) << 7u8,
            a1 == (acc >> 1u8) | m0,
            a2 == (a1 >> 1u8) | m1,
            a3 == (a2 >> 1u8) | m2,
            a4 == (a3 >> 1u8) | m3,
            a5 == (a4 >> 1u8) | m4,
            a6 == (a5 >> 1u8) | m5,
            a7 == (a6 >> 1u8) | m6,
            a8 == (a7 >> 1u8) | m7,
    ;
    lemma_shift_step(acc, b0);
    lemma_shift_step(a1, b1);
    lemma_shift_step(a2, b2);
    lemma_shift_step(a3, b3);
    lemma_shift_step(a4, b4);
    lemma_shift_step(a5, b5);
    lemma_shift_step(a6, b6);
    lemma_shift_step(a7, b7);
    let t1 = bb.drop_first();
    let t2 = t1.drop_first();
    let t3 = t2.drop_first();
    let t4 = t3.drop_first();
    let t5 = t4.drop_first();
    let t6 = t5.drop_first();
    let t7 = t6.drop_first();
    let t8 = t7.drop_first();
    assert(t8.len() == 0);
    assert(shift_in(a8, t8) == a8);
    assert(shift_in(a7, t7) == shift_in(a8, t8));
    assert(shift_in(a6, t6) == shift_in(a7, t7));
    assert(shift_in(a5, t5) == shift_in(a6, t6));
    assert(shift_in(a4, t4) == shift_in(a5, t5));
    assert(shift_in(a3, t3) == shift_in(a4, t4));
    assert(shift_in(a2, t2) == shift_in(a3, t3));
    assert(shift_in(a1, t1) == shift_in(a2, t2));
    assert(shift_in(acc, bb) == shift_in(a1, t1));
}


/// The bits of a byte stream are those of its first byte, then the rest.
proof fn lemma_lsb_bits_first(b: Seq<u8>)
    requires
        b.len() > 0,
    ensures
        lsb_bits(b) == byte_bits(b[0]) + lsb_bits(b.drop_first()),
{
    let r = byte_bits(b[0]) + lsb_bits(b.drop_first());
    assert forall|i: int| 0 <= i < lsb_bits(b).len() implies lsb_bits(b)[i] == r[i] by {
        if i >= 8 {
            assert((i - 8) / 8 == i / 8 - 1 && (i - 8) % 8 == i % 8) by (nonlinear_arith)
                requires
                    i >= 8,
            ;
        } else {
            assert(i / 8 == 0 && i % 8 == i);
        }
    }
    assert(lsb_bits(b) =~= r);
}

/// Inside a frame, the stuffed bits of whole bytes give one octet signal each.
proof fn lemma_body_bytes(d: HdlcDecode, b: Seq<u8>, ones: int)
    requires
        0 <= ones < 5,
        body_state(d, ones),
        d.bit == 0,
    ensures
        ({
            let (d2, out) = hdlc_run(d, stuffed(lsb_bits(b), ones));
            &&& body_state(d2, ones_after(lsb_bits(b), ones))
            &&& d2.bit == 0
            &&& out == octet_signals(b)
        }),
        0 <= ones_after(lsb_bits(b), ones) < 5,
    decreases b.len(),
{
    if b.len() == 0 {
        assert(lsb_bits(b) =~= Seq::<bool>::empty());
        assert(octet_signals(b) =~= Seq::<FrameSignal>::empty());
    } else {
        let x = b[0];
        let rest = b.drop_first();
        lemma_lsb_bits_first(b);
        lemma_stuffed_concat(byte_bits(x), lsb_bits(rest), ones);
        lemma_run_concat(d, stuffed(byte_bits(x), ones), stuffed(
            lsb_bits(rest),
            ones_after(byte_bits(x), ones),
        ));
        lemma_body_bits(d, byte_bits(x), ones);
        let (d1, o1) = hdlc_run(d, stuffed(byte_bits(x), ones));
        lemma_shift_in_byte(d.accum, x);
        let mid = ones_after(byte_bits(x), ones);
        lemma_body_bytes(d1, rest, mid);
        assert(seq![FrameSignal::Octet(x)] + octet_signals(rest) =~= octet_signals(b));
    }
}

/// Decoding what the encoder sends for a byte stream gives one marker per
/// opening flag, the bytes as octets, and one marker per closing flag.
pub proof fn lemma_hdlc_round_trip(b: Seq<u8>)
    ensures
        hdlc_run(decoder_reset(), hdlc_encoded(lsb_bits(b))).1 == marker_signals(15)
            + octet_signals(b) + marker_signals(2),
{
    let bits = lsb_bits(b);
    let pre = repeat_flag(15);
    let body = stuffed(bits, 0);
    let f = flag_bits();
    assert(hdlc_encoded(bits) == pre + body + f + f);
    lemma_run_concat(decoder_reset(), pre + body + f, f);
    lemma_run_concat(decoder_reset(), pre + body, f);
    lemma_run_concat(decoder_reset(), pre, body);
    lemma_flags(decoder_reset(), 15);
    assert(body_state(decoder_framing(), 0));
    lemma_body_bytes(decoder_framing(), b, 0);
    let d2 = hdlc_run(decoder_framing(), body).0;
    lemma_flag(d2);
    lemma_flag(decoder_framing());
    assert(marker_signals(15) + octet_signals(b) + seq![FrameSignal::FrameMarker]
        + seq![FrameSignal::FrameMarker] =~= marker_signals(15) + octet_signals(b)
        + marker_signals(2));
}


/// The collector's pending octets after one signal, and the frame it hands
/// out, if any.
pub open spec fn collect_step(pending: Seq<u8>, sig: FrameSignal) -> (Seq<u8>, Option<Seq<u8>>) {
    match sig {
        FrameSignal::Octet(x) => (pending.push(x), None),
        FrameSignal::FrameMarker => if pending.len() > 0 {
            (Seq::empty(), Some(pending))
        } else {
            (pending, None)
        },
        FrameSignal::DecodeError => (Seq::empty(), None),
    }
}

/// The collector's pending octets after a run of signals, and the frames
/// it handed out, in order.
pub open spec fn collect_run(pending: Seq<u8>, sigs: Seq<FrameSignal>) -> (Seq<u8>, Seq<Seq<u8>>)
    decreases sigs.len(),
{
    if sigs.len() == 0 {
        (pending, seq![])
    } else {
        let (p, o) = collect_step(pending, sigs[0]);
        let (q, rest) = collect_run(p, sigs.drop_first());
        (
            q,
            match o {
                Some(f) => seq![f] + rest,
                None => rest,
            },
        )
    }
}

/// Markers with nothing pending hand nothing out.
proof fn lemma_collect_markers(n: nat, rest: Seq<FrameSignal>)
    ensures
        collect_run(Seq::empty(), marker_signals(n) + rest) == collect_run(Seq::empty(), rest),
    decreases n,
{
    if n > 0 {
        let m = marker_signals(n) + rest;
        assert(m[0] == FrameSignal::FrameMarker);
        assert(m.drop_first() =~= marker_signals((n - 1) as nat) + rest);
        lemma_collect_markers((n - 1) as nat, rest);
    } else {
        assert(marker_signals(n) + rest =~= rest);
    }
}

/// Octets are gathered behind what is pending.
proof fn lemma_collect_octets(pending: Seq<u8>, b: Seq<u8>, rest: Seq<FrameSignal>)
    ensures
        collect_run(pending, octet_signals(b) + rest) == collect_run(pending + b, rest),
    decreases b.len(),
{
    if b.len() == 0 {
        assert(octet_signals(b) + rest =~= rest);
        assert(pending + b =~= pending);
    } else {
        let m = octet_signals(b) + rest;
        assert(m[0] == FrameSignal::Octet(b[0]));
        assert(m.drop_first() =~= octet_signals(b.drop_first()) + rest);
        lemma_collect_octets(pending.push(b[0]), b.drop_first(), rest);
        assert(pending.push(b[0]) + b.drop_first() =~= pending + b);
    }
}

/// The decoder's signals for an encoded non-empty frame make the collector
/// hand out exactly that frame.
pub proof fn lemma_hdlc_frame_round_trip(b: Seq<u8>)
    requires
        b.len() > 0,
    ensures
        collect_run(Seq::empty(), hdlc_run(decoder_reset(), hdlc_encoded(lsb_bits(b))).1).1
            == seq![b],
{
    lemma_hdlc_round_trip(b);
    let tail = marker_signals(2);
    let sigs = marker_signals(15) + octet_signals(b) + tail;
    assert(sigs =~= marker_signals(15) + (octet_signals(b) + tail));
    lemma_collect_markers(15, octet_signals(b) + tail);
    lemma_collect_octets(Seq::empty(), b, tail);
    assert(Seq::<u8>::empty() + b =~= b);
    let t1 = tail.drop_first();
    assert(tail[0] == FrameSignal::FrameMarker && t1[0] == FrameSignal::FrameMarker);
    assert(t1.drop_first().len() == 0);
    assert(collect_run(Seq::<u8>::empty(), t1.drop_first()) == (
        Seq::<u8>::empty(),
        Seq::<Seq<u8>>::empty(),
    ));
    assert(collect_run(Seq::<u8>::empty(), t1) == (Seq::<u8>::empty(), Seq::<Seq<u8>>::empty()));
    assert(collect_run(b, tail).1 =~= seq![b]);
}

} // verus!
