//! NRZI line coding: a zero bit is a change of level, a one bit none.
use vstd::prelude::*;

verus! {

/// The line level after bit `i` of `bits`, starting from level `start`.
pub open spec fn nrzi_level(bits: Seq<bool>, start: bool, i: int) -> bool
    decreases i + 1,
{
    if i < 0 {
        start
    } else {
        let prev = nrzi_level(bits, start, i - 1);
        if bits[i] {
            prev
        } else {
            !prev
        }
    }
}

/// The levels that encode `bits`, starting from level `start`.
pub open spec fn nrzi_encoded(bits: Seq<bool>, start: bool) -> Seq<bool> {
    Seq::new(bits.len(), |i: int| nrzi_level(bits, start, i))
}

/// The bits that a sequence of levels decodes to, the level before the
/// first being `start`: one where the level holds, zero where it changes.
pub open spec fn nrzi_decoded(levels: Seq<bool>, start: bool) -> Seq<bool> {
    Seq::new(
        levels.len(),
        |i: int|
            levels[i] == if i == 0 {
                start
            } else {
                levels[i - 1]
            },
    )
}

/// NRZI encoder: toggles its level on a zero bit.
#[derive(Clone, Debug)]
pub struct NrziEncode {
    pub last: bool,
}

/// NRZI decoder: gives a zero bit where the level changes.
#[derive(Clone, Debug)]
pub struct NrziDecode {
    pub last: bool,
}

impl NrziEncode {
    /// An encoder at level low.
    pub fn new() -> (r: NrziEncode)
        ensures
            !r.last,
    {
        NrziEncode { last: false }
    }

    /// The level for one bit.
    pub fn filter(&mut self, sample: bool) -> (r: bool)
        ensures
            r == if sample {
                old(self).last
            } else {
                !old(self).last
            },
            final(self).last == r,
    {
        if !sample {
            self.last = !self.last;
        }
        self.last
    }

    /// Delay in samples: none.
    pub fn delay(&self) -> (r: usize)
        ensures
            r == 0,
    {
        0
    }

    /// The levels for a run of bits.
    pub fn encode(&mut self, bits: &[bool]) -> (r: Vec<bool>)
        ensures
            r@ == nrzi_encoded(bits@, old(self).last),
            bits@.len() > 0 ==> final(self).last == nrzi_level(bits@, old(self).last, bits@.len() - 1),
            bits@.len() == 0 ==> final(self).last == old(self).last,
    {
        let ghost start = self.last;
        let mut out: Vec<bool> = Vec::new();
        let mut i: usize = 0;
        while i < bits.len()
            invariant
                i <= bits@.len(),
                out@.len() == i,
                forall|j: int| 0 <= j < i ==> #[trigger] out@[j] == nrzi_level(bits@, start, j),
                self.last == nrzi_level(bits@, start, i - 1),
            decreases bits@.len() - i,
        {
            let l = self.filter(bits[i]);
            out.push(l);
            i += 1;
        }
        assert(out@ =~= nrzi_encoded(bits@, start));
        out
    }
}

impl NrziDecode {
    /// A decoder that takes the previous level to be low.
    pub fn new() -> (r: NrziDecode)
        ensures
            !r.last,
    {
        NrziDecode { last: false }
    }

    /// The bit for one level.
    pub fn filter(&mut self, sample: bool) -> (r: bool)
        ensures
            r == (sample == old(self).last),
            final(self).last == sample,
    {
        if sample != self.last {
            self.last = sample;
            false
        } else {
            true
        }
    }

    /// Delay in samples: none.
    pub fn delay(&self) -> (r: usize)
        ensures
            r == 0,
    {
        0
    }

    /// The bits for a run of levels.
    pub fn decode(&mut self, levels: &[bool]) -> (r: Vec<bool>)
        ensures
            r@ == nrzi_decoded(levels@, old(self).last),
    {
        let ghost start = self.last;
        let mut out: Vec<bool> = Vec::new();
        let mut i: usize = 0;
        while i < levels.len()
            invariant
                i <= levels@.len(),
                out@.len() == i,
                forall|j: int| 0 <= j < i ==> #[trigger] out@[j] == nrzi_decoded(levels@, start)[j],
                self.last == if i == 0 {
                    start
                } else {
                    levels@[i - 1]
                },
            decreases levels@.len() - i,
        {
            let b = self.filter(levels[i]);
            out.push(b);
            i += 1;
        }
        assert(out@ =~= nrzi_decoded(levels@, start));
        out
    }
}

/// Decoding the NRZI levels of a bit sequence gives the bits back from the
/// second one on, whatever levels encoder and decoder start from.
pub proof fn lemma_nrzi_round_trip(bits: Seq<bool>, enc_start: bool, dec_start: bool)
    ensures
        nrzi_decoded(nrzi_encoded(bits, enc_start), dec_start).len() == bits.len(),
        forall|i: int|
            1 <= i < bits.len() ==> #[trigger] nrzi_decoded(nrzi_encoded(bits, enc_start), dec_start)[i]
                == bits[i],
{
    assert forall|i: int| 1 <= i < bits.len() implies #[trigger] nrzi_decoded(
        nrzi_encoded(bits, enc_start),
        dec_start,
    )[i] == bits[i] by {
        assert(nrzi_level(bits, enc_start, i) == if bits[i] {
            nrzi_level(bits, enc_start, i - 1)
        } else {
            !nrzi_level(bits, enc_start, i - 1)
        });
    }
}

/// With encoder and decoder starting from the same level, decoding the
/// levels gives back every bit.
pub proof fn lemma_nrzi_round_trip_same_start(bits: Seq<bool>, start: bool)
    ensures
        nrzi_decoded(nrzi_encoded(bits, start), start) == bits,
{
    lemma_nrzi_round_trip(bits, start, start);
    if bits.len() > 0 {
        assert(nrzi_level(bits, start, -1) == start);
        assert(nrzi_level(bits, start, 0) == if bits[0] {
            start
        } else {
            !start
        });
    }
    assert(nrzi_decoded(nrzi_encoded(bits, start), start) =~= bits);
}

} // verus!
