//! Splitting bytes into bits, least or most significant first.
use vstd::prelude::*;

verus! {

/// Bit `k` (0 is the least significant) of a byte.
pub open spec fn byte_bit(b: u8, k: int) -> bool {
    (b as int / pow2(k)) % 2 == 1
}

/// Two to the power `k`, for `k` from 0 to 7.
pub open spec fn pow2(k: int) -> int {
    if k <= 0 {
        1
    } else if k == 1 {
        2
    } else if k == 2 {
        4
    } else if k == 3 {
        8
    } else if k == 4 {
        16
    } else if k == 5 {
        32
    } else if k == 6 {
        64
    } else {
        128
    }
}

/// Bit `i` of a byte stream sent least significant bit first.
pub open spec fn lsb_bit(bytes: Seq<u8>, i: int) -> bool {
    byte_bit(bytes[i / 8], i % 8)
}

/// Bit `i` of a byte stream sent most significant bit first.
pub open spec fn msb_bit(bytes: Seq<u8>, i: int) -> bool {
    byte_bit(bytes[i / 8], 7 - i % 8)
}

/// The bits of a byte stream, least significant bit of each byte first.
pub open spec fn lsb_bits(bytes: Seq<u8>) -> Seq<bool> {
    Seq::new((bytes.len() * 8) as nat, |i: int| lsb_bit(bytes, i))
}

/// Bit `k` of `b`.
fn get_bit(b: u8, k: u8) -> (r: bool)
    requires
        k < 8,
    ensures
        r == byte_bit(b, k as int),
{
    let p: u8 = if k == 0 {
        1
    } else if k == 1 {
        2
    } else if k == 2 {
        4
    } else if k == 3 {
        8
    } else if k == 4 {
        16
    } else if k == 5 {
        32
    } else if k == 6 {
        64
    } else {
        128
    };
    (b / p) % 2 == 1
}

/// The bits of a byte stream, least significant bit of each byte first,
/// handed out one at a time.
pub struct LsbIterator {
    bytes: Vec<u8>,
    idx: usize,
    bit: u8,
}

/// The bits of a byte stream, most significant bit of each byte first,
/// handed out one at a time.
pub struct MsbIterator {
    bytes: Vec<u8>,
    idx: usize,
    bit: u8,
}

impl LsbIterator {
    #[verifier::type_invariant]
    spec fn inv(&self) -> bool {
        self.bit < 8
    }

    /// The bytes whose bits are handed out.
    pub closed spec fn bytes(&self) -> Seq<u8> {
        self.bytes@
    }

    /// How many bits were handed out.
    pub closed spec fn position(&self) -> int {
        self.idx * 8 + self.bit
    }

    /// Starts at the first bit of `bytes`.
    pub fn new(bytes: Vec<u8>) -> (r: LsbIterator)
        ensures
            r.bytes() == bytes@,
            r.position() == 0,
    {
        LsbIterator { bytes, idx: 0, bit: 0 }
    }

    /// The next bit, or `None` after the last one.
    pub fn next(&mut self) -> (r: Option<bool>)
        ensures
            final(self).bytes() == old(self).bytes(),
            old(self).position() < old(self).bytes().len() * 8 ==> r == Some(
                lsb_bit(old(self).bytes(), old(self).position()),
            ) && final(self).position() == old(self).position() + 1,
            old(self).position() >= old(self).bytes().len() * 8 ==> r is None && final(self).position()
                == old(self).position(),
    {
        proof {
            use_type_invariant(&*self);
        }
        let n = self.bytes.len();
        if self.idx >= n {
            return None;
        }
        let b = self.bytes[self.idx];
        let r = get_bit(b, self.bit);
        if self.bit == 7 {
            self.bit = 0;
            self.idx = self.idx + 1;
        } else {
            self.bit = self.bit + 1;
        }
        Some(r)
    }
}

impl MsbIterator {
    #[verifier::type_invariant]
    spec fn inv(&self) -> bool {
        self.bit < 8
    }

    /// The bytes whose bits are handed out.
    pub closed spec fn bytes(&self) -> Seq<u8> {
        self.bytes@
    }

    /// How many bits were handed out.
    pub closed spec fn position(&self) -> int {
        self.idx * 8 + self.bit
    }

    /// Starts at the first bit of `bytes`.
    pub fn new(bytes: Vec<u8>) -> (r: MsbIterator)
        ensures
            r.bytes() == bytes@,
            r.position() == 0,
    {
        MsbIterator { bytes, idx: 0, bit: 0 }
    }

    /// The next bit, or `None` after the last one.
    pub fn next(&mut self) -> (r: Option<bool>)
        ensures
            final(self).bytes() == old(self).bytes(),
            old(self).position() < old(self).bytes().len() * 8 ==> r == Some(
                msb_bit(old(self).bytes(), old(self).position()),
            ) && final(self).position() == old(self).position() + 1,
            old(self).position() >= old(self).bytes().len() * 8 ==> r is None && final(self).position()
                == old(self).position(),
    {
        proof {
            use_type_invariant(&*self);
        }
        let n = self.bytes.len();
        if self.idx >= n {
            return None;
        }
        let b = self.bytes[self.idx];
        let r = get_bit(b, 7 - self.bit);
        if self.bit == 7 {
            self.bit = 0;
            self.idx = self.idx + 1;
        } else {
            self.bit = self.bit + 1;
        }
        Some(r)
    }
}

/// The bits of `bytes`, least significant bit of each byte first.
pub fn bits_lsb(bytes: &[u8]) -> (r: Vec<bool>)
    ensures
        r@ == lsb_bits(bytes@),
{
    let mut out: Vec<bool> = Vec::new();
    let mut i: usize = 0;
    while i < bytes.len()
        invariant
            i <= bytes@.len(),
            out@.len() == i * 8,
            forall|j: int| 0 <= j < i * 8 ==> #[trigger] out@[j] == lsb_bit(bytes@, j),
        decreases bytes@.len() - i,
    {
        let b = bytes[i];
        let mut k: u8 = 0;
        while k < 8
            invariant
                i < bytes@.len(),
                b == bytes@[i as int],
                k <= 8,
                out@.len() == i * 8 + k,
                forall|j: int| 0 <= j < i * 8 + k ==> #[trigger] out@[j] == lsb_bit(bytes@, j),
            decreases 8 - k,
        {
            out.push(get_bit(b, k));
            proof {
                let j = i * 8 + k;
                assert(j / 8 == i && j % 8 == k) by (nonlinear_arith)
                    requires
                        j == i * 8 + k,
                        k < 8,
                ;
            }
            k += 1;
        }
        i += 1;
    }
    assert(out@ =~= lsb_bits(bytes@));
    out
}

} // verus!
