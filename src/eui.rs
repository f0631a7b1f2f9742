//! EUI-48 and EUI-64 hardware addresses.
use vstd::prelude::*;

verus! {

/// An EUI-48 MAC address.
#[derive(Clone, Copy, Debug, PartialEq, Eq, Hash, Default)]
pub struct Eui48(pub [u8; 6]);

/// An EUI-64 MAC address.
#[derive(Clone, Copy, Debug, PartialEq, Eq, Hash)]
pub struct Eui64(pub [u8; 8]);

/// Lower-case hexadecimal digit of a value below 16.
pub open spec fn hex_lower(d: int) -> char {
    if d < 10 {
        (48 + d) as char
    } else {
        (87 + d) as char
    }
}

/// Two lower-case hexadecimal digits of a byte.
pub open spec fn byte_hex(b: u8) -> Seq<char> {
    seq![hex_lower((b / 16) as int), hex_lower((b % 16) as int)]
}

/// Bytes written as lower-case hex pairs separated by `:`.
pub open spec fn colon_hex(b: Seq<u8>) -> Seq<char>
    decreases b.len(),
{
    if b.len() <= 1 {
        if b.len() == 0 {
            seq![]
        } else {
            byte_hex(b[0])
        }
    } else {
        colon_hex(b.drop_last()) + seq![':'] + byte_hex(b.last())
    }
}

/// Pushes the two lower-case hex digits of `b`.
fn push_byte_hex(out: &mut Vec<char>, b: u8)
    ensures
        final(out)@ == old(out)@ + byte_hex(b),
{
    let hi = b / 16;
    let lo = b % 16;
    let c_hi = if hi < 10 { (48 + hi) as char } else { (87 + hi) as char };
    let c_lo = if lo < 10 { (48 + lo) as char } else { (87 + lo) as char };
    out.push(c_hi);
    out.push(c_lo);
    assert(final(out)@ =~= old(out)@ + byte_hex(b));
}

/// Writes bytes as lower-case hex pairs separated by `:`.
pub fn colon_hex_chars(b: &[u8]) -> (r: Vec<char>)
    ensures
        r@ == colon_hex(b@),
{
    let mut out: Vec<char> = Vec::new();
    let mut i: usize = 0;
    while i < b.len()
        invariant
            i <= b@.len(),
            out@ == colon_hex(b@.subrange(0, i as int)),
        decreases b@.len() - i,
    {
        if i > 0 {
            out.push(':');
        }
        push_byte_hex(&mut out, b[i]);
        proof {
            let s = b@.subrange(0, i as int + 1);
            assert(s.drop_last() =~= b@.subrange(0, i as int));
            if i == 0 {
                assert(out@ =~= colon_hex(s));
            } else {
                assert(out@ =~= colon_hex(s));
            }
        }
        i += 1;
    }
    assert(b@.subrange(0, b@.len() as int) =~= b@);
    out
}

impl Eui48 {
    /// Creates an EUI-48 from six octets.
    pub fn new(addr: [u8; 6]) -> (r: Eui48)
        ensures
            r.0 == addr,
    {
        Eui48(addr)
    }

    /// The all-zero address.
    pub fn empty() -> (r: Eui48)
        ensures
            r.0@ == seq![0u8; 6],
    {
        let r = Eui48([0u8; 6]);
        assert(r.0@ =~= seq![0u8; 6]);
        r
    }

    /// The broadcast address, all octets 0xFF.
    pub fn broadcast() -> (r: Eui48)
        ensures
            r.0@ == seq![0xFFu8; 6],
    {
        let r = Eui48([0xFFu8; 6]);
        assert(r.0@ =~= seq![0xFFu8; 6]);
        r
    }

    /// The usual text form, `01:02:03:04:05:06`.
    pub fn to_string(&self) -> (r: String)
        ensures
            r@ == colon_hex(self.0@),
    {
        crate::text::string_from_chars(&colon_hex_chars(&self.0))
    }
}

impl Eui64 {
    /// Creates an EUI-64 from eight octets.
    pub fn new(addr: [u8; 8]) -> (r: Eui64)
        ensures
            r.0 == addr,
    {
        Eui64(addr)
    }

    /// The all-zero address.
    pub fn empty() -> (r: Eui64)
        ensures
            r.0@ == seq![0u8; 8],
    {
        let r = Eui64([0u8; 8]);
        assert(r.0@ =~= seq![0u8; 8]);
        r
    }

    /// The broadcast address, all octets 0xFF.
    pub fn broadcast() -> (r: Eui64)
        ensures
            r.0@ == seq![0xFFu8; 8],
    {
        let r = Eui64([0xFFu8; 8]);
        assert(r.0@ =~= seq![0xFFu8; 8]);
        r
    }

    /// The EUI-48 that this address was expanded from, if octets 3 and 4
    /// are the `FF:FE` filler.
    pub fn try_to_eui48(self) -> (r: Option<Eui48>)
        ensures
            (self.0[3] == 0xFF && self.0[4] == 0xFE) ==> r == Some(Eui48(
                [self.0[0], self.0[1], self.0[2], self.0[5], self.0[6], self.0[7]],
            )),
            !(self.0[3] == 0xFF && self.0[4] == 0xFE) ==> r is None,
    {
        if self.0[3] == 0xFF && self.0[4] == 0xFE {
            Some(Eui48([self.0[0], self.0[1], self.0[2], self.0[5], self.0[6], self.0[7]]))
        } else {
            None
        }
    }

    /// Expands an EUI-48 by placing `FF:FE` between its third and fourth octets.
    pub fn from_eui48(eui48: &Eui48) -> (r: Eui64)
        ensures
            r.0@ == eui48.0@.subrange(0, 3) + seq![0xFFu8, 0xFE] + eui48.0@.subrange(3, 6),
    {
        let b = eui48.0;
        let r = Eui64([b[0], b[1], b[2], 0xFF, 0xFE, b[3], b[4], b[5]]);
        assert(r.0@ =~= eui48.0@.subrange(0, 3) + seq![0xFFu8, 0xFE] + eui48.0@.subrange(3, 6));
        r
    }

    /// The usual text form, `01:02:03:04:05:06:07:08`.
    pub fn to_string(&self) -> (r: String)
        ensures
            r@ == colon_hex(self.0@),
    {
        crate::text::string_from_chars(&colon_hex_chars(&self.0))
    }
}

} // verus!
