//! Mapping callsign addresses to and from EUI-48 and EUI-64.
use vstd::prelude::*;
use crate::error::AddrError;
use crate::eui::{Eui48, Eui64};
use crate::ham_addr::{addr_type, word, HamAddr, HamAddrType};

verus! {

/// Whether every byte equals `v`.
pub open spec fn all_eq(b: Seq<u8>, v: u8) -> bool {
    forall|i: int| 0 <= i < b.len() ==> b[i] == v
}

/// A callsign that fits six octets: its last chunk is zero and the low three
/// bits of its third chunk are clear.
pub open spec fn is_small(o: Seq<u8>) -> bool {
    word(o, 3) == 0 && o[5] & 7 == 0
}

/// The EUI-64 of an address, or why it has none.
pub open spec fn eui64_of(o: Seq<u8>) -> Result<Seq<u8>, AddrError> {
    match addr_type(o) {
        HamAddrType::Empty => Ok(seq![0u8; 8]),
        HamAddrType::Broadcast => Ok(seq![0xFFu8; 8]),
        HamAddrType::Callsign => {
            if o[7] & 7 != 0 {
                Err(AddrError::Unconvertible)
            } else if is_small(o) {
                Ok(seq![(o[5] & 0xF8) | 2, o[0], o[1], 0xFF, 0xFE, o[2], o[3], o[4]])
            } else {
                Ok(seq![(o[7] & 0xF8) | 2, o[0], o[1], o[2], o[3], o[4], o[5], o[6]])
            }
        },
        _ => Err(AddrError::Unconvertible),
    }
}

/// The EUI-48 of an address, or why it has none.
pub open spec fn eui48_of(o: Seq<u8>) -> Result<Seq<u8>, AddrError> {
    match addr_type(o) {
        HamAddrType::Empty => Ok(seq![0u8; 6]),
        HamAddrType::Broadcast => Ok(seq![0xFFu8; 6]),
        HamAddrType::Callsign => {
            if is_small(o) {
                Ok(seq![(o[5] & 0xF8) | 2, o[0], o[1], o[2], o[3], o[4]])
            } else {
                Err(AddrError::Unconvertible)
            }
        },
        HamAddrType::Ipv4Multicast => Ok(seq![0x01u8, 0x00, 0x5E, o[3], o[2], o[1]]),
        HamAddrType::Ipv6Multicast => Ok(seq![0xCCu8, 0xCC, o[4], o[3], o[2], o[1]]),
        _ => Err(AddrError::Unconvertible),
    }
}

/// Keeps `o` if it is a callsign.
pub open spec fn callsign_or_err(o: Seq<u8>) -> Result<Seq<u8>, AddrError> {
    if addr_type(o) == HamAddrType::Callsign {
        Ok(o)
    } else {
        Err(AddrError::Unconvertible)
    }
}

/// The address of an EUI-64, or why it has none.
pub open spec fn addr_of_eui64(b: Seq<u8>) -> Result<Seq<u8>, AddrError> {
    if all_eq(b, 0) {
        Ok(seq![0u8; 8])
    } else if all_eq(b, 0xFF) {
        Ok(seq![0xFFu8, 0xFF, 0, 0, 0, 0, 0, 0])
    } else if b[0] & 7 == 2 {
        let b0 = b[0] & 0xFD;
        if b[3] == 0xFF && b[4] == 0xFE {
            callsign_or_err(seq![b[1], b[2], b[5], b[6], b[7], b0, 0, 0])
        } else {
            callsign_or_err(seq![b[1], b[2], b[3], b[4], b[5], b[6], b[7], b0])
        }
    } else {
        Err(AddrError::Unconvertible)
    }
}

/// The address of an EUI-48, or why it has none.
pub open spec fn addr_of_eui48(b: Seq<u8>) -> Result<Seq<u8>, AddrError> {
    if all_eq(b, 0) {
        Ok(seq![0u8; 8])
    } else if all_eq(b, 0xFF) {
        Ok(seq![0xFFu8, 0xFF, 0, 0, 0, 0, 0, 0])
    } else if b[0] == 0x01 && b[1] == 0x00 && b[2] == 0x5E {
        Ok(seq![0xFBu8, b[5], b[4], b[3], 0, 0, 0, 0])
    } else if b[0] == 0xCC && b[1] == 0xCC {
        Ok(seq![0xFAu8, b[5], b[4], b[3], b[2], 0, 0, 0])
    } else if b[0] & 7 == 2 {
        callsign_or_err(seq![b[1], b[2], b[3], b[4], b[5], b[0] & 0xFD, 0, 0])
    } else {
        Err(AddrError::Unconvertible)
    }
}

/// Whether every byte of an array equals `v`.
fn all_bytes_are(b: &[u8], v: u8) -> (r: bool)
    ensures
        r == all_eq(b@, v),
{
    let mut i: usize = 0;
    while i < b.len()
        invariant
            i <= b@.len(),
            forall|j: int| 0 <= j < i ==> b@[j] == v,
        decreases b@.len() - i,
    {
        if b[i] != v {
            return false;
        }
        i += 1;
    }
    true
}

/// Wraps eight octets as an address if they hold a callsign.
fn callsign_or_error(o: [u8; 8]) -> (r: Result<HamAddr, AddrError>)
    ensures
        match callsign_or_err(o@) {
            Ok(x) => (r matches Ok(a) && a.0@ == x),
            Err(e) => r == Err::<HamAddr, AddrError>(e),
        },
{
    let a = HamAddr(o);
    if a.is_callsign() {
        Ok(a)
    } else {
        Err(AddrError::Unconvertible)
    }
}

impl HamAddr {
    /// The EUI-64 of this address: the empty and broadcast addresses map to
    /// all zeros and all ones, a callsign is rotated by one octet with the
    /// locally administered bit set (and `FF:FE` spliced in when it fits
    /// six octets); other kinds have none.
    pub fn try_to_eui64(&self) -> (r: Result<Eui64, AddrError>)
        ensures
            match eui64_of(self.0@) {
                Ok(x) => (r matches Ok(e) && e.0@ == x),
                Err(err) => r == Err::<Eui64, AddrError>(err),
            },
    {
        let o = self.0;
        match self.get_type() {
            HamAddrType::Empty => Ok(Eui64::empty()),
            HamAddrType::Broadcast => Ok(Eui64::broadcast()),
            HamAddrType::Callsign => {
                if o[7] & 7 != 0 {
                    return Err(AddrError::Unconvertible);
                }
                let small = self.chunk(3) == 0 && o[5] & 7 == 0;
                let e = if small {
                    [(o[5] & 0xF8) | 2, o[0], o[1], 0xFF, 0xFE, o[2], o[3], o[4]]
                } else {
                    [(o[7] & 0xF8) | 2, o[0], o[1], o[2], o[3], o[4], o[5], o[6]]
                };
                let r = Eui64(e);
                assert(r.0@ =~= eui64_of(self.0@)->Ok_0);
                Ok(r)
            },
            _ => Err(AddrError::Unconvertible),
        }
    }

    /// The EUI-48 of this address: as for EUI-64 but only for callsigns
    /// that fit six octets; multicast groups map to their EUI-48 groups.
    pub fn try_to_eui48(&self) -> (r: Result<Eui48, AddrError>)
        ensures
            match eui48_of(self.0@) {
                Ok(x) => (r matches Ok(e) && e.0@ == x),
                Err(err) => r == Err::<Eui48, AddrError>(err),
            },
    {
        let o = self.0;
        match self.get_type() {
            HamAddrType::Empty => Ok(Eui48::empty()),
            HamAddrType::Broadcast => Ok(Eui48::broadcast()),
            HamAddrType::Callsign => {
                let small = self.chunk(3) == 0 && o[5] & 7 == 0;
                if !small {
                    return Err(AddrError::Unconvertible);
                }
                let r = Eui48([(o[5] & 0xF8) | 2, o[0], o[1], o[2], o[3], o[4]]);
                assert(r.0@ =~= eui48_of(self.0@)->Ok_0);
                Ok(r)
            },
            HamAddrType::Ipv4Multicast => {
                let r = Eui48([0x01, 0x00, 0x5E, o[3], o[2], o[1]]);
                assert(r.0@ =~= eui48_of(self.0@)->Ok_0);
                Ok(r)
            },
            HamAddrType::Ipv6Multicast => {
                let r = Eui48([0xCC, 0xCC, o[4], o[3], o[2], o[1]]);
                assert(r.0@ =~= eui48_of(self.0@)->Ok_0);
                Ok(r)
            },
            _ => Err(AddrError::Unconvertible),
        }
    }

    /// The callsign address of an EUI-64 made by `try_to_eui64`, or the
    /// empty or broadcast address.
    pub fn try_from_eui64(value: Eui64) -> (r: Result<HamAddr, AddrError>)
        ensures
            match addr_of_eui64(value.0@) {
                Ok(x) => (r matches Ok(a) && a.0@ == x),
                Err(err) => r == Err::<HamAddr, AddrError>(err),
            },
    {
        let b = value.0;
        if all_bytes_are(&b, 0) {
            return Ok(HamAddr::empty());
        }
        if all_bytes_are(&b, 0xFF) {
            return Ok(HamAddr::broadcast());
        }
        if b[0] & 7 == 2 {
            let b0 = b[0] & 0xFD;
            if b[3] == 0xFF && b[4] == 0xFE {
                let o = [b[1], b[2], b[5], b[6], b[7], b0, 0, 0];
                assert(o@ =~= seq![b[1], b[2], b[5], b[6], b[7], b0, 0, 0]);
                callsign_or_error(o)
            } else {
                let o = [b[1], b[2], b[3], b[4], b[5], b[6], b[7], b0];
                assert(o@ =~= seq![b[1], b[2], b[3], b[4], b[5], b[6], b[7], b0]);
                callsign_or_error(o)
            }
        } else {
            Err(AddrError::Unconvertible)
        }
    }

    /// The address of an EUI-48 made by `try_to_eui48`, or the empty or
    /// broadcast address.
    pub fn try_from_eui48(value: Eui48) -> (r: Result<HamAddr, AddrError>)
        ensures
            match addr_of_eui48(value.0@) {
                Ok(x) => (r matches Ok(a) && a.0@ == x),
                Err(err) => r == Err::<HamAddr, AddrError>(err),
            },
    {
        let b = value.0;
        if all_bytes_are(&b, 0) {
            return Ok(HamAddr::empty());
        }
        if all_bytes_are(&b, 0xFF) {
            return Ok(HamAddr::broadcast());
        }
        if b[0] == 0x01 && b[1] == 0x00 && b[2] == 0x5E {
            let r = HamAddr([0xFB, b[5], b[4], b[3], 0, 0, 0, 0]);
            assert(r.0@ =~= seq![0xFBu8, b[5], b[4], b[3], 0, 0, 0, 0]);
            return Ok(r);
        }
        if b[0] == 0xCC && b[1] == 0xCC {
            let r = HamAddr([0xFA, b[5], b[4], b[3], b[2], 0, 0, 0]);
            assert(r.0@ =~= seq![0xFAu8, b[5], b[4], b[3], b[2], 0, 0, 0]);
            return Ok(r);
        }
        if b[0] & 7 == 2 {
            let o = [b[1], b[2], b[3], b[4], b[5], b[0] & 0xFD, 0, 0];
            assert(o@ =~= seq![b[1], b[2], b[3], b[4], b[5], b[0] & 0xFD, 0, 0]);
            callsign_or_error(o)
        } else {
            Err(AddrError::Unconvertible)
        }
    }
}

/// Setting the locally administered bit of an octet whose low three bits
/// are clear gives low bits `010`, and clearing it again gives the octet back.
proof fn lemma_marker_bits(x: u8)
    requires
        x & 7 == 0,
    ensures
        ((x & 0xF8) | 2) & 7 == 2,
        ((x & 0xF8) | 2) & 0xFD == x,
        (x & 0xF8) | 2 != 0,
        (x & 0xF8) | 2 != 0xFF,
        (x & 0xF8) | 2 != 0x01,
        (x & 0xF8) | 2 != 0xCC,
{
    assert(((x & 0xF8) | 2) & 7 == 2) by (bit_vector)
        requires
            x & 7 == 0,
    ;
    assert(((x & 0xF8) | 2) & 0xFD == x) by (bit_vector)
        requires
            x & 7 == 0,
    ;
    assert((x & 0xF8) | 2 != 0 && (x & 0xF8) | 2 != 0xFF && (x & 0xF8) | 2 != 0x01 && (x
        & 0xF8) | 2 != 0xCC) by (bit_vector);
}

/// A callsign that has an EUI-64 is what the inverse mapping gives back for it.
pub proof fn lemma_eui64_round_trip(h: HamAddr)
    requires
        addr_type(h.0@) == HamAddrType::Callsign,
        eui64_of(h.0@) is Ok,
    ensures
        addr_of_eui64(eui64_of(h.0@)->Ok_0) == Ok::<Seq<u8>, AddrError>(h.0@),
{
    let o = h.0@;
    let e = eui64_of(o)->Ok_0;
    if is_small(o) {
        lemma_marker_bits(o[5]);
        assert(e[0] != 0 && e[0] != 0xFF);
        assert(seq![e[1], e[2], e[5], e[6], e[7], e[0] & 0xFD, 0u8, 0u8] =~= o);
    } else {
        lemma_marker_bits(o[7]);
        assert(e[0] != 0 && e[0] != 0xFF);
        assert(!(e[3] == 0xFF && e[4] == 0xFE));
        assert(seq![e[1], e[2], e[3], e[4], e[5], e[6], e[7], e[0] & 0xFD] =~= o);
    }
}

/// A callsign that fits six octets is what the inverse mapping gives back
/// for its EUI-48.
pub proof fn lemma_eui48_round_trip(h: HamAddr)
    requires
        addr_type(h.0@) == HamAddrType::Callsign,
        is_small(h.0@),
    ensures
        eui48_of(h.0@) is Ok,
        addr_of_eui48(eui48_of(h.0@)->Ok_0) == Ok::<Seq<u8>, AddrError>(h.0@),
{
    let o = h.0@;
    let e = eui48_of(o)->Ok_0;
    lemma_marker_bits(o[5]);
    assert(e[0] != 0 && e[0] != 0xFF && e[0] != 0x01 && e[0] != 0xCC);
    assert(seq![e[1], e[2], e[3], e[4], e[5], e[0] & 0xFD, 0u8, 0u8] =~= o);
}

} // verus!
