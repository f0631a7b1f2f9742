//! The MAC receive path: which frames are taken, and which are acknowledged.
use vstd::prelude::*;
use crate::checksum::{append_crc, crc_trailer, x25};
use crate::frame_info::{
    ack_frame_of, decodes_to, frame_bytes, parse_error, FrameInfo, FrameType, NetworkId,
};
use crate::ham_addr::{addr_type, HamAddr, HamAddrType};

verus! {

/// Whether an address is a multicast group.
pub open spec fn is_multicast_addr(a: HamAddr) -> bool {
    addr_type(a.0@) == HamAddrType::Ipv4Multicast || addr_type(a.0@)
        == HamAddrType::Ipv6Multicast
}

/// Whether a decoded frame is for this station: on its network (or on
/// none) and sent to its callsign or to a multicast group.
pub open spec fn admitted(f: FrameInfo, own: HamAddr, netid: NetworkId) -> bool {
    &&& (f.network_id matches Some(n) ==> n == netid)
    &&& (f.dst_addr.0@ == own.0@ || is_multicast_addr(f.dst_addr))
}

/// The octets of the acknowledgement of a frame, check sequence included.
pub open spec fn ack_wire(f: FrameInfo, p: Seq<u8>) -> Seq<u8> {
    let a = frame_bytes(ack_frame_of(f, p), Seq::empty());
    a + crc_trailer(x25(a))
}

/// What the receive path does with one frame.
#[derive(Clone, Debug)]
pub enum MacVerdict {
    /// Not a frame, or not for this station.
    Drop,
    /// A frame for this station, to be checked by the security policy
    /// and handed up; `ack` is the acknowledgement to send first, if any.
    Accept { frame_info: FrameInfo, payload: Vec<u8>, ack: Option<Vec<u8>> },
}

/// Copies a slice into a new vector.
fn to_vec(s: &[u8]) -> (r: Vec<u8>)
    ensures
        r@ == s@,
{
    let mut out: Vec<u8> = Vec::new();
    let mut i: usize = 0;
    while i < s.len()
        invariant
            i <= s@.len(),
            out@ == s@.subrange(0, i as int),
        decreases s@.len() - i,
    {
        out.push(s[i]);
        assert(out@ =~= s@.subrange(0, i as int + 1));
        i += 1;
    }
    assert(s@.subrange(0, s@.len() as int) =~= s@);
    out
}

/// Decides what to do with one received frame (check sequence already
/// removed): frames that do not parse, that name another network, or that
/// are sent neither to `own` nor to a multicast group are dropped; the
/// others are accepted, with an acknowledgement when they are sent to `own`
/// and ask for one.
pub fn mac_receive(frame: &[u8], own: HamAddr, netid: NetworkId) -> (r: MacVerdict)
    ensures
        parse_error(frame@) is Some ==> r is Drop,
        r is Drop ==> parse_error(frame@) is Some || forall|f: FrameInfo, p: Seq<u8>|
            #[trigger] decodes_to(frame@, f, p) ==> !admitted(f, own, netid),
        r matches MacVerdict::Accept { frame_info, payload, ack } ==> {
            &&& decodes_to(frame@, frame_info, payload@)
            &&& admitted(frame_info, own, netid)
            &&& if frame_info.dst_addr.0@ == own.0@ && frame_info.ack_requested {
                ack matches Some(a) && a@ == ack_wire(frame_info, payload@)
            } else {
                ack is None
            }
        },
{
    let (frame_info, payload) = match FrameInfo::try_from_bytes(frame) {
        Ok(x) => x,
        Err(_) => {
            return MacVerdict::Drop;
        },
    };
    proof {
        assert forall|f: FrameInfo, p: Seq<u8>| #[trigger]
            decodes_to(frame@, f, p) implies f == frame_info && p == payload@ by {
            crate::frame_info::lemma_decodes_unique(frame@, f, p, frame_info, payload@);
        }
    }
    if let Some(n) = frame_info.network_id {
        if n != netid {
            return MacVerdict::Drop;
        }
    }
    let direct_unicast = frame_info.dst_addr == own;
    let direct_multicast = frame_info.dst_addr.is_multicast();
    if !direct_unicast && !direct_multicast {
        return MacVerdict::Drop;
    }
    let mut ack: Option<Vec<u8>> = None;
    if direct_unicast {
        if let Some(ack_frame) = frame_info.generate_ack_frame(payload) {
            let none: Vec<u8> = Vec::new();
            let bytes = ack_frame.bytes_with_payload(none.as_slice());
            assert(none@ =~= Seq::<u8>::empty());
            ack = Some(append_crc(bytes.as_slice()));
        }
    }
    MacVerdict::Accept { frame_info, payload: to_vec(payload), ack }
}

} // verus!
