//! The X.25 frame check sequence (CRC-16/IBM-SDLC).
use vstd::prelude::*;

verus! {

/// The X.25 digest of a byte sequence (CRC-16/IBM-SDLC: reflected
/// polynomial 0x1021, initial value and final XOR 0xFFFF).
pub uninterp spec fn x25(b: Seq<u8>) -> u16;

/// The value that the digest of a frame followed by its own check
/// sequence has.
pub const X25_RESIDUE: u16 = 0x0F47;

/// Relies on `crc::Crc::<u16>::checksum` with `crc::CRC_16_IBM_SDLC`:
/// the digest of the bytes, which depends on them alone.
#[verifier::external_body]
fn x25_checksum(bytes: &[u8]) -> (r: u16)
    ensures
        r == x25(bytes@),
{
    crc::Crc::<u16>::new(&crc::CRC_16_IBM_SDLC).checksum(bytes)
}

/// The X.25 digest of `bytes`.
pub fn x25_digest(bytes: &[u8]) -> (r: u16)
    ensures
        r == x25(bytes@),
{
    x25_checksum(bytes)
}

/// The two trailer bytes of a digest, low byte first.
pub open spec fn crc_trailer(d: u16) -> Seq<u8> {
    seq![(d % 256) as u8, (d / 256) as u8]
}

/// Appends `bytes`' X.25 digest to them, low byte first.
pub fn append_crc(bytes: &[u8]) -> (r: Vec<u8>)
    ensures
        r@ == bytes@ + crc_trailer(x25(bytes@)),
{
    let d = x25_checksum(bytes);
    let mut out: Vec<u8> = Vec::new();
    let mut i: usize = 0;
    while i < bytes.len()
        invariant
            i <= bytes@.len(),
            out@ == bytes@.subrange(0, i as int),
        decreases bytes@.len() - i,
    {
        out.push(bytes[i]);
        assert(out@ =~= bytes@.subrange(0, i as int + 1));
        i += 1;
    }
    out.push((d % 256) as u8);
    out.push((d / 256) as u8);
    assert(out@ =~= bytes@ + crc_trailer(x25(bytes@)));
    out
}

/// Gives back a received frame, trailer included, if its digest is the
/// X.25 residue.
pub fn check_crc(frame: Vec<u8>) -> (r: Option<Vec<u8>>)
    ensures
        x25(frame@) == X25_RESIDUE ==> r == Some(frame),
        x25(frame@) != X25_RESIDUE ==> r is None,
{
    if x25_checksum(frame.as_slice()) == X25_RESIDUE {
        Some(frame)
    } else {
        None
    }
}

/// The body of a received frame without its two trailer bytes, if it has
/// them and its digest is the X.25 residue.
pub fn strip_crc(frame: &[u8]) -> (r: Option<Vec<u8>>)
    ensures
        (frame@.len() >= 2 && x25(frame@) == X25_RESIDUE) ==> (r matches Some(b) && b@
            == frame@.subrange(0, frame@.len() - 2)),
        !(frame@.len() >= 2 && x25(frame@) == X25_RESIDUE) ==> r is None,
{
    if frame.len() < 2 || x25_checksum(frame) != X25_RESIDUE {
        return None;
    }
    let n = frame.len() - 2;
    let mut out: Vec<u8> = Vec::new();
    let mut i: usize = 0;
    while i < n
        invariant
            n == frame@.len() - 2,
            i <= n,
            out@ == frame@.subrange(0, i as int),
        decreases n - i,
    {
        out.push(frame[i]);
        assert(out@ =~= frame@.subrange(0, i as int + 1));
        i += 1;
    }
    Some(out)
}

} // verus!
