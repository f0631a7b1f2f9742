//! The MAC frame header and its bit-packed wire layout.
use vstd::prelude::*;
use crate::checksum::{x25, x25_digest};
use crate::ham_addr::{trimmed_len, word, HamAddr};

verus! {

/// Version written into the frame control field.
pub const VERSION_EXPERIMENTAL: u8 = 0;

/// The first released version.
pub const VERSION_1: u8 = 1;

/// Identifier of a network, big-endian on the wire.
#[derive(Clone, Copy, Debug, PartialEq, Eq, Structural)]
pub struct NetworkId(pub u16);

/// Kind of a MAC frame.
#[derive(Clone, Copy, Debug, PartialEq, Eq, Structural)]
pub enum FrameType {
    Beacon,
    Data,
    Ack,
    MacCommand,
}

/// Length of a message integrity code.
#[derive(Clone, Copy, Debug, PartialEq, Eq, Structural)]
pub enum MicLen {
    Mic32,
    Mic64,
    Mic96,
    Mic128,
}

/// How the key of a secured frame is identified.
#[derive(Clone, Copy, Debug, PartialEq, Eq, Structural)]
pub enum KeyIdentMode {
    Addresses,
    KeyIndex,
    Reserved2,
    Reserved3,
}

/// A message integrity code: its length and up to sixteen octets.
#[derive(Clone, Copy, Debug, PartialEq, Eq)]
pub struct Mic {
    pub len: MicLen,
    pub code: [u8; 16],
}

/// The security header of a frame.
#[derive(Clone, Copy, Debug, PartialEq, Eq)]
pub struct SecInfo {
    pub enc: bool,
    pub kim: KeyIdentMode,
    pub fcntr: u32,
    pub kid: Option<u8>,
    pub mic: Mic,
}

/// A decoded MAC frame header.
#[derive(Clone, Copy, Debug, PartialEq, Eq)]
pub struct FrameInfo {
    pub frame_type: FrameType,
    pub ack_requested: bool,
    pub is_from_relay: bool,
    pub network_id: Option<NetworkId>,
    pub dst_addr: HamAddr,
    pub src_addr: HamAddr,
    pub rly_addr: Option<HamAddr>,
    pub sec_info: Option<SecInfo>,
    pub ack_crc: u16,
}

/// Why a byte buffer is not a frame.
#[derive(Clone, Copy, Debug, PartialEq, Eq, Structural)]
pub enum ParseError {
    /// Fewer than five octets.
    TooShort,
    /// A version other than experimental or 1.
    BadVersion,
    /// A field, the payload's MIC included, runs past the end.
    Truncated,
}

/// The two-bit code of a frame type.
pub open spec fn frame_type_code(t: FrameType) -> int {
    match t {
        FrameType::Beacon => 0,
        FrameType::Data => 1,
        FrameType::Ack => 2,
        FrameType::MacCommand => 3,
    }
}

/// The frame type of a two-bit code.
pub open spec fn frame_type_of(c: int) -> FrameType {
    if c == 0 {
        FrameType::Beacon
    } else if c == 1 {
        FrameType::Data
    } else if c == 2 {
        FrameType::Ack
    } else {
        FrameType::MacCommand
    }
}

/// The two-bit code of a MIC length.
pub open spec fn mic_len_code(m: MicLen) -> int {
    match m {
        MicLen::Mic32 => 0,
        MicLen::Mic64 => 1,
        MicLen::Mic96 => 2,
        MicLen::Mic128 => 3,
    }
}

/// The MIC length of a two-bit code.
pub open spec fn mic_len_of(c: int) -> MicLen {
    if c == 0 {
        MicLen::Mic32
    } else if c == 1 {
        MicLen::Mic64
    } else if c == 2 {
        MicLen::Mic96
    } else {
        MicLen::Mic128
    }
}

/// Number of octets of a MIC of this length.
pub open spec fn mic_octets(m: MicLen) -> int {
    (mic_len_code(m) + 1) * 4
}

/// The two-bit code of a key identification mode.
pub open spec fn kim_code(k: KeyIdentMode) -> int {
    match k {
        KeyIdentMode::Addresses => 0,
        KeyIdentMode::KeyIndex => 1,
        KeyIdentMode::Reserved2 => 2,
        KeyIdentMode::Reserved3 => 3,
    }
}

/// The key identification mode of a two-bit code.
pub open spec fn kim_of(c: int) -> KeyIdentMode {
    if c == 0 {
        KeyIdentMode::Addresses
    } else if c == 1 {
        KeyIdentMode::KeyIndex
    } else if c == 2 {
        KeyIdentMode::Reserved2
    } else {
        KeyIdentMode::Reserved3
    }
}

/// `weight` if the flag is set, else zero.
pub open spec fn bit(b: bool, weight: int) -> int {
    if b {
        weight
    } else {
        0
    }
}

/// Whether the bit of the given weight is set in `v`.
pub open spec fn flag(v: int, weight: int) -> bool {
    v / weight % 2 == 1
}

/// The trimmed octets of an address.
pub open spec fn trimmed(a: HamAddr) -> Seq<u8> {
    a.0@.subrange(0, trimmed_len(a.0@))
}

/// Two-bit code of an address's trimmed length: `len / 2 - 1`.
pub open spec fn len_code(a: HamAddr) -> int {
    trimmed_len(a.0@) / 2 - 1
}

/// Two octets of a 16-bit value, most significant first.
pub open spec fn u16_be(v: int) -> Seq<u8> {
    seq![(v / 256) as u8, (v % 256) as u8]
}

/// Four octets of a 32-bit value, most significant first.
pub open spec fn u32_be(v: int) -> Seq<u8> {
    seq![(v / 0x100_0000) as u8, (v / 0x1_0000 % 256) as u8, (v / 256 % 256) as u8, (v % 256) as u8]
}

/// The first octet of the frame control field.
pub open spec fn fcf_msb_of(f: FrameInfo) -> u8 {
    (frame_type_code(f.frame_type) * 16 + len_code(f.dst_addr) * 4 + len_code(f.src_addr)) as u8
}

/// The second octet of the frame control field (absent from Ack frames).
pub open spec fn fcf_lsb_of(f: FrameInfo) -> u8 {
    (bit(f.sec_info is Some, 128) + bit(f.network_id is Some, 64) + bit(f.ack_requested, 32) + bit(
        f.rly_addr is Some,
        16,
    ) + bit(f.is_from_relay, 8) + match f.rly_addr {
        Some(a) => len_code(a),
        None => 0,
    }) as u8
}

/// The security control field.
pub open spec fn scf_of(s: SecInfo) -> u8 {
    (bit(s.enc, 128) + mic_len_code(s.mic.len) * 32 + kim_code(s.kim) * 8) as u8
}

/// The security header: control field, frame counter and key index.
pub open spec fn sec_header(s: SecInfo) -> Seq<u8> {
    seq![scf_of(s)] + u32_be(s.fcntr as int) + match s.kid {
        Some(k) => seq![k],
        None => seq![],
    }
}

/// The octets of a MIC.
pub open spec fn mic_bytes(m: Mic) -> Seq<u8> {
    m.code@.subrange(0, mic_octets(m.len))
}

/// The octets of a frame with the given header and payload.
#[verifier::opaque]
pub open spec fn frame_bytes(f: FrameInfo, p: Seq<u8>) -> Seq<u8> {
    if f.frame_type == FrameType::Ack {
        seq![fcf_msb_of(f)] + trimmed(f.src_addr) + u16_be(f.ack_crc as int)
    } else {
        seq![fcf_msb_of(f), fcf_lsb_of(f)] + match f.network_id {
            Some(n) => u16_be(n.0 as int),
            None => seq![],
        } + trimmed(f.dst_addr) + trimmed(f.src_addr) + match f.rly_addr {
            Some(a) => trimmed(a),
            None => seq![],
        } + match f.sec_info {
            Some(s) => sec_header(s),
            None => seq![],
        } + p + match f.sec_info {
            Some(s) => mic_bytes(s.mic),
            None => seq![],
        }
    }
}

/// A security header that the layout can carry back unchanged: a key index
/// exactly when the mode asks for one, and no code octets past the MIC's length.
pub open spec fn sec_info_valid(s: SecInfo) -> bool {
    &&& (s.kid is Some <==> s.kim == KeyIdentMode::KeyIndex)
    &&& forall|i: int| mic_octets(s.mic.len) <= i < 16 ==> s.mic.code[i] == 0
}

/// A header that the layout can carry back unchanged.
pub open spec fn frame_info_valid(f: FrameInfo) -> bool {
    &&& (f.frame_type == FrameType::Ack ==> {
        &&& !f.ack_requested
        &&& !f.is_from_relay
        &&& f.network_id is None
        &&& trimmed_len(f.dst_addr.0@) == 2 && f.dst_addr.0@[0] == 0 && f.dst_addr.0@[1] == 0
        &&& f.rly_addr is None
        &&& f.sec_info is None
    })
    &&& (f.frame_type != FrameType::Ack ==> f.ack_crc == 0)
    &&& (f.sec_info matches Some(s) ==> sec_info_valid(s))
}

// ---- decoding positions, read from the control field ----

/// Whether the control field names an Ack frame.
pub open spec fn lay_is_ack(b: Seq<u8>) -> bool {
    b[0] / 16 % 4 == 2
}

/// The second control octet; zero for an Ack frame, which has none.
pub open spec fn lay_lsb(b: Seq<u8>) -> int {
    if lay_is_ack(b) {
        0
    } else {
        b[1] as int
    }
}

/// Length of the destination address, from its code.
pub open spec fn lay_dst_len(b: Seq<u8>) -> int {
    (b[0] / 4 % 4 + 1) * 2
}

/// Length of the source address, from its code.
pub open spec fn lay_src_len(b: Seq<u8>) -> int {
    (b[0] % 4 + 1) * 2
}

/// Length of the relay address, from its code.
pub open spec fn lay_rly_len(b: Seq<u8>) -> int {
    (lay_lsb(b) % 4 + 1) * 2
}

/// Where the network identifier starts.
pub open spec fn pos_net(b: Seq<u8>) -> int {
    if lay_is_ack(b) {
        1
    } else {
        2
    }
}

/// Where the destination address starts.
pub open spec fn pos_dst(b: Seq<u8>) -> int {
    pos_net(b) + if flag(lay_lsb(b), 64) {
        2int
    } else {
        0int
    }
}

/// Where the source address starts.
pub open spec fn pos_src(b: Seq<u8>) -> int {
    pos_dst(b) + if lay_is_ack(b) {
        0
    } else {
        lay_dst_len(b)
    }
}

/// Where the relay address starts.
pub open spec fn pos_rly(b: Seq<u8>) -> int {
    pos_src(b) + lay_src_len(b)
}

/// Where the acknowledged digest of an Ack frame starts.
pub open spec fn pos_crc(b: Seq<u8>) -> int {
    pos_rly(b) + if flag(lay_lsb(b), 16) {
        lay_rly_len(b)
    } else {
        0
    }
}

/// Where the security header starts.
pub open spec fn pos_sec(b: Seq<u8>) -> int {
    pos_crc(b) + if lay_is_ack(b) {
        2int
    } else {
        0int
    }
}

/// The security control field.
pub open spec fn lay_scf(b: Seq<u8>) -> int {
    b[pos_sec(b)] as int
}

/// Where the payload starts.
pub open spec fn pos_payload(b: Seq<u8>) -> int {
    pos_sec(b) + if flag(lay_lsb(b), 128) {
        5 + if lay_scf(b) / 8 % 4 == 1 {
            1int
        } else {
            0int
        }
    } else {
        0
    }
}

/// Length of the MIC at the end, from the security control field.
pub open spec fn lay_mic_len(b: Seq<u8>) -> int {
    if flag(lay_lsb(b), 128) {
        (lay_scf(b) / 32 % 4 + 1) * 4
    } else {
        0
    }
}

/// Why a buffer is not a frame, if it is not one.
pub open spec fn parse_error(b: Seq<u8>) -> Option<ParseError> {
    if b.len() < 5 {
        Some(ParseError::TooShort)
    } else if b[0] / 64 > 1 {
        Some(ParseError::BadVersion)
    } else if pos_payload(b) + lay_mic_len(b) > b.len() {
        Some(ParseError::Truncated)
    } else {
        None
    }
}

/// Octets padded with zeros to eight.
pub open spec fn padded(s: Seq<u8>) -> Seq<u8> {
    s + Seq::new((8 - s.len()) as nat, |i: int| 0u8)
}

/// The big-endian 16-bit value at `p`.
pub open spec fn be16_at(b: Seq<u8>, p: int) -> int {
    b[p] * 256 + b[p + 1]
}

/// The big-endian 32-bit value at `p`.
pub open spec fn be32_at(b: Seq<u8>, p: int) -> int {
    b[p] * 0x100_0000 + b[p + 1] * 0x1_0000 + b[p + 2] * 256 + b[p + 3]
}

/// The security header that a buffer carries.
pub open spec fn sec_decodes(b: Seq<u8>, s: SecInfo) -> bool {
    let scf = lay_scf(b);
    let p = pos_sec(b);
    let m = lay_mic_len(b);
    &&& s.enc == flag(scf, 128)
    &&& s.kim == kim_of(scf / 8 % 4)
    &&& s.fcntr as int == be32_at(b, p + 1)
    &&& s.kid == if scf / 8 % 4 == 1 {
        Some(b[p + 5])
    } else {
        None
    }
    &&& s.mic.len == mic_len_of(scf / 32 % 4)
    &&& s.mic.code@ == b.subrange(b.len() - m, b.len() as int) + Seq::new(
        (16 - m) as nat,
        |i: int| 0u8,
    )
}

/// The control flags, network identifier and addresses of a buffer.
pub open spec fn decodes_header(b: Seq<u8>, f: FrameInfo) -> bool {
    let lsb = lay_lsb(b);
    &&& f.frame_type == frame_type_of((b[0] / 16 % 4) as int)
    &&& f.ack_requested == flag(lsb, 32)
    &&& f.is_from_relay == flag(lsb, 8)
    &&& f.network_id == if flag(lsb, 64) {
        Some(NetworkId(be16_at(b, pos_net(b)) as u16))
    } else {
        None
    }
    &&& f.dst_addr.0@ == if lay_is_ack(b) {
        Seq::new(8, |i: int| 0u8)
    } else {
        padded(b.subrange(pos_dst(b), pos_dst(b) + lay_dst_len(b)))
    }
    &&& f.src_addr.0@ == padded(b.subrange(pos_src(b), pos_src(b) + lay_src_len(b)))
}

/// The relay address, acknowledged digest, security header and payload
/// of a buffer.
pub open spec fn decodes_rest(b: Seq<u8>, f: FrameInfo, p: Seq<u8>) -> bool {
    let lsb = lay_lsb(b);
    &&& if flag(lsb, 16) {
        f.rly_addr matches Some(a) && a.0@ == padded(
            b.subrange(pos_rly(b), pos_rly(b) + lay_rly_len(b)),
        )
    } else {
        f.rly_addr is None
    }
    &&& f.ack_crc as int == if lay_is_ack(b) {
        be16_at(b, pos_crc(b))
    } else {
        0
    }
    &&& if flag(lsb, 128) {
        f.sec_info matches Some(s) && sec_decodes(b, s)
    } else {
        f.sec_info is None
    }
    &&& p == b.subrange(pos_payload(b), b.len() - lay_mic_len(b))
}

/// The header and payload that a well-formed buffer decodes to.
pub open spec fn decodes_to(b: Seq<u8>, f: FrameInfo, p: Seq<u8>) -> bool {
    decodes_header(b, f) && decodes_rest(b, f, p)
}


/// Appends the octets of `s` to `out`.
fn push_all(out: &mut Vec<u8>, s: &[u8])
    ensures
        final(out)@ == old(out)@ + s@,
{
    let ghost start = out@;
    let mut i: usize = 0;
    while i < s.len()
        invariant
            i <= s@.len(),
            out@ == start + s@.subrange(0, i as int),
        decreases s@.len() - i,
    {
        out.push(s[i]);
        assert(out@ =~= start + s@.subrange(0, i as int + 1));
        i += 1;
    }
    assert(s@.subrange(0, s@.len() as int) =~= s@);
}

/// The address held by `len` octets at `p`, padded with zeros.
fn addr_at(b: &[u8], p: usize, len: usize) -> (r: HamAddr)
    requires
        p + len <= b@.len(),
        len <= 8,
    ensures
        r.0@ == padded(b@.subrange(p as int, p + len)),
{
    let mut o = [0u8; 8];
    let mut i: usize = 0;
    while i < len
        invariant
            p + len <= b.len(),
            len <= 8,
            i <= len,
            forall|j: int| 0 <= j < i ==> o[j] == b@[p + j],
            forall|j: int| i <= j < 8 ==> o[j] == 0,
        decreases len - i,
    {
        o[i] = b[p + i];
        i += 1;
    }
    let r = HamAddr(o);
    assert(r.0@ =~= padded(b@.subrange(p as int, p + len)));
    r
}

/// The MIC held by the last `len` octets of `b`, padded with zeros.
fn mic_code_at(b: &[u8], len: usize) -> (r: [u8; 16])
    requires
        len <= b@.len(),
        len <= 16,
    ensures
        r@ == b@.subrange(b@.len() - len, b@.len() as int) + Seq::new(
            (16 - len) as nat,
            |i: int| 0u8,
        ),
{
    let p = b.len() - len;
    let mut o = [0u8; 16];
    let mut i: usize = 0;
    while i < len
        invariant
            p + len == b.len(),
            len <= 16,
            i <= len,
            forall|j: int| 0 <= j < i ==> o[j] == b@[p + j],
            forall|j: int| i <= j < 16 ==> o[j] == 0,
        decreases len - i,
    {
        o[i] = b[p + i];
        i += 1;
    }
    assert(o@ =~= b@.subrange(b@.len() - len, b@.len() as int) + Seq::new(
        (16 - len) as nat,
        |i: int| 0u8,
    ));
    o
}

impl NetworkId {
    /// The network identifier in the first two octets, big-endian.
    pub fn from_iter(bytes: &[u8]) -> (r: NetworkId)
        requires
            bytes@.len() >= 2,
        ensures
            r.0 as int == be16_at(bytes@, 0),
    {
        NetworkId((bytes[0] as u16) * 256 + bytes[1] as u16)
    }
}

impl FrameType {
    /// The frame type of a two-bit code.
    pub fn try_from_u8(x: u8) -> (r: Option<FrameType>)
        ensures
            x < 4 ==> r == Some(frame_type_of(x as int)),
            x >= 4 ==> r is None,
    {
        match x {
            0 => Some(FrameType::Beacon),
            1 => Some(FrameType::Data),
            2 => Some(FrameType::Ack),
            3 => Some(FrameType::MacCommand),
            _ => None,
        }
    }

    /// The two-bit code of this frame type.
    pub fn to_u8(&self) -> (r: u8)
        ensures
            r as int == frame_type_code(*self),
    {
        match self {
            FrameType::Beacon => 0,
            FrameType::Data => 1,
            FrameType::Ack => 2,
            FrameType::MacCommand => 3,
        }
    }
}

impl MicLen {
    /// The MIC length of a two-bit code.
    pub fn try_from_u8(x: u8) -> (r: Option<MicLen>)
        ensures
            x < 4 ==> r == Some(mic_len_of(x as int)),
            x >= 4 ==> r is None,
    {
        match x {
            0 => Some(MicLen::Mic32),
            1 => Some(MicLen::Mic64),
            2 => Some(MicLen::Mic96),
            3 => Some(MicLen::Mic128),
            _ => None,
        }
    }

    /// The two-bit code of this length.
    pub fn to_u8(&self) -> (r: u8)
        ensures
            r as int == mic_len_code(*self),
    {
        match self {
            MicLen::Mic32 => 0,
            MicLen::Mic64 => 1,
            MicLen::Mic96 => 2,
            MicLen::Mic128 => 3,
        }
    }

    /// Number of octets: 4, 8, 12 or 16.
    pub fn len(&self) -> (r: usize)
        ensures
            r as int == mic_octets(*self),
    {
        match self {
            MicLen::Mic32 => 4,
            MicLen::Mic64 => 8,
            MicLen::Mic96 => 12,
            MicLen::Mic128 => 16,
        }
    }
}

impl KeyIdentMode {
    /// The mode of a two-bit code.
    pub fn try_from_u8(x: u8) -> (r: Option<KeyIdentMode>)
        ensures
            x < 4 ==> r == Some(kim_of(x as int)),
            x >= 4 ==> r is None,
    {
        match x {
            0 => Some(KeyIdentMode::Addresses),
            1 => Some(KeyIdentMode::KeyIndex),
            2 => Some(KeyIdentMode::Reserved2),
            3 => Some(KeyIdentMode::Reserved3),
            _ => None,
        }
    }

    /// The two-bit code of this mode.
    pub fn to_u8(&self) -> (r: u8)
        ensures
            r as int == kim_code(*self),
    {
        match self {
            KeyIdentMode::Addresses => 0,
            KeyIdentMode::KeyIndex => 1,
            KeyIdentMode::Reserved2 => 2,
            KeyIdentMode::Reserved3 => 3,
        }
    }
}

impl Mic {
    /// A four-octet MIC of zeros.
    pub fn default() -> (r: Mic)
        ensures
            r.len == MicLen::Mic32,
            r.code@ == Seq::new(16, |i: int| 0u8),
    {
        let r = Mic { len: MicLen::Mic32, code: [0u8; 16] };
        assert(r.code@ =~= Seq::new(16, |i: int| 0u8));
        r
    }

    /// Number of octets of this MIC.
    pub fn len(&self) -> (r: usize)
        ensures
            r as int == mic_octets(self.len),
    {
        self.len.len()
    }

    /// The octets of this MIC.
    pub fn as_slice(&self) -> (r: &[u8])
        ensures
            r@ == mic_bytes(*self),
    {
        let n = self.len();
        vstd::slice::slice_subrange(self.code.as_slice(), 0, n)
    }

    /// The octets of this MIC, as a vector.
    pub fn bytes(&self) -> (r: Vec<u8>)
        ensures
            r@ == mic_bytes(*self),
    {
        let mut out: Vec<u8> = Vec::new();
        push_all(&mut out, self.as_slice());
        assert(out@ =~= mic_bytes(*self));
        out
    }

    /// A MIC of 4, 8, 12 or 16 octets; other lengths are refused.
    pub fn try_from_slice(slice: &[u8]) -> (r: Option<Mic>)
        ensures
            (slice@.len() == 4 || slice@.len() == 8 || slice@.len() == 12 || slice@.len() == 16)
                ==> (r matches Some(m) && mic_octets(m.len) == slice@.len() && m.code@ == slice@
                + Seq::new((16 - slice@.len()) as nat, |i: int| 0u8)),
            !(slice@.len() == 4 || slice@.len() == 8 || slice@.len() == 12 || slice@.len() == 16)
                ==> r is None,
    {
        let n = slice.len();
        if n != 4 && n != 8 && n != 12 && n != 16 {
            return None;
        }
        let len = if n == 4 {
            MicLen::Mic32
        } else if n == 8 {
            MicLen::Mic64
        } else if n == 12 {
            MicLen::Mic96
        } else {
            MicLen::Mic128
        };
        let code = mic_code_at(slice, n);
        assert(slice@.subrange(0, n as int) =~= slice@);
        Some(Mic { len, code })
    }
}

impl SecInfo {
    /// Reads a security header from the start of `bytes`: control field,
    /// big-endian frame counter and, in key-index mode, the key index.
    /// The MIC gets its length from the control field and zero octets.
    pub fn from_iter(bytes: &[u8]) -> (r: SecInfo)
        requires
            bytes@.len() >= 5 + if bytes@[0] / 8 % 4 == 1 {
                1int
            } else {
                0int
            },
        ensures
            r.enc == flag(bytes@[0] as int, 128),
            r.kim == kim_of((bytes@[0] / 8 % 4) as int),
            r.fcntr as int == be32_at(bytes@, 1),
            r.kid == if bytes@[0] / 8 % 4 == 1 {
                Some(bytes@[5])
            } else {
                None
            },
            r.mic.len == mic_len_of((bytes@[0] / 32 % 4) as int),
            r.mic.code@ == Seq::new(16, |i: int| 0u8),
    {
        let scf = bytes[0];
        let kim_c = scf / 8 % 4;
        let kim = if kim_c == 0 {
            KeyIdentMode::Addresses
        } else if kim_c == 1 {
            KeyIdentMode::KeyIndex
        } else if kim_c == 2 {
            KeyIdentMode::Reserved2
        } else {
            KeyIdentMode::Reserved3
        };
        let mic_c = scf / 32 % 4;
        let len = if mic_c == 0 {
            MicLen::Mic32
        } else if mic_c == 1 {
            MicLen::Mic64
        } else if mic_c == 2 {
            MicLen::Mic96
        } else {
            MicLen::Mic128
        };
        let fcntr = (bytes[1] as u32) * 0x100_0000 + (bytes[2] as u32) * 0x1_0000 + (bytes[3] as u32)
            * 256 + bytes[4] as u32;
        let kid = if kim_c == 1 {
            Some(bytes[5])
        } else {
            None
        };
        let mic = Mic { len, code: [0u8; 16] };
        assert(mic.code@ =~= Seq::new(16, |i: int| 0u8));
        SecInfo { enc: scf / 128 % 2 == 1, kim, fcntr, kid, mic }
    }

    /// The security control field.
    pub fn scf(&self) -> (r: u8)
        ensures
            r == scf_of(*self),
    {
        (if self.enc {
            128u8
        } else {
            0u8
        }) + self.mic.len.to_u8() * 32 + self.kim.to_u8() * 8
    }

    /// The security header octets.
    pub fn bytes(&self) -> (r: Vec<u8>)
        ensures
            r@ == sec_header(*self),
    {
        let mut out: Vec<u8> = Vec::new();
        out.push(self.scf());
        let c = self.fcntr;
        out.push((c / 0x100_0000) as u8);
        out.push((c / 0x1_0000 % 256) as u8);
        out.push((c / 256 % 256) as u8);
        out.push((c % 256) as u8);
        if let Some(k) = self.kid {
            out.push(k);
        }
        assert(out@ =~= sec_header(*self));
        out
    }
}


/// The address that acknowledges a frame: the relay when the frame came
/// from one that is named, else the destination.
pub open spec fn ack_sender(f: FrameInfo) -> HamAddr {
    match f.rly_addr {
        Some(a) if f.is_from_relay => a,
        _ => f.dst_addr,
    }
}

/// The header with everything zero or absent, of type Data.
pub open spec fn empty_frame_info() -> FrameInfo {
    FrameInfo {
        frame_type: FrameType::Data,
        ack_requested: false,
        is_from_relay: false,
        network_id: None,
        dst_addr: HamAddr(crate::ham_addr::zero_octets()),
        src_addr: HamAddr(crate::ham_addr::zero_octets()),
        rly_addr: None,
        sec_info: None,
        ack_crc: 0,
    }
}

/// The acknowledgement of a frame that asked for one.
pub open spec fn ack_frame_of(f: FrameInfo, p: Seq<u8>) -> FrameInfo {
    FrameInfo {
        frame_type: FrameType::Ack,
        src_addr: ack_sender(f),
        ack_crc: x25(frame_bytes(f, p)),
        ..empty_frame_info()
    }
}


/// The positions of a frame's fields, in order, and its MIC length, if
/// they all fit in the buffer.
fn frame_layout(frame: &[u8]) -> (r: Option<(usize, usize, usize, usize, usize, usize, usize, usize)>)
    requires
        frame@.len() >= 5,
    ensures
        match r {
            Some(p) => {
                &&& p.0 == pos_net(frame@)
                &&& p.1 == pos_dst(frame@)
                &&& p.2 == pos_src(frame@)
                &&& p.3 == pos_rly(frame@)
                &&& p.4 == pos_crc(frame@)
                &&& p.5 == pos_sec(frame@)
                &&& p.6 == pos_payload(frame@)
                &&& p.7 == lay_mic_len(frame@)
                &&& p.6 + p.7 <= frame@.len()
            },
            None => pos_payload(frame@) + lay_mic_len(frame@) > frame@.len(),
        },
{
    let n = frame.len();
    let msb = frame[0];
    let is_ack = msb / 16 % 4 == 2;
    let lsb: u8 = if is_ack {
        0
    } else {
        frame[1]
    };
    let has_sec = lsb / 128 % 2 == 1;
    let has_netid = lsb / 64 % 2 == 1;
    let has_rly = lsb / 16 % 2 == 1;
    let dst_len = ((msb / 4 % 4 + 1) * 2) as usize;
    let src_len = ((msb % 4 + 1) * 2) as usize;
    let rly_len = ((lsb % 4 + 1) * 2) as usize;
    let p_net: usize = if is_ack {
        1
    } else {
        2
    };
    let p_dst = p_net + if has_netid {
        2
    } else {
        0
    };
    let p_src = p_dst + if is_ack {
        0
    } else {
        dst_len
    };
    let p_rly = p_src + src_len;
    let p_crc = p_rly + if has_rly {
        rly_len
    } else {
        0
    };
    let p_sec = p_crc + if is_ack {
        2
    } else {
        0
    };
    assert(p_sec == pos_sec(frame@));
    let mut p_pay = p_sec;
    let mut mic_len: usize = 0;
    if has_sec {
        if p_sec + 5 > n {
            return None;
        }
        let scf = frame[p_sec];
        p_pay = p_sec + 5 + if scf / 8 % 4 == 1 {
            1
        } else {
            0
        };
        mic_len = ((scf / 32 % 4 + 1) * 4) as usize;
    }
    if p_pay + mic_len > n {
        return None;
    }
    Some((p_net, p_dst, p_src, p_rly, p_crc, p_sec, p_pay, mic_len))
}

impl FrameInfo {
    /// The header with everything zero or absent, of type Data.
    pub fn empty() -> (r: FrameInfo)
        ensures
            r == empty_frame_info(),
    {
        FrameInfo {
            frame_type: FrameType::Data,
            ack_requested: false,
            is_from_relay: false,
            network_id: None,
            dst_addr: HamAddr::new([0u8, 0, 0, 0, 0, 0, 0, 0]),
            src_addr: HamAddr::new([0u8, 0, 0, 0, 0, 0, 0, 0]),
            rly_addr: None,
            sec_info: None,
            ack_crc: 0,
        }
    }

    /// The first octet of the frame control field: version, type and the
    /// length codes of the destination and source addresses.
    pub fn fcf_msb(&self) -> (r: u8)
        ensures
            r == fcf_msb_of(*self),
    {
        let d = (self.dst_addr.len() / 2 - 1) as u8;
        let s = (self.src_addr.len() / 2 - 1) as u8;
        (VERSION_EXPERIMENTAL * 64) + self.frame_type.to_u8() * 16 + d * 4 + s
    }

    /// The second octet of the frame control field; Ack frames have none.
    pub fn fcf_lsb(&self) -> (r: Option<u8>)
        ensures
            self.frame_type == FrameType::Ack ==> r is None,
            self.frame_type != FrameType::Ack ==> r == Some(fcf_lsb_of(*self)),
    {
        if self.frame_type == FrameType::Ack {
            return None;
        }
        let rly = match self.rly_addr {
            Some(a) => (a.len() / 2 - 1) as u8,
            None => 0u8,
        };
        Some(
            (if self.sec_info.is_some() { 128u8 } else { 0u8 }) + (if self.network_id.is_some() {
                64u8
            } else {
                0u8
            }) + (if self.ack_requested { 32u8 } else { 0u8 }) + (if self.rly_addr.is_some() {
                16u8
            } else {
                0u8
            }) + (if self.is_from_relay { 8u8 } else { 0u8 }) + rly,
        )
    }

    /// The frame's octets: header, payload and MIC. An Ack frame carries
    /// no payload.
    pub fn bytes_with_payload(&self, payload: &[u8]) -> (r: Vec<u8>)
        requires
            self.frame_type == FrameType::Ack ==> payload@.len() == 0,
        ensures
            r@ == frame_bytes(*self, payload@),
    {
        reveal(frame_bytes);
        let mut out: Vec<u8> = Vec::new();
        out.push(self.fcf_msb());
        if self.frame_type == FrameType::Ack {
            push_all(&mut out, self.src_addr.as_trimmed_slice());
            out.push((self.ack_crc / 256) as u8);
            out.push((self.ack_crc % 256) as u8);
            assert(out@ =~= frame_bytes(*self, payload@));
            return out;
        }
        match self.fcf_lsb() {
            Some(l) => out.push(l),
            None => {},
        }
        let ghost after_lsb = out@;
        if let Some(n) = self.network_id {
            out.push((n.0 / 256) as u8);
            out.push((n.0 % 256) as u8);
        }
        let ghost after_net = out@;
        assert(after_net =~= after_lsb + match self.network_id {
            Some(n) => u16_be(n.0 as int),
            None => seq![],
        });
        push_all(&mut out, self.dst_addr.as_trimmed_slice());
        push_all(&mut out, self.src_addr.as_trimmed_slice());
        let ghost after_src = out@;
        if let Some(a) = self.rly_addr {
            push_all(&mut out, a.as_trimmed_slice());
        }
        let ghost after_rly = out@;
        assert(after_rly =~= after_src + match self.rly_addr {
            Some(a) => trimmed(a),
            None => seq![],
        });
        if let Some(si) = self.sec_info {
            let h = si.bytes();
            push_all(&mut out, h.as_slice());
        }
        let ghost after_sec = out@;
        assert(after_sec =~= after_rly + match self.sec_info {
            Some(s) => sec_header(s),
            None => seq![],
        });
        push_all(&mut out, payload);
        let ghost after_payload = out@;
        if let Some(si) = self.sec_info {
            push_all(&mut out, si.mic.as_slice());
        }
        assert(out@ =~= after_payload + match self.sec_info {
            Some(s) => mic_bytes(s.mic),
            None => seq![],
        });
        assert(out@ =~= frame_bytes(*self, payload@));
        out
    }

    /// The frame's octets, as `bytes_with_payload` gives them.
    pub fn to_vec(&self, payload: &[u8]) -> (r: Vec<u8>)
        requires
            self.frame_type == FrameType::Ack ==> payload@.len() == 0,
        ensures
            r@ == frame_bytes(*self, payload@),
    {
        self.bytes_with_payload(payload)
    }

    /// Decodes a frame into its header and payload.
    pub fn try_from_bytes(frame: &[u8]) -> (r: Result<(FrameInfo, &[u8]), ParseError>)
        ensures
            match parse_error(frame@) {
                Some(e) => r == Err::<(FrameInfo, &[u8]), ParseError>(e),
                None => (r matches Ok((f, p)) && decodes_to(frame@, f, p@)),
            },
    {
        let n = frame.len();
        if n < 5 {
            return Err(ParseError::TooShort);
        }
        let msb = frame[0];
        if msb / 64 > 1 {
            return Err(ParseError::BadVersion);
        }
        let is_ack = msb / 16 % 4 == 2;
        let lsb: u8 = if is_ack {
            0
        } else {
            frame[1]
        };
        let has_sec = lsb / 128 % 2 == 1;
        let has_netid = lsb / 64 % 2 == 1;
        let has_rly = lsb / 16 % 2 == 1;
        let dst_len = ((msb / 4 % 4 + 1) * 2) as usize;
        let src_len = ((msb % 4 + 1) * 2) as usize;
        let rly_len = ((lsb % 4 + 1) * 2) as usize;
        let pos = match frame_layout(frame) {
            Some(pos) => pos,
            None => {
                return Err(ParseError::Truncated);
            },
        };
        let (p_net, p_dst, p_src, p_rly, p_crc, p_sec) = (pos.0, pos.1, pos.2, pos.3, pos.4, pos.5);
        let (p_pay, mic_len) = (pos.6, pos.7);
        let network_id = if has_netid {
            Some(NetworkId::from_iter(vstd::slice::slice_subrange(frame, p_net, p_net + 2)))
        } else {
            None
        };
        let dst_addr = if is_ack {
            HamAddr::new([0u8; 8])
        } else {
            addr_at(frame, p_dst, dst_len)
        };
        let src_addr = addr_at(frame, p_src, src_len);
        let rly_addr = if has_rly {
            Some(addr_at(frame, p_rly, rly_len))
        } else {
            None
        };
        let ack_crc = if is_ack {
            (frame[p_crc] as u16) * 256 + frame[p_crc + 1] as u16
        } else {
            0
        };
        let sec_info = if has_sec {
            let mut si = SecInfo::from_iter(vstd::slice::slice_subrange(frame, p_sec, n));
            si.mic.code = mic_code_at(frame, mic_len);
            Some(si)
        } else {
            None
        };
        let frame_type = if msb / 16 % 4 == 0 {
            FrameType::Beacon
        } else if msb / 16 % 4 == 1 {
            FrameType::Data
        } else if is_ack {
            FrameType::Ack
        } else {
            FrameType::MacCommand
        };
        let f = FrameInfo {
            frame_type,
            ack_requested: lsb / 32 % 2 == 1,
            is_from_relay: lsb / 8 % 2 == 1,
            network_id,
            dst_addr,
            src_addr,
            rly_addr,
            sec_info,
            ack_crc,
        };
        assert(f.dst_addr.0@ =~= if lay_is_ack(frame@) {
            Seq::new(8, |i: int| 0u8)
        } else {
            padded(frame@.subrange(pos_dst(frame@), pos_dst(frame@) + lay_dst_len(frame@)))
        });
        let payload = vstd::slice::slice_subrange(frame, p_pay, n - mic_len);
        Ok((f, payload))
    }

    /// For a frame that asks for an acknowledgement, the digest of its
    /// octets and the address that acknowledges it.
    pub fn ack_calc(&self, payload: &[u8]) -> (r: Option<(u16, HamAddr)>)
        requires
            self.ack_requested && self.frame_type == FrameType::Ack ==> payload@.len() == 0,
        ensures
            self.ack_requested ==> r == Some((x25(frame_bytes(*self, payload@)), ack_sender(*self))),
            !self.ack_requested ==> r is None,
    {
        if !self.ack_requested {
            return None;
        }
        let sender = match self.rly_addr {
            Some(a) if self.is_from_relay => a,
            _ => self.dst_addr,
        };
        let bytes = self.bytes_with_payload(payload);
        Some((x25_digest(bytes.as_slice()), sender))
    }

    /// The Ack frame for a frame that asks for one: sent by `ack_sender`,
    /// carrying the frame's digest, with every other field zero or absent.
    pub fn generate_ack_frame(&self, payload: &[u8]) -> (r: Option<FrameInfo>)
        requires
            self.ack_requested && self.frame_type == FrameType::Ack ==> payload@.len() == 0,
        ensures
            self.ack_requested ==> r == Some(ack_frame_of(*self, payload@)),
            !self.ack_requested ==> r is None,
    {
        match self.ack_calc(payload) {
            Some((ack_crc, src_addr)) => {
                let e = FrameInfo::empty();
                Some(FrameInfo { frame_type: FrameType::Ack, src_addr, ack_crc, ..e })
            },
            None => None,
        }
    }
}


// ---- laws of the layout: what is written is read back ----


/// The fields packed into the first control octet come back out.
proof fn lemma_msb_fields(t: int, d: int, s: int)
    requires
        0 <= t < 4,
        0 <= d < 4,
        0 <= s < 4,
    ensures
        (t * 16 + d * 4 + s) / 64 == 0,
        (t * 16 + d * 4 + s) / 16 % 4 == t,
        (t * 16 + d * 4 + s) / 4 % 4 == d,
        (t * 16 + d * 4 + s) % 4 == s,
{
    assert((t * 16 + d * 4 + s) / 16 == t) by (nonlinear_arith)
        requires
            0 <= t < 4,
            0 <= d < 4,
            0 <= s < 4,
    ;
    assert((t * 16 + d * 4 + s) / 4 == t * 4 + d) by (nonlinear_arith)
        requires
            0 <= t < 4,
            0 <= d < 4,
            0 <= s < 4,
    ;
    assert((t * 4 + d) % 4 == d) by (nonlinear_arith)
        requires
            0 <= t < 4,
            0 <= d < 4,
    ;
    assert((t * 16 + d * 4 + s) % 4 == s) by (nonlinear_arith)
        requires
            0 <= t < 4,
            0 <= d < 4,
            0 <= s < 4,
    ;
}

/// The flags packed into the second control octet come back out.
proof fn lemma_lsb_fields(a: bool, b: bool, c: bool, d: bool, e: bool, r: int)
    requires
        0 <= r < 4,
    ensures
        ({
            let v = bit(a, 128) + bit(b, 64) + bit(c, 32) + bit(d, 16) + bit(e, 8) + r;
            &&& flag(v, 128) == a
            &&& flag(v, 64) == b
            &&& flag(v, 32) == c
            &&& flag(v, 16) == d
            &&& flag(v, 8) == e
            &&& v % 4 == r
            &&& 0 <= v < 256
        }),
{
    let v = bit(a, 128) + bit(b, 64) + bit(c, 32) + bit(d, 16) + bit(e, 8) + r;
    let x = if a { 1int } else { 0 };
    let y = if b { 1int } else { 0 };
    let z = if c { 1int } else { 0 };
    let w = if d { 1int } else { 0 };
    let u = if e { 1int } else { 0 };
    assert(v == x * 128 + y * 64 + z * 32 + w * 16 + u * 8 + r);
    assert(v / 128 == x && v / 64 == x * 2 + y && v / 32 == x * 4 + y * 2 + z && v / 16 == x * 8 + y
        * 4 + z * 2 + w && v / 8 == x * 16 + y * 8 + z * 4 + w * 2 + u && v % 4 == r) by (nonlinear_arith)
        requires
            v == x * 128 + y * 64 + z * 32 + w * 16 + u * 8 + r,
            0 <= x <= 1,
            0 <= y <= 1,
            0 <= z <= 1,
            0 <= w <= 1,
            0 <= u <= 1,
            0 <= r < 4,
    ;
}

/// The fields packed into the security control octet come back out.
proof fn lemma_scf_fields(e: bool, m: int, k: int)
    requires
        0 <= m < 4,
        0 <= k < 4,
    ensures
        ({
            let v = bit(e, 128) + m * 32 + k * 8;
            &&& flag(v, 128) == e
            &&& v / 32 % 4 == m
            &&& v / 8 % 4 == k
            &&& 0 <= v < 256
        }),
{
    let v = bit(e, 128) + m * 32 + k * 8;
    let x = if e { 1int } else { 0 };
    assert(v / 128 == x && v / 32 == x * 4 + m && v / 8 == x * 16 + m * 4 + k) by (nonlinear_arith)
        requires
            v == x * 128 + m * 32 + k * 8,
            0 <= x <= 1,
            0 <= m < 4,
            0 <= k < 4,
    ;
    assert((x * 4 + m) % 4 == m && (x * 16 + m * 4 + k) % 4 == k) by (nonlinear_arith)
        requires
            0 <= x <= 1,
            0 <= m < 4,
            0 <= k < 4,
    ;
}

/// The trimmed octets of an address, padded back, are the address; its
/// length code is below four.
proof fn lemma_trimmed_padded(a: HamAddr)
    ensures
        padded(trimmed(a)) == a.0@,
        0 <= len_code(a) < 4,
        (len_code(a) + 1) * 2 == trimmed_len(a.0@),
        trimmed(a).len() == trimmed_len(a.0@),
{
    let o = a.0@;
    assert(word(o, 3) == 0 ==> o[6] == 0 && o[7] == 0);
    assert(word(o, 2) == 0 ==> o[4] == 0 && o[5] == 0);
    assert(word(o, 1) == 0 ==> o[2] == 0 && o[3] == 0);
    assert(padded(trimmed(a)) =~= o);
}


/// Two big-endian octets read back give the value.
proof fn lemma_be16(v: int)
    requires
        0 <= v < 0x1_0000,
    ensures
        be16_at(u16_be(v), 0) == v,
{
    let s = u16_be(v);
    assert(s[0] as int == v / 256 && s[1] as int == v % 256);
}

/// Four big-endian octets read back give the value.
proof fn lemma_be32(v: int)
    requires
        0 <= v < 0x1_0000_0000,
    ensures
        be32_at(u32_be(v), 0) == v,
{
    let s = u32_be(v);
    assert(v / 0x100_0000 < 256) by (nonlinear_arith)
        requires
            0 <= v < 0x1_0000_0000,
    ;
    assert(s[0] as int == v / 0x100_0000 && s[1] as int == v / 0x1_0000 % 256 && s[2] as int == v
        / 256 % 256 && s[3] as int == v % 256);
    assert((v / 0x100_0000) * 0x100_0000 + (v / 0x1_0000 % 256) * 0x1_0000 + (v / 256 % 256) * 256 + v
        % 256 == v) by (nonlinear_arith)
        requires
            0 <= v,
    ;
}

/// A slice of a concatenation that lies in its right part.
proof fn lemma_subrange_right(x: Seq<u8>, y: Seq<u8>, i: int, j: int)
    requires
        x.len() <= i <= j <= x.len() + y.len(),
    ensures
        (x + y).subrange(i, j) == y.subrange(i - x.len(), j - x.len()),
{
    assert((x + y).subrange(i, j) =~= y.subrange(i - x.len(), j - x.len()));
}

/// A slice of a concatenation that lies in its left part.
proof fn lemma_subrange_left(x: Seq<u8>, y: Seq<u8>, i: int, j: int)
    requires
        0 <= i <= j <= x.len(),
    ensures
        (x + y).subrange(i, j) == x.subrange(i, j),
{
    assert((x + y).subrange(i, j) =~= x.subrange(i, j));
}

/// Serialising a header that the layout can carry, with a payload (none
/// for an Ack frame), gives octets that parse without error back to that
/// header and payload.
pub proof fn lemma_frame_round_trip(f: FrameInfo, p: Seq<u8>)
    requires
        f.frame_type == FrameType::Ack,
        frame_info_valid(f),
        f.frame_type == FrameType::Ack ==> p.len() == 0,
    ensures
        parse_error(frame_bytes(f, p)) is None,
        decodes_to(frame_bytes(f, p), f, p),
        forall|g: FrameInfo, q: Seq<u8>| #[trigger]
            decodes_to(frame_bytes(f, p), g, q) ==> g == f && q == p,
{
    assert forall|g: FrameInfo, q: Seq<u8>| #[trigger]
        decodes_to(frame_bytes(f, p), g, q) implies g == f && q == p by {
        if f.frame_type == FrameType::Ack {
            lemma_ack_round_trip(f, p);
        } else {
            lemma_data_parses(f, p);
            lemma_data_header(f, p);
            lemma_data_rest(f, p);
        }
        lemma_decodes_unique(frame_bytes(f, p), f, p, g, q);
    }
    if f.frame_type == FrameType::Ack {
        lemma_ack_round_trip(f, p);
    } else {
        lemma_data_parses(f, p);
        lemma_data_header(f, p);
        lemma_data_rest(f, p);
    }
}

/// The round trip for an Ack frame.
proof fn lemma_ack_round_trip(f: FrameInfo, p: Seq<u8>)
    requires
        frame_info_valid(f),
        f.frame_type == FrameType::Ack,
        p.len() == 0,
    ensures
        parse_error(frame_bytes(f, p)) is None,
        decodes_to(frame_bytes(f, p), f, p),
{
    let b = frame_bytes(f, p);
    lemma_trimmed_padded(f.dst_addr);
    lemma_trimmed_padded(f.src_addr);
    let tc = frame_type_code(f.frame_type);
    lemma_msb_fields(tc, len_code(f.dst_addr), len_code(f.src_addr));
    let msb = fcf_msb_of(f);
    assert(msb as int == tc * 16 + len_code(f.dst_addr) * 4 + len_code(f.src_addr));
    let src = trimmed(f.src_addr);
    let sl = src.len() as int;
    let h = seq![msb] + src;
    let crc = u16_be(f.ack_crc as int);
    assert(b == h + crc) by {
        reveal(frame_bytes);
    }
    assert(b[0] == msb);
    assert(lay_is_ack(b));
    assert(lay_lsb(b) == 0);
    assert(pos_src(b) == 1);
    assert(pos_crc(b) == 1 + sl);
    assert(pos_payload(b) == 3 + sl);
    assert(lay_mic_len(b) == 0);
    lemma_subrange_left(h, crc, 1, 1 + sl);
    lemma_subrange_right(seq![msb], src, 1, 1 + sl);
    assert(src.subrange(0, sl) =~= src);
    assert(b.subrange(pos_src(b), pos_src(b) + lay_src_len(b)) == src);
    lemma_be16(f.ack_crc as int);
    assert(b[1 + sl] == crc[0] && b[2 + sl] == crc[1]);
    assert(f.dst_addr.0@ =~= Seq::new(8, |i: int| 0u8)) by {
        let o = f.dst_addr.0@;
        assert(word(o, 3) == 0 ==> o[6] == 0 && o[7] == 0);
        assert(word(o, 2) == 0 ==> o[4] == 0 && o[5] == 0);
        assert(word(o, 1) == 0 ==> o[2] == 0 && o[3] == 0);
    }
    assert(b.subrange(pos_payload(b), b.len() - lay_mic_len(b)) =~= p);
}

/// Where each part of a buffer made of consecutive parts lies.
proof fn lemma_parts(
    h0: Seq<u8>,
    net: Seq<u8>,
    dst: Seq<u8>,
    src: Seq<u8>,
    rly: Seq<u8>,
    sec: Seq<u8>,
    p: Seq<u8>,
    mic: Seq<u8>,
)
    requires
        h0.len() == 2,
    ensures
        ({
            let b = h0 + net + dst + src + rly + sec + p + mic;
            let a1 = 2 + net.len() as int;
            let a2 = a1 + dst.len() as int;
            let a3 = a2 + src.len() as int;
            let a4 = a3 + rly.len() as int;
            let a5 = a4 + sec.len() as int;
            let a6 = a5 + p.len() as int;
            &&& b.len() == a6 + mic.len()
            &&& b[0] == h0[0]
            &&& b[1] == h0[1]
            &&& b.subrange(2, a1) == net
            &&& b.subrange(a1, a2) == dst
            &&& b.subrange(a2, a3) == src
            &&& b.subrange(a3, a4) == rly
            &&& b.subrange(a4, a5) == sec
            &&& b.subrange(a5, a6) == p
            &&& b.subrange(a6, b.len() as int) == mic
        }),
{
    let b = h0 + net + dst + src + rly + sec + p + mic;
    let a1 = 2 + net.len() as int;
    let a2 = a1 + dst.len() as int;
    let a3 = a2 + src.len() as int;
    let a4 = a3 + rly.len() as int;
    let a5 = a4 + sec.len() as int;
    let a6 = a5 + p.len() as int;
    assert(b.subrange(2, a1) =~= net);
    assert(b.subrange(a1, a2) =~= dst);
    assert(b.subrange(a2, a3) =~= src);
    assert(b.subrange(a3, a4) =~= rly);
    assert(b.subrange(a4, a5) =~= sec);
    assert(b.subrange(a5, a6) =~= p);
    assert(b.subrange(a6, b.len() as int) =~= mic);
}

/// A security header and MIC placed where the control field says are
/// read back.
proof fn lemma_sec_read_back(b: Seq<u8>, s: SecInfo, q: int)
    requires
        sec_info_valid(s),
        flag(lay_lsb(b), 128),
        pos_sec(b) == q,
        0 <= q,
        q + sec_header(s).len() + mic_bytes(s.mic).len() <= b.len(),
        b.subrange(q, q + sec_header(s).len()) == sec_header(s),
        b.subrange(b.len() - mic_bytes(s.mic).len(), b.len() as int) == mic_bytes(s.mic),
    ensures
        sec_decodes(b, s),
        pos_payload(b) == q + sec_header(s).len(),
        lay_mic_len(b) == mic_bytes(s.mic).len(),
{
    let h = sec_header(s);
    lemma_scf_fields(s.enc, mic_len_code(s.mic.len), kim_code(s.kim));
    lemma_be32(s.fcntr as int);
    assert(b[q] == h[0] && b[q + 1] == h[1] && b[q + 2] == h[2] && b[q + 3] == h[3] && b[q + 4]
        == h[4]);
    if s.kid is Some {
        assert(b[q + 5] == h[5]);
    }
    let mic = mic_bytes(s.mic);
    assert(s.mic.code@ =~= mic + Seq::new((16 - mic.len()) as nat, |i: int| 0u8));
}

/// A frame of any other type parses without error.
#[verifier::rlimit(100)]
proof fn lemma_data_parses(f: FrameInfo, p: Seq<u8>)
    requires
        frame_info_valid(f),
        f.frame_type != FrameType::Ack,
    ensures
        parse_error(frame_bytes(f, p)) is None,
{
    let b = frame_bytes(f, p);
    lemma_trimmed_padded(f.dst_addr);
    lemma_trimmed_padded(f.src_addr);
    let tc = frame_type_code(f.frame_type);
    lemma_msb_fields(tc, len_code(f.dst_addr), len_code(f.src_addr));
    let msb = fcf_msb_of(f);
    let lsb = fcf_lsb_of(f);
    assert(msb as int == tc * 16 + len_code(f.dst_addr) * 4 + len_code(f.src_addr));
    let rc = match f.rly_addr {
        Some(a) => len_code(a),
        None => 0,
    };
    match f.rly_addr {
        Some(a) => {
            lemma_trimmed_padded(a);
        },
        None => {},
    }
    lemma_lsb_fields(
        f.sec_info is Some,
        f.network_id is Some,
        f.ack_requested,
        f.rly_addr is Some,
        f.is_from_relay,
        rc,
    );
    assert(lsb as int == bit(f.sec_info is Some, 128) + bit(f.network_id is Some, 64) + bit(
        f.ack_requested,
        32,
    ) + bit(f.rly_addr is Some, 16) + bit(f.is_from_relay, 8) + rc);
    let net = match f.network_id {
        Some(n) => u16_be(n.0 as int),
        None => seq![],
    };
    let dst = trimmed(f.dst_addr);
    let src = trimmed(f.src_addr);
    let rly = match f.rly_addr {
        Some(a) => trimmed(a),
        None => seq![],
    };
    let sec = match f.sec_info {
        Some(s) => sec_header(s),
        None => seq![],
    };
    let mic = match f.sec_info {
        Some(s) => mic_bytes(s.mic),
        None => seq![],
    };
    let h0 = seq![msb, lsb];
    assert(b == h0 + net + dst + src + rly + sec + p + mic) by {
        reveal(frame_bytes);
    }
    lemma_parts(h0, net, dst, src, rly, sec, p, mic);
    let a1 = 2 + net.len() as int;
    let a2 = a1 + dst.len() as int;
    let a3 = a2 + src.len() as int;
    let a4 = a3 + rly.len() as int;
    let a5 = a4 + sec.len() as int;
    let a6 = a5 + p.len() as int;
    assert(!lay_is_ack(b));
    assert(lay_lsb(b) == lsb as int);
    assert(pos_dst(b) == a1);
    assert(pos_src(b) == a2);
    assert(pos_rly(b) == a3);
    assert(pos_sec(b) == a4);
    match f.sec_info {
        Some(s) => {
            lemma_sec_read_back(b, s, a4);
        },
        None => {},
    }
    assert(pos_payload(b) == a5);
    assert(lay_mic_len(b) == mic.len());
    assert(b.len() >= 5);
    assert(b[0] == msb);
    assert(b[0] / 64 <= 1);
    assert(pos_payload(b) + lay_mic_len(b) <= b.len());
}

/// The header half of the round trip for a frame of any other type.
#[verifier::rlimit(100)]
proof fn lemma_data_header(f: FrameInfo, p: Seq<u8>)
    requires
        frame_info_valid(f),
        f.frame_type != FrameType::Ack,
    ensures
        decodes_header(frame_bytes(f, p), f),
{
    let b = frame_bytes(f, p);
    lemma_trimmed_padded(f.dst_addr);
    lemma_trimmed_padded(f.src_addr);
    let tc = frame_type_code(f.frame_type);
    lemma_msb_fields(tc, len_code(f.dst_addr), len_code(f.src_addr));
    let msb = fcf_msb_of(f);
    let lsb = fcf_lsb_of(f);
    assert(msb as int == tc * 16 + len_code(f.dst_addr) * 4 + len_code(f.src_addr));
    let rc = match f.rly_addr {
        Some(a) => len_code(a),
        None => 0,
    };
    match f.rly_addr {
        Some(a) => {
            lemma_trimmed_padded(a);
        },
        None => {},
    }
    lemma_lsb_fields(
        f.sec_info is Some,
        f.network_id is Some,
        f.ack_requested,
        f.rly_addr is Some,
        f.is_from_relay,
        rc,
    );
    assert(lsb as int == bit(f.sec_info is Some, 128) + bit(f.network_id is Some, 64) + bit(
        f.ack_requested,
        32,
    ) + bit(f.rly_addr is Some, 16) + bit(f.is_from_relay, 8) + rc);
    let net = match f.network_id {
        Some(n) => u16_be(n.0 as int),
        None => seq![],
    };
    let dst = trimmed(f.dst_addr);
    let src = trimmed(f.src_addr);
    let rly = match f.rly_addr {
        Some(a) => trimmed(a),
        None => seq![],
    };
    let sec = match f.sec_info {
        Some(s) => sec_header(s),
        None => seq![],
    };
    let mic = match f.sec_info {
        Some(s) => mic_bytes(s.mic),
        None => seq![],
    };
    let h0 = seq![msb, lsb];
    assert(b == h0 + net + dst + src + rly + sec + p + mic) by {
        reveal(frame_bytes);
    }
    lemma_parts(h0, net, dst, src, rly, sec, p, mic);
    let a1 = 2 + net.len() as int;
    let a2 = a1 + dst.len() as int;
    let a3 = a2 + src.len() as int;
    let a4 = a3 + rly.len() as int;
    let a5 = a4 + sec.len() as int;
    let a6 = a5 + p.len() as int;
    assert(!lay_is_ack(b));
    assert(lay_lsb(b) == lsb as int);
    assert(pos_dst(b) == a1);
    assert(pos_src(b) == a2);
    assert(pos_rly(b) == a3);
    assert(pos_sec(b) == a4);
    if f.network_id is Some {
        lemma_be16(f.network_id->Some_0.0 as int);
        assert(b[2] == net[0] && b[3] == net[1]);
    }
}

/// The second half of the round trip for a frame of any other type.
#[verifier::rlimit(100)]
proof fn lemma_data_rest(f: FrameInfo, p: Seq<u8>)
    requires
        frame_info_valid(f),
        f.frame_type != FrameType::Ack,
    ensures
        decodes_rest(frame_bytes(f, p), f, p),
{
    let b = frame_bytes(f, p);
    lemma_trimmed_padded(f.dst_addr);
    lemma_trimmed_padded(f.src_addr);
    let tc = frame_type_code(f.frame_type);
    lemma_msb_fields(tc, len_code(f.dst_addr), len_code(f.src_addr));
    let msb = fcf_msb_of(f);
    let lsb = fcf_lsb_of(f);
    assert(msb as int == tc * 16 + len_code(f.dst_addr) * 4 + len_code(f.src_addr));
    let rc = match f.rly_addr {
        Some(a) => len_code(a),
        None => 0,
    };
    match f.rly_addr {
        Some(a) => {
            lemma_trimmed_padded(a);
        },
        None => {},
    }
    lemma_lsb_fields(
        f.sec_info is Some,
        f.network_id is Some,
        f.ack_requested,
        f.rly_addr is Some,
        f.is_from_relay,
        rc,
    );
    assert(lsb as int == bit(f.sec_info is Some, 128) + bit(f.network_id is Some, 64) + bit(
        f.ack_requested,
        32,
    ) + bit(f.rly_addr is Some, 16) + bit(f.is_from_relay, 8) + rc);
    let net = match f.network_id {
        Some(n) => u16_be(n.0 as int),
        None => seq![],
    };
    let dst = trimmed(f.dst_addr);
    let src = trimmed(f.src_addr);
    let rly = match f.rly_addr {
        Some(a) => trimmed(a),
        None => seq![],
    };
    let sec = match f.sec_info {
        Some(s) => sec_header(s),
        None => seq![],
    };
    let mic = match f.sec_info {
        Some(s) => mic_bytes(s.mic),
        None => seq![],
    };
    let h0 = seq![msb, lsb];
    assert(b == h0 + net + dst + src + rly + sec + p + mic) by {
        reveal(frame_bytes);
    }
    lemma_parts(h0, net, dst, src, rly, sec, p, mic);
    let a1 = 2 + net.len() as int;
    let a2 = a1 + dst.len() as int;
    let a3 = a2 + src.len() as int;
    let a4 = a3 + rly.len() as int;
    let a5 = a4 + sec.len() as int;
    let a6 = a5 + p.len() as int;
    assert(!lay_is_ack(b));
    assert(lay_lsb(b) == lsb as int);
    assert(pos_dst(b) == a1);
    assert(pos_src(b) == a2);
    assert(pos_rly(b) == a3);
    assert(pos_sec(b) == a4);
    match f.sec_info {
        Some(s) => {
            lemma_sec_read_back(b, s, a4);
        },
        None => {},
    }
    assert(pos_payload(b) == a5);
    assert(lay_mic_len(b) == mic.len());
}

/// A buffer decodes to at most one header and payload.
pub proof fn lemma_decodes_unique(b: Seq<u8>, f1: FrameInfo, q1: Seq<u8>, f2: FrameInfo, q2: Seq<u8>)
    requires
        decodes_to(b, f1, q1),
        decodes_to(b, f2, q2),
    ensures
        f1 == f2,
        q1 == q2,
{
    broadcast use vstd::array::axiom_array_ext_equal;

    assert(f1.dst_addr.0 =~= f2.dst_addr.0);
    assert(f1.src_addr.0 =~= f2.src_addr.0);
    if f1.rly_addr is Some {
        assert(f1.rly_addr->Some_0.0 =~= f2.rly_addr->Some_0.0);
    }
    if f1.sec_info is Some {
        assert(f1.sec_info->Some_0.mic.code =~= f2.sec_info->Some_0.mic.code);
    }
}

} // verus!
