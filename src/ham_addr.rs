//! ARNCE addresses: eight octets holding four big-endian 16-bit chunks.
use vstd::prelude::*;
use crate::error::AddrError;
use crate::ham_char::{char_index, chunk_value, index_char, HamChar};

verus! {

/// The kinds of address that a `HamAddr` can hold.
#[derive(Clone, Copy, Debug, PartialEq, Eq, Hash, Structural)]
pub enum HamAddrType {
    /// All octets zero.
    Empty,
    /// A callsign.
    Callsign,
    /// An IPv4 multicast group.
    Ipv4Multicast,
    /// An IPv6 multicast group.
    Ipv6Multicast,
    /// A short address.
    Short,
    /// The broadcast address.
    Broadcast,
    /// A reserved value.
    Reserved,
}

/// An ARNCE-encoded address.
#[derive(Clone, Copy, Debug, Hash)]
pub struct HamAddr(pub [u8; 8]);

/// Eight zero octets.
pub open spec fn zero_octets() -> [u8; 8] {
    [0u8, 0, 0, 0, 0, 0, 0, 0]
}

/// Chunk `i` (0 to 3) of eight octets, read big-endian.
pub open spec fn word(o: Seq<u8>, i: int) -> int {
    o[2 * i] * 256 + o[2 * i + 1]
}

/// A chunk value that encodes three characters, the first not `NUL`.
pub open spec fn is_call_word(v: int) -> bool {
    0x0640 <= v && v < 0xFA00
}

/// Length in octets of the trimmed form of an address: up to its last
/// non-zero chunk, and at least one chunk.
pub open spec fn trimmed_len(o: Seq<u8>) -> int {
    if word(o, 3) != 0 {
        8
    } else if word(o, 2) != 0 {
        6
    } else if word(o, 1) != 0 {
        4
    } else {
        2
    }
}

/// The kind of address that eight octets hold.
pub open spec fn addr_type(o: Seq<u8>) -> HamAddrType {
    let w0 = word(o, 0);
    let w1 = word(o, 1);
    let w2 = word(o, 2);
    let w3 = word(o, 3);
    if w0 == 0 && w1 == 0 && w2 == 0 && w3 == 0 {
        HamAddrType::Empty
    } else if w0 < 0x0640 {
        if w1 == 0 && w2 == 0 && w3 == 0 {
            HamAddrType::Short
        } else {
            HamAddrType::Reserved
        }
    } else if w0 < 0xFA00 {
        if (w1 == 0 || is_call_word(w1)) && (w2 == 0 || is_call_word(w2)) && (w3 == 0
            || is_call_word(w3)) {
            HamAddrType::Callsign
        } else {
            HamAddrType::Reserved
        }
    } else if w0 == 0xFFFF && w1 == 0 && w2 == 0 && w3 == 0 {
        HamAddrType::Broadcast
    } else if o[0] == 0xFA {
        HamAddrType::Ipv6Multicast
    } else if o[0] == 0xFB {
        HamAddrType::Ipv4Multicast
    } else {
        HamAddrType::Reserved
    }
}

/// Eight octets holding the four chunks big-endian.
pub open spec fn octets_of_words(c0: int, c1: int, c2: int, c3: int) -> Seq<u8> {
    seq![
        (c0 / 256) as u8,
        (c0 % 256) as u8,
        (c1 / 256) as u8,
        (c1 % 256) as u8,
        (c2 / 256) as u8,
        (c2 % 256) as u8,
        (c3 / 256) as u8,
        (c3 % 256) as u8,
    ]
}

/// Alphabet index of character `j` of a callsign, `NUL` past its end.
pub open spec fn index_at(s: Seq<char>, j: int) -> u8 {
    if 0 <= j < s.len() {
        match char_index(s[j]) {
            Some(i) => i,
            None => 0,
        }
    } else {
        0
    }
}

/// Chunk `k` of a callsign: its characters `3k`, `3k+1` and `3k+2`.
pub open spec fn callsign_word(s: Seq<char>, k: int) -> int {
    chunk_value(index_at(s, 3 * k), index_at(s, 3 * k + 1), index_at(s, 3 * k + 2))
}

/// Whether character `j` of `s` is outside the alphabet.
pub open spec fn bad_char(s: Seq<char>, j: int) -> bool {
    char_index(s[j]) is None
}

/// The raw text forms: empty or starting with `~`.
pub open spec fn is_raw_text(s: Seq<char>) -> bool {
    s.len() == 0 || s[0] == '~'
}

/// The two spellings of the broadcast address, `~FFFF` and `~ffff`.
pub open spec fn is_broadcast_text(s: Seq<char>) -> bool {
    s == seq!['~', 'F', 'F', 'F', 'F'] || s == seq!['~', 'f', 'f', 'f', 'f']
}

/// The octets that a callsign text stands for, or the error it gives.
pub open spec fn parse_callsign(s: Seq<char>) -> Result<Seq<u8>, AddrError> {
    if is_raw_text(s) {
        if s.len() <= 1 {
            Ok(seq![0u8; 8])
        } else if is_broadcast_text(s) {
            Ok(seq![0xFFu8, 0xFF, 0, 0, 0, 0, 0, 0])
        } else {
            Err(AddrError::UnsupportedNotation)
        }
    } else if exists|j: int| 0 <= j < s.len() && j < 12 && bad_char(s, j) {
        let j = choose|j: int|
            0 <= j < s.len() && j < 12 && bad_char(s, j) && forall|i: int|
                0 <= i < j ==> !bad_char(s, i);
        Err(AddrError::InvalidCharAt(j as usize))
    } else if s.len() > 12 {
        Err(AddrError::TooLong)
    } else {
        Ok(
            octets_of_words(
                callsign_word(s, 0),
                callsign_word(s, 1),
                callsign_word(s, 2),
                callsign_word(s, 3),
            ),
        )
    }
}

/// Upper-case hexadecimal digit of a value below 16.
pub open spec fn hex_upper(d: int) -> char {
    if d < 10 {
        (48 + d) as char
    } else {
        (55 + d) as char
    }
}

/// Four upper-case hexadecimal digits of a chunk.
pub open spec fn word_hex(v: int) -> Seq<char> {
    seq![
        hex_upper(v / 4096),
        hex_upper((v / 256) % 16),
        hex_upper((v / 16) % 16),
        hex_upper(v % 16),
    ]
}

/// The first `n` chunks in hex, separated by `-`.
pub open spec fn words_hex(o: Seq<u8>, n: int) -> Seq<char>
    decreases n,
{
    if n <= 1 {
        word_hex(word(o, 0))
    } else {
        words_hex(o, n - 1) + seq!['-'] + word_hex(word(o, n - 1))
    }
}

/// The characters that a chunk of a callsign shows: up to its last
/// non-`NUL` character.
pub open spec fn chunk_text(v: int) -> Seq<char> {
    let c0 = (v / 1600 % 40) as u8;
    let c1 = (v / 40 % 40) as u8;
    let c2 = (v % 40) as u8;
    if c2 != 0 {
        seq![index_char(c0), index_char(c1), index_char(c2)]
    } else if c1 != 0 {
        seq![index_char(c0), index_char(c1)]
    } else if c0 != 0 {
        seq![index_char(c0)]
    } else {
        seq![]
    }
}

/// The human-readable text of an address: the callsign itself, `~` for the
/// empty address, and otherwise `~` followed by the trimmed hex form.
pub open spec fn display_text(o: Seq<u8>) -> Seq<char> {
    match addr_type(o) {
        HamAddrType::Empty => seq!['~'],
        HamAddrType::Callsign => chunk_text(word(o, 0)) + chunk_text(word(o, 1)) + chunk_text(
            word(o, 2),
        ) + chunk_text(word(o, 3)),
        _ => seq!['~'] + words_hex(o, trimmed_len(o) / 2),
    }
}

impl PartialEq for HamAddr {
    fn eq(&self, o: &HamAddr) -> (r: bool) {
        let r = self.0[0] == o.0[0] && self.0[1] == o.0[1] && self.0[2] == o.0[2] && self.0[3]
            == o.0[3] && self.0[4] == o.0[4] && self.0[5] == o.0[5] && self.0[6] == o.0[6]
            && self.0[7] == o.0[7];
        proof {
            if r {
                assert(self.0@ =~= o.0@);
            }
        }
        r
    }
}

impl vstd::std_specs::cmp::PartialEqSpecImpl for HamAddr {
    open spec fn obeys_eq_spec() -> bool {
        true
    }

    open spec fn eq_spec(&self, o: &HamAddr) -> bool {
        self.0@ == o.0@
    }
}

impl Eq for HamAddr {}

/// The upper-case hexadecimal digit of a value below 16.
fn hex_upper_char(d: u16) -> (c: char)
    requires
        d < 16,
    ensures
        c == hex_upper(d as int),
{
    if d < 10 {
        (48 + d as u8) as char
    } else {
        (55 + d as u8) as char
    }
}

/// Pushes the four upper-case hex digits of a chunk.
fn push_word_hex(out: &mut Vec<char>, v: u16)
    ensures
        final(out)@ == old(out)@ + word_hex(v as int),
{
    out.push(hex_upper_char(v / 4096));
    out.push(hex_upper_char((v / 256) % 16));
    out.push(hex_upper_char((v / 16) % 16));
    out.push(hex_upper_char(v % 16));
    assert(final(out)@ =~= old(out)@ + word_hex(v as int));
}

/// Pushes what a chunk of a callsign shows.
fn push_chunk_text(out: &mut Vec<char>, v: u16)
    ensures
        final(out)@ == old(out)@ + chunk_text(v as int),
{
    let h0 = HamChar::from_index((v / 1600 % 40) as u8);
    let h1 = HamChar::from_index((v / 40 % 40) as u8);
    let h2 = HamChar::from_index((v % 40) as u8);
    let ghost start = out@;
    if !h2.is_nul() {
        out.push(h0.to_char());
        out.push(h1.to_char());
        out.push(h2.to_char());
    } else if !h1.is_nul() {
        out.push(h0.to_char());
        out.push(h1.to_char());
    } else if !h0.is_nul() {
        out.push(h0.to_char());
    }
    assert(out@ =~= start + chunk_text(v as int));
}

impl HamAddr {
    /// The chunk `i` of this address.
    pub open spec fn spec_chunk(&self, i: int) -> int {
        word(self.0@, i)
    }

    /// The empty address, all octets zero.
    pub fn empty() -> (r: HamAddr)
        ensures
            r.0@ == seq![0u8; 8],
    {
        let r = HamAddr([0u8; 8]);
        assert(r.0@ =~= seq![0u8; 8]);
        r
    }

    /// The broadcast address, `FF FF 00 00 00 00 00 00`.
    pub fn broadcast() -> (r: HamAddr)
        ensures
            r.0@ == seq![0xFFu8, 0xFF, 0, 0, 0, 0, 0, 0],
    {
        let r = HamAddr([0xFF, 0xFF, 0, 0, 0, 0, 0, 0]);
        assert(r.0@ =~= seq![0xFFu8, 0xFF, 0, 0, 0, 0, 0, 0]);
        r
    }

    /// Creates an address from eight octets.
    pub fn new(octets: [u8; 8]) -> (r: HamAddr)
        ensures
            r.0 == octets,
    {
        HamAddr(octets)
    }

    /// The address of a short address value, or `None` above `0x063F`.
    pub fn try_from_shortaddr(shortaddr: u16) -> (r: Option<HamAddr>)
        requires
            shortaddr != 0,
        ensures
            shortaddr > 0x063F ==> r is None,
            shortaddr <= 0x063F ==> (r matches Some(a) && a.0@ == octets_of_words(
                shortaddr as int,
                0,
                0,
                0,
            )),
    {
        if shortaddr > 0x063F {
            return None;
        }
        let r = HamAddr([(shortaddr / 256) as u8, (shortaddr % 256) as u8, 0, 0, 0, 0, 0, 0]);
        assert(r.0@ =~= octets_of_words(shortaddr as int, 0, 0, 0));
        Some(r)
    }

    /// Creates an address from four chunks.
    pub fn from_chunks(chunks: [u16; 4]) -> (r: HamAddr)
        ensures
            r.0@ == octets_of_words(
                chunks[0] as int,
                chunks[1] as int,
                chunks[2] as int,
                chunks[3] as int,
            ),
            forall|i: int| 0 <= i < 4 ==> #[trigger] r.spec_chunk(i) == chunks[i] as int,
    {
        let r = HamAddr(
            [
                (chunks[0] / 256) as u8,
                (chunks[0] % 256) as u8,
                (chunks[1] / 256) as u8,
                (chunks[1] % 256) as u8,
                (chunks[2] / 256) as u8,
                (chunks[2] % 256) as u8,
                (chunks[3] / 256) as u8,
                (chunks[3] % 256) as u8,
            ],
        );
        assert(r.0@ =~= octets_of_words(
            chunks[0] as int,
            chunks[1] as int,
            chunks[2] as int,
            chunks[3] as int,
        ));
        r
    }

    /// Creates an address from a slice of 0 to 8 octets, of even length;
    /// the missing octets are zero.
    pub fn try_from_slice(bytes: &[u8]) -> (r: Result<HamAddr, AddrError>)
        ensures
            (bytes@.len() % 2 == 1 || bytes@.len() > 8) <==> r is Err,
            r is Err ==> r == Err::<HamAddr, AddrError>(AddrError::InvalidLength),
            r matches Ok(a) ==> a.0@ == bytes@ + Seq::new((8 - bytes@.len()) as nat, |j: int| 0u8),
    {
        if bytes.len() % 2 == 1 || bytes.len() > 8 {
            return Err(AddrError::InvalidLength);
        }
        let mut o = [0u8; 8];
        let mut i: usize = 0;
        while i < bytes.len()
            invariant
                bytes@.len() <= 8,
                i <= bytes@.len(),
                forall|j: int| 0 <= j < i ==> o[j] == bytes@[j],
                forall|j: int| i <= j < 8 ==> o[j] == 0,
            decreases bytes@.len() - i,
        {
            o[i] = bytes[i];
            i += 1;
        }
        let r = HamAddr(o);
        assert(r.0@ =~= bytes@ + Seq::new((8 - bytes@.len()) as nat, |j: int| 0u8));
        Ok(r)
    }

    /// Parses a callsign of up to twelve characters from the callsign
    /// alphabet (in either case), or one of the raw forms `""`, `"~"`
    /// (empty) and `"~FFFF"`, `"~ffff"` (broadcast).
    pub fn try_from_callsign(callsign: &str) -> (r: Result<HamAddr, AddrError>)
        ensures
            match parse_callsign(callsign@) {
                Ok(o) => (r matches Ok(a) && a.0@ == o),
                Err(e) => r == Err::<HamAddr, AddrError>(e),
            },
    {
        let n = callsign.unicode_len();
        if n == 0 {
            return Ok(HamAddr::empty());
        }
        if callsign.get_char(0) == '~' {
            if n == 1 {
                return Ok(HamAddr::empty());
            }
            if n == 5 {
                let c1 = callsign.get_char(1);
                let c2 = callsign.get_char(2);
                let c3 = callsign.get_char(3);
                let c4 = callsign.get_char(4);
                if (c1 == 'F' && c2 == 'F' && c3 == 'F' && c4 == 'F') || (c1 == 'f' && c2 == 'f'
                    && c3 == 'f' && c4 == 'f') {
                    assert(is_broadcast_text(callsign@)) by {
                        if c1 == 'F' {
                            assert(callsign@ =~= seq!['~', 'F', 'F', 'F', 'F']);
                        } else {
                            assert(callsign@ =~= seq!['~', 'f', 'f', 'f', 'f']);
                        }
                    }
                    return Ok(HamAddr::broadcast());
                }
            }
            return Err(AddrError::UnsupportedNotation);
        }
        let ghost s = callsign@;
        let mut idx: Vec<u8> = Vec::new();
        let mut i: usize = 0;
        while i < n && i < 12
            invariant
                s == callsign@,
                !is_raw_text(s),
                n == s.len(),
                i <= n,
                i <= 12,
                idx@.len() == i,
                forall|j: int| 0 <= j < i ==> !bad_char(s, j),
                forall|j: int| 0 <= j < i ==> #[trigger] idx@[j] == index_at(s, j),
                forall|j: int| 0 <= j < i ==> idx@[j] < 40,
            decreases n - i,
        {
            match HamChar::from_char(callsign.get_char(i)) {
                Some(h) => {
                    idx.push(h.index());
                },
                None => {
                    assert(bad_char(s, i as int));
                    assert(parse_callsign(s) == Err::<Seq<u8>, AddrError>(
                        AddrError::InvalidCharAt(i),
                    )) by {
                        let ii = i as int;
                        assert(!is_raw_text(s));
                        assert(0 <= ii < s.len() && ii < 12 && bad_char(s, ii) && forall|k: int|
                            0 <= k < ii ==> !bad_char(s, k));
                        let j = choose|j: int|
                            0 <= j < s.len() && j < 12 && bad_char(s, j) && forall|k: int|
                                0 <= k < j ==> !bad_char(s, k);
                        if j < ii {
                            assert(!bad_char(s, j));
                        }
                        if j > ii {
                            assert(!bad_char(s, ii));
                        }
                        assert(j == ii);
                    }
                    return Err(AddrError::InvalidCharAt(i));
                },
            }
            i += 1;
        }
        if n > 12 {
            return Err(AddrError::TooLong);
        }
        while idx.len() < 12
            invariant
                s == callsign@,
                !is_raw_text(s),
                forall|j: int| 0 <= j < s.len() ==> !bad_char(s, j),
                n == s.len(),
                n <= idx@.len() <= 12,
                forall|j: int| 0 <= j < idx@.len() ==> #[trigger] idx@[j] == index_at(s, j),
                forall|j: int| 0 <= j < idx@.len() ==> idx@[j] < 40,
            decreases 12 - idx@.len(),
        {
            idx.push(0);
        }
        let mut chunks = [0u16; 4];
        let mut k: usize = 0;
        while k < 4
            invariant
                s == callsign@,
                !is_raw_text(s),
                forall|j: int| 0 <= j < s.len() ==> !bad_char(s, j),
                s.len() <= 12,
                idx@.len() == 12,
                k <= 4,
                forall|j: int| 0 <= j < 12 ==> #[trigger] idx@[j] == index_at(s, j),
                forall|j: int| 0 <= j < 12 ==> idx@[j] < 40,
                forall|j: int| 0 <= j < k ==> chunks[j] as int == callsign_word(s, j),
            decreases 4 - k,
        {
            let a = idx[3 * k] as u16;
            let b = idx[3 * k + 1] as u16;
            let c = idx[3 * k + 2] as u16;
            chunks[k] = a * 1600 + b * 40 + c;
            k += 1;
        }
        Ok(HamAddr::from_chunks(chunks))
    }

    /// The value of this address as a short address, if it is one.
    pub fn shortaddr(&self) -> (r: Option<u16>)
        ensures
            addr_type(self.0@) == HamAddrType::Short ==> r == Some(self.spec_chunk(0) as u16),
            addr_type(self.0@) != HamAddrType::Short ==> r is None,
    {
        match self.get_type() {
            HamAddrType::Short => Some(self.chunk(0)),
            _ => None,
        }
    }

    /// The eight octets.
    pub fn octets(&self) -> (r: [u8; 8])
        ensures
            r == self.0,
    {
        self.0
    }

    /// The eight octets as a slice.
    pub fn as_slice(&self) -> (r: &[u8])
        ensures
            r@ == self.0@,
    {
        self.0.as_slice()
    }

    /// The trimmed octets: 2, 4, 6 or 8 of them.
    pub fn as_trimmed_slice(&self) -> (r: &[u8])
        ensures
            r@ == self.0@.subrange(0, trimmed_len(self.0@)),
    {
        let n = self.len();
        slice_prefix(self.0.as_slice(), n)
    }

    /// Length in octets of the trimmed form.
    pub fn len(&self) -> (r: usize)
        ensures
            r as int == trimmed_len(self.0@),
    {
        if self.chunk(3) != 0 {
            8
        } else if self.chunk(2) != 0 {
            6
        } else if self.chunk(1) != 0 {
            4
        } else {
            2
        }
    }

    /// Chunk `i` of this address.
    pub fn chunk(&self, i: usize) -> (r: u16)
        requires
            i < 4,
        ensures
            r as int == self.spec_chunk(i as int),
    {
        (self.0[i * 2] as u16) * 256 + (self.0[i * 2 + 1] as u16)
    }

    /// The four chunks.
    pub fn chunks(&self) -> (r: [u16; 4])
        ensures
            forall|i: int| 0 <= i < 4 ==> r[i] as int == #[trigger] self.spec_chunk(i),
    {
        [self.chunk(0), self.chunk(1), self.chunk(2), self.chunk(3)]
    }

    /// Whether this is the empty address.
    pub fn is_empty(&self) -> (r: bool)
        ensures
            r == (addr_type(self.0@) == HamAddrType::Empty),
    {
        self.chunk(0) == 0 && self.chunk(1) == 0 && self.chunk(2) == 0 && self.chunk(3) == 0
    }

    /// Whether this is a callsign.
    pub fn is_callsign(&self) -> (r: bool)
        ensures
            r == (addr_type(self.0@) == HamAddrType::Callsign),
    {
        match self.get_type() {
            HamAddrType::Callsign => true,
            _ => false,
        }
    }

    /// Whether this is a unicast address: a callsign or a short address.
    pub fn is_unicast(&self) -> (r: bool)
        ensures
            r == (addr_type(self.0@) == HamAddrType::Callsign || addr_type(self.0@)
                == HamAddrType::Short),
    {
        match self.get_type() {
            HamAddrType::Callsign | HamAddrType::Short => true,
            _ => false,
        }
    }

    /// Whether this is the broadcast address.
    pub fn is_broadcast(&self) -> (r: bool)
        ensures
            r == (addr_type(self.0@) == HamAddrType::Broadcast),
    {
        self.chunk(0) == 0xFFFF && self.chunk(1) == 0 && self.chunk(2) == 0 && self.chunk(3) == 0
    }

    /// Whether this is a reserved value.
    pub fn is_reserved(&self) -> (r: bool)
        ensures
            r == (addr_type(self.0@) == HamAddrType::Reserved),
    {
        match self.get_type() {
            HamAddrType::Reserved => true,
            _ => false,
        }
    }

    /// Whether this is an IPv4 or IPv6 multicast address.
    pub fn is_multicast(&self) -> (r: bool)
        ensures
            r == (addr_type(self.0@) == HamAddrType::Ipv4Multicast || addr_type(self.0@)
                == HamAddrType::Ipv6Multicast),
    {
        match self.get_type() {
            HamAddrType::Ipv4Multicast | HamAddrType::Ipv6Multicast => true,
            _ => false,
        }
    }

    /// Whether this is a multicast or the broadcast address.
    pub fn is_multicast_or_broadcast(&self) -> (r: bool)
        ensures
            r == (addr_type(self.0@) == HamAddrType::Ipv4Multicast || addr_type(self.0@)
                == HamAddrType::Ipv6Multicast || addr_type(self.0@) == HamAddrType::Broadcast),
    {
        match self.get_type() {
            HamAddrType::Ipv4Multicast | HamAddrType::Ipv6Multicast | HamAddrType::Broadcast => {
                true
            },
            _ => false,
        }
    }

    /// The kind of this address.
    pub fn get_type(&self) -> (r: HamAddrType)
        ensures
            r == addr_type(self.0@),
    {
        let w0 = self.chunk(0);
        let w1 = self.chunk(1);
        let w2 = self.chunk(2);
        let w3 = self.chunk(3);
        if w0 == 0 && w1 == 0 && w2 == 0 && w3 == 0 {
            HamAddrType::Empty
        } else if w0 < 0x0640 {
            if w1 == 0 && w2 == 0 && w3 == 0 {
                HamAddrType::Short
            } else {
                HamAddrType::Reserved
            }
        } else if w0 < 0xFA00 {
            if w1 != 0 && (w1 < 0x0640 || w1 >= 0xFA00) {
                return HamAddrType::Reserved;
            }
            if w2 != 0 && (w2 < 0x0640 || w2 >= 0xFA00) {
                return HamAddrType::Reserved;
            }
            if w3 != 0 && (w3 < 0x0640 || w3 >= 0xFA00) {
                return HamAddrType::Reserved;
            }
            HamAddrType::Callsign
        } else if w0 == 0xFFFF && w1 == 0 && w2 == 0 && w3 == 0 {
            HamAddrType::Broadcast
        } else if self.0[0] == 0xFA {
            HamAddrType::Ipv6Multicast
        } else if self.0[0] == 0xFB {
            HamAddrType::Ipv4Multicast
        } else {
            HamAddrType::Reserved
        }
    }

    /// The trimmed hex form, such as `5CAC-70F8`.
    pub fn to_addr_string(&self) -> (r: String)
        ensures
            r@ == words_hex(self.0@, trimmed_len(self.0@) / 2),
    {
        let n = self.len() / 2;
        crate::text::string_from_chars(&self.hex_chars(n))
    }

    /// The full hex form of all four chunks, such as `5CAC-70F8-0000-0000`.
    pub fn to_full_addr_string(&self) -> (r: String)
        ensures
            r@ == words_hex(self.0@, 4),
    {
        crate::text::string_from_chars(&self.hex_chars(4))
    }

    /// The first `n` chunks in hex, separated by `-`.
    fn hex_chars(&self, n: usize) -> (r: Vec<char>)
        requires
            1 <= n <= 4,
        ensures
            r@ == words_hex(self.0@, n as int),
    {
        let mut out: Vec<char> = Vec::new();
        push_word_hex(&mut out, self.chunk(0));
        let mut k: usize = 1;
        while k < n
            invariant
                1 <= k <= n,
                n <= 4,
                out@ == words_hex(self.0@, k as int),
            decreases n - k,
        {
            out.push('-');
            push_word_hex(&mut out, self.chunk(k));
            k += 1;
        }
        out
    }

    /// The human-readable text: a callsign as its characters, the empty
    /// address as `~`, anything else as `~` and the trimmed hex form.
    pub fn to_string(&self) -> (r: String)
        ensures
            r@ == display_text(self.0@),
    {
        let mut out: Vec<char> = Vec::new();
        match self.get_type() {
            HamAddrType::Empty => {
                out.push('~');
                assert(out@ =~= seq!['~']);
            },
            HamAddrType::Callsign => {
                push_chunk_text(&mut out, self.chunk(0));
                push_chunk_text(&mut out, self.chunk(1));
                push_chunk_text(&mut out, self.chunk(2));
                push_chunk_text(&mut out, self.chunk(3));
                assert(out@ =~= display_text(self.0@));
            },
            _ => {
                out.push('~');
                let h = self.hex_chars(self.len() / 2);
                let mut i: usize = 0;
                while i < h.len()
                    invariant
                        i <= h@.len(),
                        out@ == seq!['~'] + h@.subrange(0, i as int),
                    decreases h@.len() - i,
                {
                    out.push(h[i]);
                    assert(out@ =~= seq!['~'] + h@.subrange(0, i as int + 1));
                    i += 1;
                }
                assert(h@.subrange(0, h@.len() as int) =~= h@);
            },
        }
        crate::text::string_from_chars(&out)
    }
}

/// The first `n` elements of a slice.
fn slice_prefix(s: &[u8], n: usize) -> (r: &[u8])
    requires
        n <= s@.len(),
    ensures
        r@ == s@.subrange(0, n as int),
{
    vstd::slice::slice_subrange(s, 0, n)
}


/// A text in which no character is `NUL`.
pub open spec fn has_no_nul(s: Seq<char>) -> bool {
    forall|j: int| 0 <= j < s.len() ==> s[j] != '\0'
}

/// A callsign's characters as the alphabet shows them (letters upper-case).
pub open spec fn upper_text(s: Seq<char>) -> Seq<char> {
    Seq::new(s.len(), |j: int| index_char(index_at(s, j)))
}

/// A non-`NUL` symbol shows as a character that reads back as itself.
proof fn lemma_index_char_back(i: u8)
    requires
        1 <= i < 40,
    ensures
        char_index(index_char(i)) == Some(i),
        index_char(i) != '~',
{
}

/// A character of the alphabet other than `NUL` has a non-zero index.
proof fn lemma_char_index_nonzero(c: char)
    requires
        char_index(c) is Some,
        c != '\0',
    ensures
        char_index(c)->Some_0 >= 1,
        char_index(c)->Some_0 < 40,
{
}

/// The three symbols of a chunk value come back out of it.
proof fn lemma_chunk_digits(c0: int, c1: int, c2: int)
    requires
        0 <= c0 < 40,
        0 <= c1 < 40,
        0 <= c2 < 40,
    ensures
        (c0 * 1600 + c1 * 40 + c2) / 1600 % 40 == c0,
        (c0 * 1600 + c1 * 40 + c2) / 40 % 40 == c1,
        (c0 * 1600 + c1 * 40 + c2) % 40 == c2,
        0 <= c0 * 1600 + c1 * 40 + c2 <= 0xF9FF,
        c0 >= 1 ==> c0 * 1600 + c1 * 40 + c2 >= 0x0640,
{
    assert((c0 * 1600 + c1 * 40 + c2) / 1600 == c0) by (nonlinear_arith)
        requires
            0 <= c0 < 40,
            0 <= c1 < 40,
            0 <= c2 < 40,
    ;
    assert((c0 * 1600 + c1 * 40 + c2) / 40 == c0 * 40 + c1) by (nonlinear_arith)
        requires
            0 <= c0 < 40,
            0 <= c1 < 40,
            0 <= c2 < 40,
    ;
    assert((c0 * 40 + c1) % 40 == c1) by (nonlinear_arith)
        requires
            0 <= c0 < 40,
            0 <= c1 < 40,
    ;
    assert((c0 * 1600 + c1 * 40 + c2) % 40 == c2) by (nonlinear_arith)
        requires
            0 <= c0 < 40,
            0 <= c1 < 40,
            0 <= c2 < 40,
    ;
}

/// The chunks written as octets read back.
proof fn lemma_words_of_octets(w0: int, w1: int, w2: int, w3: int)
    requires
        0 <= w0 < 0x1_0000,
        0 <= w1 < 0x1_0000,
        0 <= w2 < 0x1_0000,
        0 <= w3 < 0x1_0000,
    ensures
        word(octets_of_words(w0, w1, w2, w3), 0) == w0,
        word(octets_of_words(w0, w1, w2, w3), 1) == w1,
        word(octets_of_words(w0, w1, w2, w3), 2) == w2,
        word(octets_of_words(w0, w1, w2, w3), 3) == w3,
{
}

/// What a chunk of a valid callsign without `NUL` shows is the matching
/// slice of its upper-case text.
proof fn lemma_chunk_text(s: Seq<char>, k: int)
    requires
        0 <= k < 4,
        1 <= s.len() <= 12,
        has_no_nul(s),
        forall|j: int| 0 <= j < s.len() ==> !bad_char(s, j),
    ensures
        ({
            let n = s.len() as int;
            let lo = if 3 * k < n {
                3 * k
            } else {
                n
            };
            let hi = if 3 * k + 3 < n {
                3 * k + 3
            } else {
                n
            };
            chunk_text(callsign_word(s, k)) == upper_text(s).subrange(lo, hi)
        }),
        0 <= callsign_word(s, k) <= 0xF9FF,
        callsign_word(s, k) == 0 || is_call_word(callsign_word(s, k)),
        3 * k < s.len() ==> callsign_word(s, k) != 0,
{
    let n = s.len() as int;
    let a = index_at(s, 3 * k);
    let b = index_at(s, 3 * k + 1);
    let c = index_at(s, 3 * k + 2);
    if 3 * k < n {
        assert(!bad_char(s, 3 * k));
        lemma_char_index_nonzero(s[3 * k]);
    }
    if 3 * k + 1 < n {
        assert(!bad_char(s, 3 * k + 1));
        lemma_char_index_nonzero(s[3 * k + 1]);
    }
    if 3 * k + 2 < n {
        assert(!bad_char(s, 3 * k + 2));
        lemma_char_index_nonzero(s[3 * k + 2]);
    }
    lemma_chunk_digits(a as int, b as int, c as int);
    assert(a == 0 ==> b == 0 && c == 0);
    let u = upper_text(s);
    let lo = if 3 * k < n {
        3 * k
    } else {
        n
    };
    let hi = if 3 * k + 3 < n {
        3 * k + 3
    } else {
        n
    };
    assert(chunk_text(callsign_word(s, k)) =~= u.subrange(lo, hi));
}

/// Parsing the text of a parsed callsign gives the same address, for every
/// text that parses and holds no `NUL` character.
#[verifier::rlimit(100)]
pub proof fn lemma_callsign_round_trip(s: Seq<char>)
    requires
        parse_callsign(s) is Ok,
        has_no_nul(s),
    ensures
        parse_callsign(display_text(parse_callsign(s)->Ok_0)) == parse_callsign(s),
{
    let o = parse_callsign(s)->Ok_0;
    if is_raw_text(s) {
        if s.len() <= 1 {
            assert(addr_type(o) == HamAddrType::Empty);
            assert(display_text(o) =~= seq!['~']);
        } else {
            assert(word(o, 0) == 0xFFFF && word(o, 1) == 0 && word(o, 2) == 0 && word(o, 3) == 0);
            assert(addr_type(o) == HamAddrType::Broadcast);
            assert(trimmed_len(o) == 2);
            assert(word_hex(0xFFFF) =~= seq!['F', 'F', 'F', 'F']);
            assert(display_text(o) =~= seq!['~', 'F', 'F', 'F', 'F']);
        }
    } else {
        let n = s.len() as int;
        assert forall|j: int| 0 <= j < n implies !bad_char(s, j) by {
            if bad_char(s, j) && j < 12 {
                assert(exists|i: int| 0 <= i < s.len() && i < 12 && bad_char(s, i));
            }
        }
        lemma_chunk_text(s, 0);
        lemma_chunk_text(s, 1);
        lemma_chunk_text(s, 2);
        lemma_chunk_text(s, 3);
        let w0 = callsign_word(s, 0);
        let w1 = callsign_word(s, 1);
        let w2 = callsign_word(s, 2);
        let w3 = callsign_word(s, 3);
        lemma_words_of_octets(w0, w1, w2, w3);
        assert(o == octets_of_words(w0, w1, w2, w3));
        assert(addr_type(o) == HamAddrType::Callsign);
        let u = upper_text(s);
        assert(display_text(o) =~= u);
        assert forall|j: int| 0 <= j < n implies !bad_char(u, j) && index_at(u, j) == index_at(
            s,
            j,
        ) by {
            assert(!bad_char(s, j));
            lemma_char_index_nonzero(s[j]);
            lemma_index_char_back(index_at(s, j));
        }
        assert forall|j: int| 0 <= j < 12 implies index_at(u, j) == index_at(s, j) by {
            if j < n {
                assert(!bad_char(s, j));
                lemma_char_index_nonzero(s[j]);
                lemma_index_char_back(index_at(s, j));
            }
        }
        assert(!bad_char(s, 0));
        lemma_char_index_nonzero(s[0]);
        lemma_index_char_back(index_at(s, 0));
        assert(!is_raw_text(u));
        assert(!exists|j: int| 0 <= j < u.len() && j < 12 && bad_char(u, j));
        assert(callsign_word(u, 0) == w0 && callsign_word(u, 1) == w1 && callsign_word(u, 2) == w2
            && callsign_word(u, 3) == w3);
    }
}

} // verus!
