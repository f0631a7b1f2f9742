//! The 40-symbol callsign alphabet and its three-character chunks.
use vstd::prelude::*;
use crate::error::{InvalidChar, InvalidCharAt, InvalidChunk};

verus! {

/// Index of an ASCII byte in the callsign alphabet, if it belongs to it.
/// Letters match without regard to case.
pub open spec fn byte_index(c: u8) -> Option<u8> {
    if c == 0 {
        Some(0u8)
    } else if 65 <= c && c <= 90 {
        Some((c - 64) as u8)
    } else if 97 <= c && c <= 122 {
        Some((c - 96) as u8)
    } else if 48 <= c && c <= 57 {
        Some((c - 21) as u8)
    } else if c == 47 {
        Some(37u8)
    } else if c == 45 {
        Some(38u8)
    } else if c == 94 {
        Some(39u8)
    } else {
        None
    }
}

/// Index of a character in the callsign alphabet, if it belongs to it.
pub open spec fn char_index(c: char) -> Option<u8> {
    if (c as u32) < 128 {
        byte_index(c as u8)
    } else {
        None
    }
}

/// The upper-case ASCII byte of an alphabet index (`NUL` is the byte zero).
pub open spec fn index_ascii(i: u8) -> u8 {
    if i == 0 {
        0
    } else if i <= 26 {
        (i + 64) as u8
    } else if i <= 36 {
        (i + 21) as u8
    } else if i == 37 {
        47
    } else if i == 38 {
        45
    } else {
        94
    }
}

/// The character shown for an alphabet index; `NUL` shows as U+2400.
pub open spec fn index_char(i: u8) -> char {
    if i == 0 {
        '\u{2400}'
    } else {
        index_ascii(i) as char
    }
}

/// Value of a chunk of three alphabet indices.
pub open spec fn chunk_value(c0: u8, c1: u8, c2: u8) -> int {
    c0 * 1600 + c1 * 40 + c2
}

/// A chunk value is valid when it is zero or encodes three characters
/// of which the first is not `NUL`.
pub open spec fn chunk_is_valid(v: u16) -> bool {
    v == 0 || (0x0640 <= v && v <= 0xF9FF)
}

/// One character of the callsign alphabet.
#[derive(Clone, Copy, Debug, PartialEq, Eq, Hash, Default)]
pub struct HamChar(u8);

impl View for HamChar {
    type V = u8;

    closed spec fn view(&self) -> u8 {
        self.0
    }
}

impl HamChar {
    #[verifier::type_invariant]
    spec fn inv(&self) -> bool {
        self.0 < 40
    }

    /// The `NUL` character, which ends or pads a callsign.
    pub fn nul() -> (r: HamChar)
        ensures
            r@ == 0,
    {
        HamChar(0)
    }

    /// The character at an index of the alphabet.
    pub fn from_index(i: u8) -> (r: HamChar)
        requires
            i < 40,
        ensures
            r@ == i,
    {
        HamChar(i)
    }

    /// The escape character `^`.
    pub fn esc() -> (r: HamChar)
        ensures
            r@ == 39,
    {
        HamChar(39)
    }

    /// The character for an ASCII byte, or `None` if the byte is outside the alphabet.
    pub fn from_ascii_byte(c: u8) -> (r: Option<HamChar>)
        ensures
            r matches Some(h) ==> byte_index(c) == Some(h@),
            r is None <==> byte_index(c) is None,
    {
        let i: u8 = if c == 0 {
            0
        } else if 65 <= c && c <= 90 {
            c - 64
        } else if 97 <= c && c <= 122 {
            c - 96
        } else if 48 <= c && c <= 57 {
            c - 21
        } else if c == 47 {
            37
        } else if c == 45 {
            38
        } else if c == 94 {
            39
        } else {
            return None;
        };
        Some(HamChar(i))
    }

    /// The character for a Unicode scalar, or `None` if it is outside the alphabet.
    pub fn from_char(c: char) -> (r: Option<HamChar>)
        ensures
            r matches Some(h) ==> char_index(c) == Some(h@),
            r is None <==> char_index(c) is None,
    {
        let v = c as u32;
        if v < 128 {
            HamChar::from_ascii_byte(v as u8)
        } else {
            None
        }
    }

    /// The upper-case ASCII byte of this character (`NUL` gives zero).
    pub fn to_ascii_byte(&self) -> (r: u8)
        ensures
            r == index_ascii(self@),
    {
        proof {
            use_type_invariant(self);
        }
        let i = self.0;
        if i == 0 {
            0
        } else if i <= 26 {
            i + 64
        } else if i <= 36 {
            i + 21
        } else if i == 37 {
            47
        } else if i == 38 {
            45
        } else {
            94
        }
    }

    /// The character shown for this symbol, with `NUL` as U+2400.
    pub fn to_char(&self) -> (r: char)
        ensures
            r == index_char(self@),
    {
        if self.is_nul() {
            '\u{2400}'
        } else {
            self.to_ascii_byte() as char
        }
    }

    /// Position of this character in the alphabet.
    pub fn index(&self) -> (r: u8)
        ensures
            r == self@,
            r < 40,
    {
        proof {
            use_type_invariant(self);
        }
        self.0
    }

    /// Whether this is the `NUL` character.
    pub fn is_nul(&self) -> (r: bool)
        ensures
            r == (self@ == 0),
    {
        self.0 == 0
    }

    /// Whether this is the escape character `^`.
    pub fn is_esc(&self) -> (r: bool)
        ensures
            r == (self@ == 39),
    {
        self.0 == 39
    }
}


impl HamChar {
    /// The character for a Unicode scalar, or `InvalidChar`.
    pub fn try_from_char(c: char) -> (r: Result<HamChar, InvalidChar>)
        ensures
            r matches Ok(h) ==> char_index(c) == Some(h@),
            r is Err <==> char_index(c) is None,
    {
        match HamChar::from_char(c) {
            Some(h) => Ok(h),
            None => Err(InvalidChar),
        }
    }

    /// The character for an ASCII byte, or `InvalidChar`.
    pub fn try_from_u8(c: u8) -> (r: Result<HamChar, InvalidChar>)
        ensures
            r matches Ok(h) ==> byte_index(c) == Some(h@),
            r is Err <==> byte_index(c) is None,
    {
        match HamChar::from_ascii_byte(c) {
            Some(h) => Ok(h),
            None => Err(InvalidChar),
        }
    }
}

/// Three characters packed into one 16-bit chunk.
#[derive(Clone, Copy, Debug, PartialEq, Eq, Hash, Default)]
pub struct HamCharChunk(pub [HamChar; 3]);

impl HamCharChunk {
    /// The chunk value `c0 * 1600 + c1 * 40 + c2`.
    pub fn to_u16(&self) -> (r: u16)
        ensures
            r as int == chunk_value(self.0[0]@, self.0[1]@, self.0[2]@),
    {
        let a = self.0[0].index() as u16;
        let b = self.0[1].index() as u16;
        let c = self.0[2].index() as u16;
        a * 1600 + b * 40 + c
    }

    /// The three characters of a valid chunk value, or `InvalidChunk`.
    pub fn try_from_u16(v: u16) -> (r: Result<HamCharChunk, InvalidChunk>)
        ensures
            r is Ok <==> chunk_is_valid(v),
            r matches Ok(c) ==> c.0[0]@ == v / 1600 % 40 && c.0[1]@ == v / 40 % 40 && c.0[2]@
                == v % 40,
    {
        if v == 0 || (0x0640 <= v && v <= 0xF9FF) {
            Ok(
                HamCharChunk(
                    [
                        HamChar::from_index((v / 1600 % 40) as u8),
                        HamChar::from_index((v / 40 % 40) as u8),
                        HamChar::from_index((v % 40) as u8),
                    ],
                ),
            )
        } else {
            Err(InvalidChunk)
        }
    }

    /// The chunk of three characters, or the position of the first one
    /// outside the alphabet.
    pub fn try_from_chars(chars: [char; 3]) -> (r: Result<HamCharChunk, InvalidCharAt>)
        ensures
            (forall|i: int| 0 <= i < 3 ==> char_index(#[trigger] chars[i]) is Some) ==> (r matches Ok(
                c,
            ) && forall|i: int| 0 <= i < 3 ==> char_index(chars[i]) == Some(#[trigger] c.0[i]@)),
            r matches Err(InvalidCharAt(p)) ==> p < 3 && char_index(chars[p as int]) is None
                && forall|i: int| 0 <= i < p ==> char_index(#[trigger] chars[i]) is Some,
    {
        let c0 = match HamChar::from_char(chars[0]) {
            Some(h) => h,
            None => {
                return Err(InvalidCharAt(0));
            },
        };
        let c1 = match HamChar::from_char(chars[1]) {
            Some(h) => h,
            None => {
                return Err(InvalidCharAt(1));
            },
        };
        let c2 = match HamChar::from_char(chars[2]) {
            Some(h) => h,
            None => {
                return Err(InvalidCharAt(2));
            },
        };
        let r = HamCharChunk([c0, c1, c2]);
        assert(r.0[0] == c0 && r.0[1] == c1 && r.0[2] == c2);
        Ok(r)
    }
}

} // verus!
