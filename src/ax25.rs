//! A readable view of an AX.25 frame: its address field and its payload.
use vstd::prelude::*;

verus! {

/// Number of leading bytes whose low bit is clear.
pub open spec fn leading_even(b: Seq<u8>) -> nat
    decreases b.len(),
{
    if b.len() == 0 || b[0] % 2 == 1 {
        0
    } else {
        1 + leading_even(b.drop_first())
    }
}

/// Length of the address field: up to and including the first byte whose
/// low bit is set, or the whole frame if none is.
pub open spec fn ax25_addr_len(b: Seq<u8>) -> int {
    if leading_even(b) + 1 < b.len() {
        leading_even(b) + 1int
    } else {
        b.len() as int
    }
}

/// A byte kept if printable ASCII (or DEL), else `.`.
pub open spec fn printable(x: u8) -> u8 {
    if x < 128 && x > 31 {
        x
    } else {
        46
    }
}

/// What `std::ascii::escape_default` gives for a byte from 32 to 127.
pub open spec fn escape_byte(c: u8) -> Seq<u8> {
    if c == 92 {
        seq![92u8, 92]
    } else if c == 39 {
        seq![92u8, 39]
    } else if c == 34 {
        seq![92u8, 34]
    } else if c == 127 {
        seq![92u8, 120, 55, 102]
    } else {
        seq![c]
    }
}

/// The escaped text of bytes, each first made printable.
pub open spec fn escaped(b: Seq<u8>) -> Seq<u8>
    decreases b.len(),
{
    if b.len() == 0 {
        seq![]
    } else {
        escaped(b.drop_last()) + escape_byte(printable(b.last()))
    }
}

/// The address bytes shifted right by one, as AX.25 stores characters.
pub open spec fn shifted(b: Seq<u8>) -> Seq<u8> {
    Seq::new(b.len(), |i: int| b[i] / 2)
}

/// Bytes as the characters of the same code.
pub open spec fn ascii_chars(b: Seq<u8>) -> Seq<char> {
    Seq::new(b.len(), |i: int| b[i] as char)
}

/// A frame to be shown as AX.25.
pub struct Ax25Debug<'a>(pub &'a [u8]);

/// Appends the escaped form of a printable byte.
fn push_escaped(out: &mut Vec<u8>, c: u8)
    ensures
        final(out)@ == old(out)@ + escape_byte(c),
{
    if c == 92 {
        out.push(92);
        out.push(92);
    } else if c == 39 {
        out.push(92);
        out.push(39);
    } else if c == 34 {
        out.push(92);
        out.push(34);
    } else if c == 127 {
        out.push(92);
        out.push(120);
        out.push(55);
        out.push(102);
    } else {
        out.push(c);
    }
    assert(final(out)@ =~= old(out)@ + escape_byte(c));
}

/// The escaped text of bytes, each first halved when `shift` is set.
fn escape_all(b: &[u8], shift: bool) -> (r: Vec<u8>)
    ensures
        r@ == escaped(
            if shift {
                shifted(b@)
            } else {
                b@
            },
        ),
{
    let ghost src = if shift {
        shifted(b@)
    } else {
        b@
    };
    let mut out: Vec<u8> = Vec::new();
    let mut i: usize = 0;
    while i < b.len()
        invariant
            i <= b@.len(),
            src.len() == b@.len(),
            src == if shift {
                shifted(b@)
            } else {
                b@
            },
            out@ == escaped(src.subrange(0, i as int)),
        decreases b@.len() - i,
    {
        let x = if shift {
            b[i] / 2
        } else {
            b[i]
        };
        let c = if x < 128 && x > 31 {
            x
        } else {
            46
        };
        push_escaped(&mut out, c);
        assert(src.subrange(0, i as int + 1).drop_last() =~= src.subrange(0, i as int));
        i += 1;
    }
    assert(src.subrange(0, b@.len() as int) =~= src);
    out
}

/// Appends bytes to a character vector, one character each.
fn push_ascii(out: &mut Vec<char>, b: &[u8])
    ensures
        final(out)@ == old(out)@ + ascii_chars(b@),
{
    let ghost start = out@;
    let mut i: usize = 0;
    while i < b.len()
        invariant
            i <= b@.len(),
            out@ == start + ascii_chars(b@.subrange(0, i as int)),
        decreases b@.len() - i,
    {
        out.push(b[i] as char);
        assert(out@ =~= start + ascii_chars(b@.subrange(0, i as int + 1)));
        i += 1;
    }
    assert(b@.subrange(0, b@.len() as int) =~= b@);
}

impl<'a> Ax25Debug<'a> {
    /// Length of the address field.
    pub fn addr_len(&self) -> (r: usize)
        ensures
            r as int == ax25_addr_len(self.0@),
    {
        let b = self.0;
        let mut i: usize = 0;
        assert(b@.subrange(0, b@.len() as int) =~= b@);
        while i < b.len() && b[i] % 2 == 0
            invariant
                i <= b@.len(),
                forall|j: int| 0 <= j < i ==> b@[j] % 2 == 0,
                leading_even(b@) == i + leading_even(b@.subrange(i as int, b@.len() as int)),
            decreases b@.len() - i,
        {
            let ghost t = b@.subrange(i as int, b@.len() as int);
            assert(t.drop_first() =~= b@.subrange(i as int + 1, b@.len() as int));
            i += 1;
        }
        proof {
            let t = b@.subrange(i as int, b@.len() as int);
            assert(leading_even(t) == 0);
        }
        if b.len() > 0 && i < b.len() - 1 {
            i + 1
        } else {
            b.len()
        }
    }

    /// The address field.
    pub fn addr_bytes(&self) -> (r: &'a [u8])
        ensures
            r@ == self.0@.subrange(0, ax25_addr_len(self.0@)),
    {
        let n = self.addr_len();
        vstd::slice::slice_subrange(self.0, 0, n)
    }

    /// The bytes after the address field.
    pub fn payload_bytes(&self) -> (r: &'a [u8])
        ensures
            r@ == self.0@.subrange(ax25_addr_len(self.0@), self.0@.len() as int),
    {
        let n = self.addr_len();
        vstd::slice::slice_subrange(self.0, n, self.0.len())
    }

    /// The address field as escaped text, each byte shifted right by one.
    pub fn addr_escaped_ascii(&self) -> (r: Vec<u8>)
        ensures
            r@ == escaped(shifted(self.0@.subrange(0, ax25_addr_len(self.0@)))),
    {
        escape_all(self.addr_bytes(), true)
    }

    /// The payload as escaped text.
    pub fn payload_escaped_ascii(&self) -> (r: Vec<u8>)
        ensures
            r@ == escaped(self.0@.subrange(ax25_addr_len(self.0@), self.0@.len() as int)),
    {
        escape_all(self.payload_bytes(), false)
    }

    /// Whether the address field has a whole number of seven-byte addresses.
    pub fn is_ax25(&self) -> (r: bool)
        ensures
            r == (ax25_addr_len(self.0@) % 7 == 0),
    {
        self.addr_len() % 7 == 0
    }

    /// The frame as `[address]payload`, both escaped.
    pub fn to_debug_string(&self) -> (r: String)
        ensures
            r@ == seq!['['] + ascii_chars(
                escaped(shifted(self.0@.subrange(0, ax25_addr_len(self.0@)))),
            ) + seq![']'] + ascii_chars(
                escaped(self.0@.subrange(ax25_addr_len(self.0@), self.0@.len() as int)),
            ),
    {
        let a = self.addr_escaped_ascii();
        let p = self.payload_escaped_ascii();
        let mut out: Vec<char> = Vec::new();
        out.push('[');
        push_ascii(&mut out, a.as_slice());
        out.push(']');
        push_ascii(&mut out, p.as_slice());
        crate::text::string_from_chars(&out)
    }
}

} // verus!
