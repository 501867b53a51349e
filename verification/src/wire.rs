//! The building blocks of the wire format: unsigned integers in little-endian
//! byte order, and strings that carry their length in front.
//!
//! Each kind of field has a spec function that gives its bytes, a spec
//! function that takes it off the front of a byte sequence, and executable
//! functions that are proved to compute exactly those.

use crate::name::{nul_free, valid_string, P9String};
use vstd::prelude::*;

verus! {

/// Byte number `i` of `x`, counted from the least significant one, for `i`
/// from zero to three.
#[verifier::opaque]
pub open spec fn byte_of(x: int, i: int) -> u8 {
    if i == 0 {
        (x % 256) as u8
    } else if i == 1 {
        (x / 256 % 256) as u8
    } else if i == 2 {
        (x / 256 / 256 % 256) as u8
    } else {
        (x / 256 / 256 / 256 % 256) as u8
    }
}

/// The two bytes of a sixteen-bit integer, least significant first.
pub open spec fn u16_le(x: u16) -> Seq<u8> {
    seq![byte_of(x as int, 0), byte_of(x as int, 1)]
}

/// The four bytes of a thirty-two-bit integer, least significant first.
pub open spec fn u32_le(x: u32) -> Seq<u8> {
    seq![byte_of(x as int, 0), byte_of(x as int, 1), byte_of(x as int, 2), byte_of(x as int, 3)]
}

/// The eight bytes of a sixty-four-bit integer, least significant first.
pub open spec fn u64_le(x: u64) -> Seq<u8> {
    u32_le((x % 0x1_0000_0000) as u32) + u32_le((x / 0x1_0000_0000) as u32)
}

/// The integer whose little-endian bytes are the first two bytes of `b`.
#[verifier::opaque]
pub open spec fn le_u16(b: Seq<u8>) -> u16 {
    (b[0] + 256 * b[1]) as u16
}

/// The integer whose little-endian bytes are the first four bytes of `b`.
#[verifier::opaque]
pub open spec fn le_u32(b: Seq<u8>) -> u32 {
    (b[0] + 256 * (b[1] + 256 * (b[2] + 256 * b[3]))) as u32
}

/// The integer whose little-endian bytes are the first eight bytes of `b`.
#[verifier::opaque]
pub open spec fn le_u64(b: Seq<u8>) -> u64 {
    (le_u32(b) + 0x1_0000_0000 * le_u32(b.skip(4))) as u64
}

/// The bytes of an integer are as many as its width tells.
pub proof fn lemma_int_sizes()
    ensures
        forall|x: u16| #[trigger] u16_le(x).len() == 2,
        forall|x: u32| #[trigger] u32_le(x).len() == 4,
        forall|x: u64| #[trigger] u64_le(x).len() == 8,
{
}

/// Reading a sixteen-bit integer back from its own bytes gives the integer,
/// whatever follows the bytes.
pub proof fn lemma_u16_round_trip(x: u16, rest: Seq<u8>)
    ensures
        le_u16(u16_le(x) + rest) == x,
{
    reveal(byte_of);
    reveal(le_u16);
}

/// Reading a thirty-two-bit integer back from its own bytes gives the
/// integer, whatever follows the bytes.
pub proof fn lemma_u32_round_trip(x: u32, rest: Seq<u8>)
    ensures
        le_u32(u32_le(x) + rest) == x,
{
    reveal(byte_of);
    reveal(le_u32);
    let x1 = x / 256;
    let x2 = x1 / 256;
    let x3 = x2 / 256;
    assert(x == x % 256 + 256 * x1);
    assert(x1 == x1 % 256 + 256 * x2);
    assert(x2 == x2 % 256 + 256 * x3);
}

/// Reading a sixty-four-bit integer back from its own bytes gives the
/// integer, whatever follows the bytes.
pub proof fn lemma_u64_round_trip(x: u64, rest: Seq<u8>)
    ensures
        le_u64(u64_le(x) + rest) == x,
{
    reveal(le_u64);
    let lo = (x % 0x1_0000_0000) as u32;
    let hi = (x / 0x1_0000_0000) as u32;
    let all = u64_le(x) + rest;
    assert(all =~= u32_le(lo) + (u32_le(hi) + rest));
    assert(all.skip(4) =~= u32_le(hi) + rest);
    lemma_u32_round_trip(lo, u32_le(hi) + rest);
    lemma_u32_round_trip(hi, rest);
}

/// Writing out the sixteen-bit integer that was read from the front of `b`
/// gives the bytes that it was read from.
pub proof fn lemma_u16_bytes_round_trip(b: Seq<u8>)
    requires
        b.len() >= 2,
    ensures
        u16_le(le_u16(b)) == b.take(2),
{
    reveal(byte_of);
    reveal(le_u16);
    assert(u16_le(le_u16(b)) =~= b.take(2));
}

/// Writing out the thirty-two-bit integer that was read from the front of
/// `b` gives the bytes that it was read from.
pub proof fn lemma_u32_bytes_round_trip(b: Seq<u8>)
    requires
        b.len() >= 4,
    ensures
        u32_le(le_u32(b)) == b.take(4),
{
    reveal(byte_of);
    reveal(le_u32);
    let x = le_u32(b);
    let x1 = b[1] + 256 * (b[2] + 256 * b[3]);
    let x2 = b[2] + 256 * b[3];
    assert(x == b[0] + 256 * x1);
    assert(x / 256 == x1);
    assert(x1 / 256 == x2);
    assert(x2 / 256 == b[3]);
    assert(u32_le(x) =~= b.take(4));
}

/// Writing out the sixty-four-bit integer that was read from the front of
/// `b` gives the bytes that it was read from.
pub proof fn lemma_u64_bytes_round_trip(b: Seq<u8>)
    requires
        b.len() >= 8,
    ensures
        u64_le(le_u64(b)) == b.take(8),
{
    reveal(le_u64);
    let lo = le_u32(b);
    let hi = le_u32(b.skip(4));
    let x = le_u64(b);
    assert(x == lo + 0x1_0000_0000 * hi);
    assert(x % 0x1_0000_0000 == lo);
    assert(x / 0x1_0000_0000 == hi);
    lemma_u32_bytes_round_trip(b);
    lemma_u32_bytes_round_trip(b.skip(4));
    assert(b.take(4) + b.skip(4).take(4) =~= b.take(8));
}

/// A byte taken off the front of `s`, with what follows it.
pub open spec fn take_u8(s: Seq<u8>) -> Option<(u8, Seq<u8>)> {
    if s.len() < 1 {
        None
    } else {
        Some((s[0], s.skip(1)))
    }
}

/// A sixteen-bit integer taken off the front of `s`, with what follows it.
pub open spec fn take_u16(s: Seq<u8>) -> Option<(u16, Seq<u8>)> {
    if s.len() < 2 {
        None
    } else {
        Some((le_u16(s), s.skip(2)))
    }
}

/// A thirty-two-bit integer taken off the front of `s`, with what follows it.
pub open spec fn take_u32(s: Seq<u8>) -> Option<(u32, Seq<u8>)> {
    if s.len() < 4 {
        None
    } else {
        Some((le_u32(s), s.skip(4)))
    }
}

/// A sixty-four-bit integer taken off the front of `s`, with what follows it.
pub open spec fn take_u64(s: Seq<u8>) -> Option<(u64, Seq<u8>)> {
    if s.len() < 8 {
        None
    } else {
        Some((le_u64(s), s.skip(8)))
    }
}

/// Bytes that follow a sequence of two parts follow its second part.
pub proof fn lemma_regroup(a: Seq<u8>, b: Seq<u8>, rest: Seq<u8>)
    ensures
        (a + b) + rest == a + (b + rest),
{
    assert((a + b) + rest =~= a + (b + rest));
}

/// Taking a byte off the front of a sequence that starts with it gives the
/// byte and whatever followed it.
pub proof fn lemma_take_u8(x: u8, rest: Seq<u8>)
    ensures
        take_u8(seq![x] + rest) == Some((x, rest)),
{
    assert((seq![x] + rest).skip(1) =~= rest);
}

/// Taking a sixteen-bit integer off the front of its own bytes gives the
/// integer and whatever followed the bytes.
pub proof fn lemma_take_u16(x: u16, rest: Seq<u8>)
    ensures
        take_u16(u16_le(x) + rest) == Some((x, rest)),
{
    lemma_u16_round_trip(x, rest);
    assert((u16_le(x) + rest).skip(2) =~= rest);
}

/// Taking a thirty-two-bit integer off the front of its own bytes gives the
/// integer and whatever followed the bytes.
pub proof fn lemma_take_u32(x: u32, rest: Seq<u8>)
    ensures
        take_u32(u32_le(x) + rest) == Some((x, rest)),
{
    lemma_u32_round_trip(x, rest);
    assert((u32_le(x) + rest).skip(4) =~= rest);
}

/// Taking a sixty-four-bit integer off the front of its own bytes gives the
/// integer and whatever followed the bytes.
pub proof fn lemma_take_u64(x: u64, rest: Seq<u8>)
    ensures
        take_u64(u64_le(x) + rest) == Some((x, rest)),
{
    lemma_u64_round_trip(x, rest);
    assert((u64_le(x) + rest).skip(8) =~= rest);
}

/// A byte that was taken off the front of `s` gives, followed by the rest,
/// `s` again.
pub proof fn lemma_take_u8_bytes(s: Seq<u8>)
    requires
        take_u8(s) is Some,
    ensures
        take_u8(s) matches Some((v, rest)) && seq![v] + rest == s,
{
    assert(seq![s[0]] + s.skip(1) =~= s);
}

/// A sixteen-bit integer that was taken off the front of `s` gives, written
/// out and followed by the rest, `s` again.
pub proof fn lemma_take_u16_bytes(s: Seq<u8>)
    requires
        take_u16(s) is Some,
    ensures
        take_u16(s) matches Some((v, rest)) && u16_le(v) + rest == s,
{
    lemma_u16_bytes_round_trip(s);
    assert(s.take(2) + s.skip(2) =~= s);
}

/// A thirty-two-bit integer that was taken off the front of `s` gives,
/// written out and followed by the rest, `s` again.
pub proof fn lemma_take_u32_bytes(s: Seq<u8>)
    requires
        take_u32(s) is Some,
    ensures
        take_u32(s) matches Some((v, rest)) && u32_le(v) + rest == s,
{
    lemma_u32_bytes_round_trip(s);
    assert(s.take(4) + s.skip(4) =~= s);
}

/// A sixty-four-bit integer that was taken off the front of `s` gives,
/// written out and followed by the rest, `s` again.
pub proof fn lemma_take_u64_bytes(s: Seq<u8>)
    requires
        take_u64(s) is Some,
    ensures
        take_u64(s) matches Some((v, rest)) && u64_le(v) + rest == s,
{
    lemma_u64_bytes_round_trip(s);
    assert(s.take(8) + s.skip(8) =~= s);
}

/// The bytes of a string on the wire: its length as a sixteen-bit integer,
/// then its bytes, without a terminator.
pub open spec fn string_bytes(s: Seq<u8>) -> Seq<u8> {
    u16_le(s.len() as u16) + s
}

/// A string taken off the front of `s`, with what follows it. There is none
/// where the length field is cut short, where it announces more bytes than
/// follow, or where one of the announced bytes is nul.
pub open spec fn take_string(s: Seq<u8>) -> Option<(Seq<u8>, Seq<u8>)> {
    if s.len() < 2 {
        None
    } else {
        let n = le_u16(s) as int;
        let rest = s.skip(2);
        if rest.len() < n || !nul_free(rest.take(n)) {
            None
        } else {
            Some((rest.take(n), rest.skip(n)))
        }
    }
}

/// Taking a string off the front of its own bytes gives the string and
/// whatever followed the bytes.
pub proof fn lemma_take_string(s: Seq<u8>, rest: Seq<u8>)
    requires
        valid_string(s),
    ensures
        take_string(string_bytes(s) + rest) == Some((s, rest)),
{
    let n = s.len() as u16;
    lemma_regroup(u16_le(n), s, rest);
    lemma_take_u16(n, s + rest);
    assert((s + rest).take(s.len() as int) =~= s);
    assert((s + rest).skip(s.len() as int) =~= rest);
}

/// A string that was taken off the front of `b` is a string of the wire
/// format, and its bytes followed by the rest are `b` again.
pub proof fn lemma_take_string_bytes(b: Seq<u8>)
    requires
        take_string(b) is Some,
    ensures
        take_string(b) matches Some((s, rest)) && valid_string(s) && string_bytes(s) + rest == b,
{
    let (s, rest) = take_string(b)->0;
    lemma_take_u16_bytes(b);
    assert(s + rest =~= b.skip(2));
    lemma_regroup(u16_le(s.len() as u16), s, rest);
}

/// Appends the bytes of `x` to `out`.
pub fn put_u8(out: &mut Vec<u8>, x: u8)
    ensures
        final(out)@ == old(out)@ + seq![x],
{
    out.push(x);
    assert(out@ =~= old(out)@ + seq![x]);
}

/// Appends the two little-endian bytes of `x` to `out`.
pub fn put_u16(out: &mut Vec<u8>, x: u16)
    ensures
        final(out)@ == old(out)@ + u16_le(x),
{
    out.push((x % 256) as u8);
    out.push((x / 256) as u8);
    proof {
        reveal(byte_of);
    }
    assert(out@ =~= old(out)@ + u16_le(x));
}

/// Appends the four little-endian bytes of `x` to `out`.
pub fn put_u32(out: &mut Vec<u8>, x: u32)
    ensures
        final(out)@ == old(out)@ + u32_le(x),
{
    out.push((x % 256) as u8);
    out.push((x / 256 % 256) as u8);
    out.push((x / 256 / 256 % 256) as u8);
    out.push((x / 256 / 256 / 256) as u8);
    proof {
        reveal(byte_of);
    }
    assert(out@ =~= old(out)@ + u32_le(x));
}

/// Appends the eight little-endian bytes of `x` to `out`.
pub fn put_u64(out: &mut Vec<u8>, x: u64)
    ensures
        final(out)@ == old(out)@ + u64_le(x),
{
    put_u32(out, (x % 0x1_0000_0000) as u32);
    put_u32(out, (x / 0x1_0000_0000) as u32);
    assert(out@ =~= old(out)@ + u64_le(x));
}

/// Appends `bytes` to `out` as they are.
pub fn put_bytes(out: &mut Vec<u8>, bytes: &[u8])
    ensures
        final(out)@ == old(out)@ + bytes@,
{
    out.extend_from_slice(bytes);
}

/// Appends the string `s` to `out`: its length, then its bytes.
pub fn put_string(out: &mut Vec<u8>, s: &P9String)
    ensures
        final(out)@ == old(out)@ + string_bytes(s@),
        valid_string(s@),
{
    let bytes = s.as_bytes();
    put_u16(out, bytes.len() as u16);
    put_bytes(out, bytes);
    proof {
        lemma_regroup(old(out)@, u16_le(s@.len() as u16), s@);
    }
}

/// A position in a received message, from which fields are taken one after
/// the other.
pub struct Reader<'a> {
    bytes: &'a [u8],
    pos: usize,
}

impl<'a> Reader<'a> {
    #[verifier::type_invariant]
    spec fn inv(self) -> bool {
        self.pos <= self.bytes@.len()
    }

    /// The bytes that have not been taken yet.
    pub closed spec fn remaining(self) -> Seq<u8> {
        self.bytes@.skip(self.pos as int)
    }

    /// A reader at the start of `bytes`.
    pub fn new(bytes: &'a [u8]) -> (r: Reader<'a>)
        ensures
            r.remaining() == bytes@,
    {
        assert(bytes@.skip(0) =~= bytes@);
        Reader { bytes, pos: 0 }
    }

    /// The number of bytes that have not been taken yet.
    pub fn left(&self) -> (n: usize)
        ensures
            n == self.remaining().len(),
    {
        proof {
            use_type_invariant(self);
        }
        self.bytes.len() - self.pos
    }

    /// Takes one byte, if there is one.
    pub fn u8(&mut self) -> (x: Option<u8>)
        ensures
            match take_u8(old(self).remaining()) {
                Some((v, rest)) => x == Some(v) && final(self).remaining() == rest,
                None => x is None && final(self).remaining() == old(self).remaining(),
            },
    {
        proof {
            use_type_invariant(&*self);
        }
        if self.bytes.len() - self.pos < 1 {
            return None;
        }
        let v = self.bytes[self.pos];
        assert(old(self).remaining().skip(1) =~= self.bytes@.skip(self.pos + 1));
        self.pos = self.pos + 1;
        Some(v)
    }

    /// Takes a sixteen-bit integer, if two bytes are left.
    pub fn u16(&mut self) -> (x: Option<u16>)
        ensures
            match take_u16(old(self).remaining()) {
                Some((v, rest)) => x == Some(v) && final(self).remaining() == rest,
                None => x is None && final(self).remaining() == old(self).remaining(),
            },
    {
        proof {
            use_type_invariant(&*self);
        }
        if self.bytes.len() - self.pos < 2 {
            return None;
        }
        let p = self.pos;
        let v: u16 = self.bytes[p] as u16 + 256 * (self.bytes[p + 1] as u16);
        proof {
            reveal(le_u16);
        }
        assert(old(self).remaining().skip(2) =~= self.bytes@.skip(p + 2));
        self.pos = p + 2;
        Some(v)
    }

    /// Takes a thirty-two-bit integer, if four bytes are left.
    pub fn u32(&mut self) -> (x: Option<u32>)
        ensures
            match take_u32(old(self).remaining()) {
                Some((v, rest)) => x == Some(v) && final(self).remaining() == rest,
                None => x is None && final(self).remaining() == old(self).remaining(),
            },
    {
        proof {
            use_type_invariant(&*self);
        }
        if self.bytes.len() - self.pos < 4 {
            return None;
        }
        let p = self.pos;
        let b0 = self.bytes[p] as u32;
        let b1 = self.bytes[p + 1] as u32;
        let b2 = self.bytes[p + 2] as u32;
        let b3 = self.bytes[p + 3] as u32;
        let v: u32 = b0 + 256 * (b1 + 256 * (b2 + 256 * b3));
        proof {
            reveal(le_u32);
        }
        assert(old(self).remaining().skip(4) =~= self.bytes@.skip(p + 4));
        self.pos = p + 4;
        Some(v)
    }

    /// Takes a sixty-four-bit integer, if eight bytes are left.
    pub fn u64(&mut self) -> (x: Option<u64>)
        ensures
            match take_u64(old(self).remaining()) {
                Some((v, rest)) => x == Some(v) && final(self).remaining() == rest,
                None => x is None && final(self).remaining() == old(self).remaining(),
            },
    {
        proof {
            use_type_invariant(&*self);
        }
        if self.bytes.len() - self.pos < 8 {
            return None;
        }
        let ghost before = self.remaining();
        proof {
            reveal(le_u64);
        }
        let lo = self.u32().unwrap();
        assert(self.remaining() == before.skip(4));
        let hi = self.u32().unwrap();
        assert(before.skip(4).skip(4) =~= before.skip(8));
        Some(lo as u64 + 0x1_0000_0000 * (hi as u64))
    }

    /// Takes the next `n` bytes, if that many are left.
    pub fn bytes(&mut self, n: usize) -> (x: Option<&'a [u8]>)
        ensures
            match x {
                Some(b) => n <= old(self).remaining().len() && b@ == old(self).remaining().take(
                    n as int,
                ) && final(self).remaining() == old(self).remaining().skip(n as int),
                None => {
                    &&& n > old(self).remaining().len()
                    &&& final(self).remaining() == old(self).remaining()
                },
            },
    {
        proof {
            use_type_invariant(&*self);
        }
        if self.bytes.len() - self.pos < n {
            return None;
        }
        let p = self.pos;
        let b = vstd::slice::slice_subrange(self.bytes, p, p + n);
        assert(b@ =~= old(self).remaining().take(n as int));
        assert(old(self).remaining().skip(n as int) =~= self.bytes@.skip(p + n));
        self.pos = p + n;
        Some(b)
    }

    /// Takes a string, if a whole and valid one is at the front.
    pub fn string(&mut self) -> (x: Option<P9String>)
        ensures
            match take_string(old(self).remaining()) {
                Some((v, rest)) => x is Some && x->0@ == v && final(self).remaining() == rest,
                None => x is None,
            },
    {
        let n = match self.u16() {
            Some(n) => n,
            None => { return None; },
        };
        let body = match self.bytes(n as usize) {
            Some(b) => b,
            None => { return None; },
        };
        match P9String::new(body) {
            Ok(s) => Some(s),
            Err(_) => None,
        }
    }
}

} // verus!
