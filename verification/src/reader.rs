//! A forward-only reader over a byte slice, and the big-endian integer
//! encodings that the boxes are made of.
use byteorder::{BigEndian, ByteOrder};
use vstd::prelude::*;

verus! {

/// Big-endian value of the two bytes of `s` that start at `i`.
pub open spec fn be16(s: Seq<u8>, i: int) -> nat {
    s[i] as nat * 0x100 + s[i + 1] as nat
}

/// Big-endian value of the four bytes of `s` that start at `i`.
pub open spec fn be32(s: Seq<u8>, i: int) -> nat {
    s[i] as nat * 0x100_0000 + s[i + 1] as nat * 0x1_0000 + s[i + 2] as nat * 0x100
        + s[i + 3] as nat
}

/// Big-endian value of the eight bytes of `s` that start at `i`.
pub open spec fn be64(s: Seq<u8>, i: int) -> nat {
    be32(s, i) * 0x1_0000_0000 + be32(s, i + 4)
}

/// Two's complement reading of a 16-bit pattern.
pub open spec fn signed16(v: nat) -> int {
    if v < 0x8000 { v as int } else { v - 0x1_0000 }
}

/// Two's complement reading of a 32-bit pattern.
pub open spec fn signed32(v: nat) -> int {
    if v < 0x8000_0000 { v as int } else { v - 0x1_0000_0000 }
}

/// Two's complement reading of a 64-bit pattern.
pub open spec fn signed64(v: nat) -> int {
    if v < 0x8000_0000_0000_0000 { v as int } else { v - 0x1_0000_0000_0000_0000 }
}

/// Calls `byteorder::BigEndian::read_u16`. Trusted, not proved: the result is
/// the big-endian value of the two bytes.
#[verifier::external_body]
fn decode_u16(bytes: [u8; 2]) -> (v: u16)
    ensures
        v == be16(bytes@, 0),
{
    <BigEndian as ByteOrder>::read_u16(&bytes)
}

/// Calls `byteorder::BigEndian::read_u32`. Trusted, not proved: the result is
/// the big-endian value of the four bytes.
#[verifier::external_body]
fn decode_u32(bytes: [u8; 4]) -> (v: u32)
    ensures
        v == be32(bytes@, 0),
{
    <BigEndian as ByteOrder>::read_u32(&bytes)
}

/// Calls `byteorder::BigEndian::read_u64`. Trusted, not proved: the result is
/// the big-endian value of the eight bytes.
#[verifier::external_body]
fn decode_u64(bytes: [u8; 8]) -> (v: u64)
    ensures
        v == be64(bytes@, 0),
{
    <BigEndian as ByteOrder>::read_u64(&bytes)
}

/// Calls `byteorder::BigEndian::read_i16`. Trusted, not proved: the result is
/// the two bytes read big-endian as a two's complement number.
#[verifier::external_body]
fn decode_i16(bytes: [u8; 2]) -> (v: i16)
    ensures
        v == signed16(be16(bytes@, 0)),
{
    <BigEndian as ByteOrder>::read_i16(&bytes)
}

/// Calls `byteorder::BigEndian::read_i32`. Trusted, not proved: the result is
/// the four bytes read big-endian as a two's complement number.
#[verifier::external_body]
fn decode_i32(bytes: [u8; 4]) -> (v: i32)
    ensures
        v == signed32(be32(bytes@, 0)),
{
    <BigEndian as ByteOrder>::read_i32(&bytes)
}

/// Calls `byteorder::BigEndian::read_i64`. Trusted, not proved: the result is
/// the eight bytes read big-endian as a two's complement number.
#[verifier::external_body]
fn decode_i64(bytes: [u8; 8]) -> (v: i64)
    ensures
        v == signed64(be64(bytes@, 0)),
{
    <BigEndian as ByteOrder>::read_i64(&bytes)
}

/// What a read of a fixed-width value does: with `width` bytes available it
/// returns `value` and consumes exactly those bytes; otherwise it reports the
/// end of the data and consumes everything that was left.
pub open spec fn fixed_read<T>(
    before: Seq<u8>,
    after: Seq<u8>,
    r: Result<T, Fault>,
    width: nat,
    value: T,
) -> bool {
    if before.len() >= width {
        r == Ok::<T, Fault>(value) && after == before.skip(width as int)
    } else {
        r == Err::<T, Fault>(Fault::Eof) && after.len() == 0
    }
}

/// Why a parser stopped without a result.
#[derive(Debug, Clone, Copy, PartialEq, Eq, Structural)]
pub enum Fault {
    /// The data ended before the parser had what it needed.
    Eof,
    /// The data holds something the parser does not accept.
    Malformed,
}

/// The error that the parsers report.
#[derive(Debug, Clone, Copy, PartialEq, Eq, Structural)]
pub enum Error {
    /// The data ended before the parser had what it needed.
    UnexpectedEof,
}

/// What a parser does with the bytes that remain in its reader, as a
/// function of those bytes.
pub enum Step<T> {
    /// It yields the value and consumes that many bytes.
    Done(T, nat),
    /// It reports the end of the data, having consumed all of it.
    Eof,
    /// The data is of a kind that the parser does not handle.
    Invalid,
}

/// A parser's internal result `r` and the bytes left after it (`after`, out of
/// `before`) are those that `step` describes.
pub open spec fn engine_agrees<T: View>(
    r: Result<T, Fault>,
    before: Seq<u8>,
    after: Seq<u8>,
    step: Step<T::V>,
) -> bool {
    match step {
        Step::Done(v, n) => (r matches Ok(x) && x@ == v) && n <= before.len() && after
            == before.skip(n as int),
        Step::Eof => (r matches Err(e) && e == Fault::Eof) && after.len() == 0,
        Step::Invalid => r matches Err(e) && e == Fault::Malformed,
    }
}

/// A public parser's result `r` and the bytes left after it are those that
/// `step` describes.
pub open spec fn api_agrees<T: View>(
    r: Result<T, Error>,
    before: Seq<u8>,
    after: Seq<u8>,
    step: Step<T::V>,
) -> bool {
    match step {
        Step::Done(v, n) => (r matches Ok(x) && x@ == v) && n <= before.len() && after
            == before.skip(n as int),
        Step::Eof => r is Err && after.len() == 0,
        Step::Invalid => false,
    }
}

/// The public form of an internal result that is not `Malformed`.
pub(crate) fn api_result<T: View>(
    r: Result<T, Fault>,
    Ghost(before): Ghost<Seq<u8>>,
    Ghost(after): Ghost<Seq<u8>>,
    Ghost(step): Ghost<Step<T::V>>,
) -> (out: Result<T, Error>)
    requires
        engine_agrees(r, before, after, step),
        !(step is Invalid),
    ensures
        api_agrees(out, before, after, step),
{
    match r {
        Ok(v) => Ok(v),
        Err(_) => Err(Error::UnexpectedEof),
    }
}

/// The same step with its value dropped.
pub open spec fn erase<T>(step: Step<T>) -> Step<()> {
    match step {
        Step::Done(_, n) => Step::Done((), n),
        Step::Eof => Step::Eof,
        Step::Invalid => Step::Invalid,
    }
}

/// Drops the value of an internal result.
pub(crate) fn drop_value<T: View>(
    r: Result<T, Fault>,
    Ghost(before): Ghost<Seq<u8>>,
    Ghost(after): Ghost<Seq<u8>>,
    Ghost(step): Ghost<Step<T::V>>,
) -> (out: Result<(), Fault>)
    requires
        engine_agrees(r, before, after, step),
    ensures
        engine_agrees(out, before, after, erase(step)),
{
    match r {
        Ok(_) => Ok(()),
        Err(e) => Err(e),
    }
}

/// A forward-only reader over the bytes `data[pos..end]`.
#[derive(Debug)]
pub struct ByteReader<'a> {
    data: &'a [u8],
    pos: usize,
    end: usize,
}

impl<'a> View for ByteReader<'a> {
    /// The bytes that remain to be read.
    type V = Seq<u8>;

    closed spec fn view(&self) -> Seq<u8> {
        self.data@.subrange(self.pos as int, self.end as int)
    }
}

impl<'a> ByteReader<'a> {
    #[verifier::type_invariant]
    closed spec fn window_inv(&self) -> bool {
        self.pos <= self.end <= self.data@.len()
    }

    /// A reader over all of `data`.
    pub fn new(data: &'a [u8]) -> (r: Self)
        ensures
            r@ == data@,
    {
        let r = ByteReader { data, pos: 0, end: data.len() };
        assert(r@ =~= data@);
        r
    }

    /// The number of bytes that remain.
    pub fn remaining(&self) -> (n: usize)
        ensures
            n == self@.len(),
    {
        proof {
            use_type_invariant(self);
        }
        self.end - self.pos
    }

    /// Consumes `n` bytes.
    pub(crate) fn advance(&mut self, n: usize)
        requires
            n <= old(self)@.len(),
        ensures
            final(self)@ == old(self)@.skip(n as int),
    {
        proof {
            use_type_invariant(&*self);
        }
        self.pos = self.pos + n;
        assert(self@ =~= old(self)@.skip(n as int));
    }

    /// Consumes every remaining byte.
    pub(crate) fn exhaust(&mut self)
        ensures
            final(self)@ == Seq::<u8>::empty(),
    {
        proof {
            use_type_invariant(&*self);
        }
        self.pos = self.end;
        assert(self@ =~= Seq::<u8>::empty());
    }

    /// A reader over the next `n` bytes, which leaves this one unchanged.
    pub(crate) fn window(&self, n: usize) -> (r: ByteReader<'a>)
        requires
            n <= self@.len(),
        ensures
            r@ == self@.take(n as int),
    {
        proof {
            use_type_invariant(self);
        }
        let r = ByteReader { data: self.data, pos: self.pos, end: self.pos + n };
        assert(r@ =~= self@.take(n as int));
        r
    }

    /// Consumes the next `n` bytes and returns a copy of them.
    pub(crate) fn take_bytes(&mut self, n: usize) -> (v: Vec<u8>)
        requires
            n <= old(self)@.len(),
        ensures
            v@ == old(self)@.take(n as int),
            final(self)@ == old(self)@.skip(n as int),
    {
        let mut v: Vec<u8> = Vec::new();
        let mut i: usize = 0;
        while i < n
            invariant
                i <= n,
                n <= self@.len(),
                v@ == self@.take(i as int),
            decreases n - i,
        {
            let b = self.peek(i);
            v.push(b);
            i = i + 1;
            assert(v@ =~= self@.take(i as int));
        }
        self.advance(n);
        v
    }

    /// The byte at `i` among those that remain.
    fn peek(&self, i: usize) -> (b: u8)
        requires
            i < self@.len(),
        ensures
            b == self@[i as int],
    {
        proof {
            use_type_invariant(self);
        }
        self.data[self.pos + i]
    }

    /// Reads one byte.
    pub(crate) fn read_u8(&mut self) -> (r: Result<u8, Fault>)
        ensures
            fixed_read(old(self)@, final(self)@, r, 1, old(self)@[0]),
    {
        if self.remaining() < 1 {
            self.exhaust();
            return Err(Fault::Eof);
        }
        let b = self.peek(0);
        self.advance(1);
        Ok(b)
    }

    /// Reads a big-endian unsigned 16-bit integer.
    pub(crate) fn read_u16(&mut self) -> (r: Result<u16, Fault>)
        ensures
            fixed_read(old(self)@, final(self)@, r, 2, be16(old(self)@, 0) as u16),
    {
        if self.remaining() < 2 {
            self.exhaust();
            return Err(Fault::Eof);
        }
        let bytes: [u8; 2] = [self.peek(0), self.peek(1)];
        assert(bytes@ =~= self@.take(2));
        let v = decode_u16(bytes);
        self.advance(2);
        Ok(v)
    }

    /// Reads a big-endian unsigned 32-bit integer.
    pub(crate) fn read_u32(&mut self) -> (r: Result<u32, Fault>)
        ensures
            fixed_read(old(self)@, final(self)@, r, 4, be32(old(self)@, 0) as u32),
    {
        if self.remaining() < 4 {
            self.exhaust();
            return Err(Fault::Eof);
        }
        let bytes: [u8; 4] = [self.peek(0), self.peek(1), self.peek(2), self.peek(3)];
        assert(bytes@ =~= self@.take(4));
        let v = decode_u32(bytes);
        self.advance(4);
        Ok(v)
    }

    /// Reads a big-endian unsigned 64-bit integer.
    pub(crate) fn read_u64(&mut self) -> (r: Result<u64, Fault>)
        ensures
            fixed_read(old(self)@, final(self)@, r, 8, be64(old(self)@, 0) as u64),
    {
        if self.remaining() < 8 {
            self.exhaust();
            return Err(Fault::Eof);
        }
        let bytes: [u8; 8] = [self.peek(0), self.peek(1), self.peek(2), self.peek(3), self.peek(4), self.peek(5), self.peek(6), self.peek(7)];
        assert(bytes@ =~= self@.take(8));
        let v = decode_u64(bytes);
        self.advance(8);
        Ok(v)
    }

    /// Reads a big-endian two's complement 16-bit integer.
    pub(crate) fn read_i16(&mut self) -> (r: Result<i16, Fault>)
        ensures
            fixed_read(old(self)@, final(self)@, r, 2, signed16(be16(old(self)@, 0)) as i16),
    {
        if self.remaining() < 2 {
            self.exhaust();
            return Err(Fault::Eof);
        }
        let bytes: [u8; 2] = [self.peek(0), self.peek(1)];
        assert(bytes@ =~= self@.take(2));
        let v = decode_i16(bytes);
        self.advance(2);
        Ok(v)
    }

    /// Reads a big-endian two's complement 32-bit integer.
    pub(crate) fn read_i32(&mut self) -> (r: Result<i32, Fault>)
        ensures
            fixed_read(old(self)@, final(self)@, r, 4, signed32(be32(old(self)@, 0)) as i32),
    {
        if self.remaining() < 4 {
            self.exhaust();
            return Err(Fault::Eof);
        }
        let bytes: [u8; 4] = [self.peek(0), self.peek(1), self.peek(2), self.peek(3)];
        assert(bytes@ =~= self@.take(4));
        let v = decode_i32(bytes);
        self.advance(4);
        Ok(v)
    }

    /// Reads a big-endian two's complement 64-bit integer.
    pub(crate) fn read_i64(&mut self) -> (r: Result<i64, Fault>)
        ensures
            fixed_read(old(self)@, final(self)@, r, 8, signed64(be64(old(self)@, 0)) as i64),
    {
        if self.remaining() < 8 {
            self.exhaust();
            return Err(Fault::Eof);
        }
        let bytes: [u8; 8] = [self.peek(0), self.peek(1), self.peek(2), self.peek(3), self.peek(4), self.peek(5), self.peek(6), self.peek(7)];
        assert(bytes@ =~= self@.take(8));
        let v = decode_i64(bytes);
        self.advance(8);
        Ok(v)
    }
}

} // verus!
