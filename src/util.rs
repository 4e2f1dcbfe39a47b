//! Helpers for reading and writing protocol values from and to byte buffers.
//!
//! See [`Reader`] and [`Writer`]. All fixed-width integers are big-endian
//! (network order), as the wire protocol defines them.

use vstd::prelude::*;
use vstd::slice::slice_subrange;
use vstd::string::StringSliceAdditionalSpecFns;
use vstd::utf8::*;

verus! {

/// Errors that can occur when encoding or decoding a value or message.
#[derive(Debug, Clone, Copy, PartialEq, Eq, Structural)]
pub enum CodecError {
    Decode(DecodeError),
    Encode(EncodeError),
}

/// A value that was read from the wire but is not allowed where it stands.
#[derive(Debug, Clone, Copy, PartialEq, Eq, Structural)]
pub enum Unexpected {
    /// A message type byte that names no known backend message.
    MessageType(u8),
    /// A declared message length below the four bytes of the length field itself.
    MessageLength(i32),
    /// An authentication request type this client does not know.
    AuthenticationType(i32),
    /// A negative number of fields in a row description or data row.
    FieldCount(i16),
    /// A format code other than text (`0`) or binary (`1`).
    FormatCode(i16),
    /// A byte that differs from the one that was expected.
    Byte { expected: u8, got: u8 },
}

/// Errors that can occur when decoding a value or message from a byte buffer.
#[derive(Debug, Clone, Copy, PartialEq, Eq, Structural)]
pub enum DecodeError {
    /// The buffer is shorter than the value that was to be read.
    UnexpectedEof,
    /// A byte differs from the one that was expected.
    UnexpectedByte { expected: u8, got: u8 },
    /// A value is not allowed where it stands.
    UnexpectedValue(Unexpected),
    /// A string is not valid UTF-8.
    Utf8Error,
}

/// Errors that can occur when encoding a value or message to a byte buffer.
#[derive(Debug, Clone, Copy, PartialEq, Eq, Structural)]
pub enum EncodeError {
    /// The buffer is too short for the value to be overwritten.
    UnexpectedEof,
    /// The message is longer than a 32-bit length field can describe.
    MessageTooLong,
}

// ---------------------------------------------------------------------------
// Integers on the wire
// ---------------------------------------------------------------------------

/// The big-endian 16-bit integer at position `p` of `b`, in two's complement.
pub open spec fn i16_at(b: Seq<u8>, p: int) -> i16 {
    let u = b[p] as int * 256 + b[p + 1] as int;
    (if u >= 32768 {
        u - 65536
    } else {
        u
    }) as i16
}

/// The big-endian 32-bit integer at position `p` of `b`, in two's complement.
pub open spec fn i32_at(b: Seq<u8>, p: int) -> i32 {
    let u = b[p] as int * 16777216 + b[p + 1] as int * 65536 + b[p + 2] as int * 256
        + b[p + 3] as int;
    (if u >= 2147483648 {
        u - 4294967296
    } else {
        u
    }) as i32
}

/// The unsigned 32-bit pattern of `v`.
pub open spec fn unsigned32(v: i32) -> int {
    if v < 0 {
        v + 4294967296
    } else {
        v as int
    }
}

/// The four bytes of `v` in big-endian order.
pub open spec fn i32_bytes(v: i32) -> Seq<u8> {
    let u = unsigned32(v);
    seq![
        (u / 16777216) as u8,
        (u / 65536 % 256) as u8,
        (u / 256 % 256) as u8,
        (u % 256) as u8,
    ]
}

/// The unsigned 16-bit pattern of `v`.
pub open spec fn unsigned16(v: i16) -> int {
    if v < 0 {
        v + 65536
    } else {
        v as int
    }
}

/// The two bytes of `v` in big-endian order.
pub open spec fn i16_bytes(v: i16) -> Seq<u8> {
    let u = unsigned16(v);
    seq![(u / 256) as u8, (u % 256) as u8]
}

/// Reading back the bytes of a 32-bit integer gives the integer.
pub proof fn lemma_i32_bytes(v: i32)
    ensures
        i32_bytes(v).len() == 4,
        i32_at(i32_bytes(v), 0) == v,
{
    let u = unsigned32(v);
    assert(0 <= u < 4294967296);
    let b = i32_bytes(v);
    assert(b[0] as int * 16777216 + b[1] as int * 65536 + b[2] as int * 256 + b[3] as int == u);
}

/// Reading back the bytes of a 16-bit integer gives the integer.
pub proof fn lemma_i16_bytes(v: i16)
    ensures
        i16_bytes(v).len() == 2,
        i16_at(i16_bytes(v), 0) == v,
{
    let b = i16_bytes(v);
    assert(b[0] as int * 256 + b[1] as int == unsigned16(v));
}

/// The 16-bit integer at a position depends on those two bytes only.
pub proof fn lemma_i16_at_subrange(a: Seq<u8>, b: Seq<u8>, p: int, q: int)
    requires
        0 <= p && p + 2 <= a.len(),
        0 <= q && q + 2 <= b.len(),
        a.subrange(p, p + 2) == b.subrange(q, q + 2),
    ensures
        i16_at(a, p) == i16_at(b, q),
{
    assert(a[p] == a.subrange(p, p + 2)[0]);
    assert(a[p + 1] == a.subrange(p, p + 2)[1]);
}

/// The 32-bit integer at a position depends on those four bytes only.
pub proof fn lemma_i32_at_subrange(a: Seq<u8>, b: Seq<u8>, p: int, q: int)
    requires
        0 <= p && p + 4 <= a.len(),
        0 <= q && q + 4 <= b.len(),
        a.subrange(p, p + 4) == b.subrange(q, q + 4),
    ensures
        i32_at(a, p) == i32_at(b, q),
{
    assert(a[p] == a.subrange(p, p + 4)[0]);
    assert(a[p + 1] == a.subrange(p, p + 4)[1]);
    assert(a[p + 2] == a.subrange(p, p + 4)[2]);
    assert(a[p + 3] == a.subrange(p, p + 4)[3]);
}

// ---------------------------------------------------------------------------
// The reading rules, over a buffer and a position
// ---------------------------------------------------------------------------

/// A successful read yields a value and the position after it.
pub type Step<T> = Result<(T, nat), DecodeError>;

pub open spec fn spec_read_u8(b: Seq<u8>, p: nat) -> Step<u8> {
    if p + 1 <= b.len() {
        Ok((b[p as int], p + 1))
    } else {
        Err(DecodeError::UnexpectedEof)
    }
}

pub open spec fn spec_read_i16(b: Seq<u8>, p: nat) -> Step<i16> {
    if p + 2 <= b.len() {
        Ok((i16_at(b, p as int), p + 2))
    } else {
        Err(DecodeError::UnexpectedEof)
    }
}

pub open spec fn spec_read_i32(b: Seq<u8>, p: nat) -> Step<i32> {
    if p + 4 <= b.len() {
        Ok((i32_at(b, p as int), p + 4))
    } else {
        Err(DecodeError::UnexpectedEof)
    }
}

pub open spec fn spec_read_bytes(b: Seq<u8>, p: nat, n: nat) -> Step<Seq<u8>> {
    if p + n <= b.len() {
        Ok((b.subrange(p as int, (p + n) as int), p + n))
    } else {
        Err(DecodeError::UnexpectedEof)
    }
}

/// The position of the first NUL byte at or after `p`, if any.
pub open spec fn nul_index(b: Seq<u8>, p: nat) -> Option<nat>
    decreases b.len() - p,
{
    if p >= b.len() {
        None
    } else if b[p as int] == 0 {
        Some(p)
    } else {
        nul_index(b, p + 1)
    }
}

/// The first position at or after `i` where `a` and `b` differ, or the end
/// of `a` if they do not.
pub open spec fn first_difference(a: Seq<u8>, b: Seq<u8>, i: nat) -> nat
    decreases a.len() - i,
{
    if i >= a.len() {
        i
    } else if a[i as int] != b[i as int] {
        i
    } else {
        first_difference(a, b, i + 1)
    }
}

/// A NUL-terminated UTF-8 string; the position after it is past the NUL byte.
pub open spec fn spec_read_cstring(b: Seq<u8>, p: nat) -> Step<Seq<char>> {
    match nul_index(b, p) {
        None => Err(DecodeError::UnexpectedEof),
        Some(e) => if valid_utf8(b.subrange(p as int, e as int)) {
            Ok((decode_utf8(b.subrange(p as int, e as int)), e + 1))
        } else {
            Err(DecodeError::Utf8Error)
        },
    }
}

pub proof fn lemma_nul_index_skip(b: Seq<u8>, p: nat, i: nat)
    requires
        p <= i <= b.len(),
        forall|k: int| p <= k < i ==> b[k] != 0,
    ensures
        nul_index(b, p) == nul_index(b, i),
    decreases i - p,
{
    if p < i {
        lemma_nul_index_skip(b, p + 1, i);
    }
}

pub proof fn lemma_nul_index_bounds(b: Seq<u8>, p: nat)
    ensures
        nul_index(b, p) matches Some(e) ==> p <= e < b.len() && b[e as int] == 0,
    decreases b.len() - p,
{
    if p < b.len() && b[p as int] != 0 {
        lemma_nul_index_bounds(b, p + 1);
    }
}

// ---------------------------------------------------------------------------
// Reader
// ---------------------------------------------------------------------------

/// A helper struct to read values from a byte buffer
/// in a safe manner.
pub struct Reader<'a> {
    buffer: &'a [u8],
    position: usize,
}

/// `after` is `before` moved as the reading rule `s` says, and `r` is its
/// result: on success the value and the new position, on failure the error
/// with the position unchanged.
pub open spec fn stepped<'a, T: View>(
    before: Reader<'a>,
    after: Reader<'a>,
    r: Result<T, DecodeError>,
    s: Step<T::V>,
) -> bool {
    &&& after.bytes() == before.bytes()
    &&& match s {
        Ok((v, q)) => r matches Ok(x) && x@ == v && after.pos() == q,
        Err(e) => r == Err::<T, DecodeError>(e) && after.pos() == before.pos(),
    }
}

impl<'a> Reader<'a> {
    /// The whole buffer this reader reads from.
    pub closed spec fn bytes(&self) -> Seq<u8> {
        self.buffer@
    }

    /// The position of the next byte to read.
    pub closed spec fn pos(&self) -> nat {
        self.position as nat
    }

    /// The position lies within the buffer.
    pub open spec fn wf(&self) -> bool {
        self.pos() <= self.bytes().len()
    }

    /// Create a new reader over a given buffer.
    pub fn new(buffer: &'a [u8]) -> (r: Self)
        ensures
            r.wf(),
            r.bytes() == buffer@,
            r.pos() == 0,
    {
        Self { buffer, position: 0 }
    }

    /// Skip the next `n` bytes in the buffer.
    pub fn skip(&mut self, n: usize) -> (r: Result<(), DecodeError>)
        requires
            old(self).wf(),
        ensures
            final(self).wf(),
            final(self).bytes() == old(self).bytes(),
            old(self).pos() + n <= old(self).bytes().len() ==> r is Ok && final(self).pos()
                == old(self).pos() + n,
            old(self).pos() + n > old(self).bytes().len() ==> r == Err::<(), DecodeError>(
                DecodeError::UnexpectedEof,
            ) && final(self).pos() == old(self).pos(),
    {
        if n > self.buffer.len() - self.position {
            return Err(DecodeError::UnexpectedEof);
        }
        self.position = self.position + n;
        Ok(())
    }

    /// Returns an error if the buffer does not contain at least `n` more bytes.
    pub fn ensure_remaining(&self, n: usize) -> (r: Result<(), DecodeError>)
        requires
            self.wf(),
        ensures
            r is Ok <==> self.pos() + n <= self.bytes().len(),
            r is Err ==> r == Err::<(), DecodeError>(DecodeError::UnexpectedEof),
    {
        if n > self.buffer.len() - self.position {
            return Err(DecodeError::UnexpectedEof);
        }
        Ok(())
    }

    /// Returns an error if the buffer does not contain exactly `n` more bytes.
    pub fn ensure_remaining_exact(&self, n: usize) -> (r: Result<(), DecodeError>)
        requires
            self.wf(),
        ensures
            r is Ok <==> self.pos() + n == self.bytes().len(),
            r is Err ==> r == Err::<(), DecodeError>(DecodeError::UnexpectedEof),
    {
        if n != self.buffer.len() - self.position {
            return Err(DecodeError::UnexpectedEof);
        }
        Ok(())
    }

    /// Peek at the next byte in the buffer without advancing the position.
    pub fn peek_u8(&self) -> (r: Result<u8, DecodeError>)
        requires
            self.wf(),
        ensures
            r == match spec_read_u8(self.bytes(), self.pos()) {
                Ok((v, _)) => Ok::<u8, DecodeError>(v),
                Err(e) => Err(e),
            },
    {
        if self.position >= self.buffer.len() {
            return Err(DecodeError::UnexpectedEof);
        }
        Ok(self.buffer[self.position])
    }

    /// Peek at the next `N` bytes in the buffer without advancing the position.
    pub fn peek_bytes<const N: usize>(&self) -> (r: Result<&'a [u8], DecodeError>)
        requires
            self.wf(),
        ensures
            match spec_read_bytes(self.bytes(), self.pos(), N as nat) {
                Ok((v, _)) => r matches Ok(x) && x@ == v,
                Err(e) => r == Err::<&'a [u8], DecodeError>(e),
            },
    {
        if N > self.buffer.len() - self.position {
            return Err(DecodeError::UnexpectedEof);
        }
        Ok(slice_subrange(self.buffer, self.position, self.position + N))
    }

    /// Returns an error if the next byte in the buffer is not equal to the
    /// expected value.
    pub fn expect_u8(&self, value: u8) -> (r: Result<(), DecodeError>)
        requires
            self.wf(),
        ensures
            r == match spec_read_u8(self.bytes(), self.pos()) {
                Ok((v, _)) => if v == value {
                    Ok::<(), DecodeError>(())
                } else {
                    Err(DecodeError::UnexpectedByte { expected: value, got: v })
                },
                Err(e) => Err(e),
            },
    {
        let got = self.peek_u8()?;
        if got != value {
            return Err(DecodeError::UnexpectedByte { expected: value, got });
        }
        Ok(())
    }

    /// Read a single byte from the buffer.
    pub fn read_u8(&mut self) -> (r: Result<u8, DecodeError>)
        requires
            old(self).wf(),
        ensures
            final(self).wf(),
            stepped(*old(self), *final(self), r, spec_read_u8(old(self).bytes(), old(self).pos())),
    {
        if self.position >= self.buffer.len() {
            return Err(DecodeError::UnexpectedEof);
        }
        let value = self.buffer[self.position];
        self.position = self.position + 1;
        Ok(value)
    }

    /// Read a single byte and check that it is the expected one; a byte
    /// that differs is consumed all the same.
    pub fn read_this_u8(&mut self, expected: u8) -> (r: Result<u8, DecodeError>)
        requires
            old(self).wf(),
        ensures
            final(self).wf(),
            final(self).bytes() == old(self).bytes(),
            match spec_read_u8(old(self).bytes(), old(self).pos()) {
                Ok((v, q)) => final(self).pos() == q && if v == expected {
                    r == Ok::<u8, DecodeError>(v)
                } else {
                    r == Err::<u8, DecodeError>(
                        DecodeError::UnexpectedValue(Unexpected::Byte { expected, got: v }),
                    )
                },
                Err(e) => r == Err::<u8, DecodeError>(e) && final(self).pos() == old(self).pos(),
            },
    {
        let got = self.read_u8()?;
        if got != expected {
            return Err(DecodeError::UnexpectedValue(Unexpected::Byte { expected, got }));
        }
        Ok(got)
    }

    /// Read a slice of `n` bytes from the buffer.
    pub fn read_bytes(&mut self, n: usize) -> (r: Result<&'a [u8], DecodeError>)
        requires
            old(self).wf(),
        ensures
            final(self).wf(),
            stepped(
                *old(self),
                *final(self),
                r,
                spec_read_bytes(old(self).bytes(), old(self).pos(), n as nat),
            ),
    {
        if n > self.buffer.len() - self.position {
            return Err(DecodeError::UnexpectedEof);
        }
        let value = slice_subrange(self.buffer, self.position, self.position + n);
        self.position = self.position + n;
        Ok(value)
    }

    /// Read a slice of `N` bytes from the buffer.
    pub fn read_bytes_const<const N: usize>(&mut self) -> (r: Result<&'a [u8], DecodeError>)
        requires
            old(self).wf(),
        ensures
            final(self).wf(),
            stepped(
                *old(self),
                *final(self),
                r,
                spec_read_bytes(old(self).bytes(), old(self).pos(), N as nat),
            ),
    {
        self.read_bytes(N)
    }

    /// Read the remaining bytes in the buffer.
    pub fn read_remaining_bytes(&mut self) -> (r: Result<&'a [u8], DecodeError>)
        requires
            old(self).wf(),
        ensures
            final(self).wf(),
            final(self).bytes() == old(self).bytes(),
            final(self).pos() == old(self).bytes().len(),
            r matches Ok(x) && x@ == old(self).bytes().subrange(
                old(self).pos() as int,
                old(self).bytes().len() as int,
            ),
    {
        let value = slice_subrange(self.buffer, self.position, self.buffer.len());
        self.position = self.buffer.len();
        Ok(value)
    }

    /// Read exactly `length` bytes from the buffer and throw an error
    /// if the buffer contains more or less bytes than that.
    pub fn read_remaining_bytes_exact(&mut self, length: usize) -> (r: Result<&'a [u8], DecodeError>)
        requires
            old(self).wf(),
        ensures
            final(self).wf(),
            final(self).bytes() == old(self).bytes(),
            old(self).pos() + length == old(self).bytes().len() ==> {
                &&& r matches Ok(x) && x@ == old(self).bytes().subrange(
                    old(self).pos() as int,
                    old(self).bytes().len() as int,
                )
                &&& final(self).pos() == old(self).bytes().len()
            },
            old(self).pos() + length != old(self).bytes().len() ==> {
                &&& r == Err::<&'a [u8], DecodeError>(DecodeError::UnexpectedEof)
                &&& final(self).pos() == old(self).pos()
            },
    {
        if length != self.buffer.len() - self.position {
            return Err(DecodeError::UnexpectedEof);
        }
        self.read_remaining_bytes()
    }

    /// Read a 16-bit integer from the buffer in big-endian (network) order.
    pub fn read_i16(&mut self) -> (r: Result<i16, DecodeError>)
        requires
            old(self).wf(),
        ensures
            final(self).wf(),
            stepped(*old(self), *final(self), r, spec_read_i16(old(self).bytes(), old(self).pos())),
    {
        let bytes = self.read_bytes_const::<2>()?;
        Ok(i16_from_be(bytes[0], bytes[1]))
    }

    /// Peek at the next 32-bit integer in the buffer without advancing the position.
    pub fn peek_i32(&self) -> (r: Result<i32, DecodeError>)
        requires
            self.wf(),
        ensures
            r == match spec_read_i32(self.bytes(), self.pos()) {
                Ok((v, _)) => Ok::<i32, DecodeError>(v),
                Err(e) => Err(e),
            },
    {
        let bytes = self.peek_bytes::<4>()?;
        Ok(i32_from_be(bytes[0], bytes[1], bytes[2], bytes[3]))
    }

    /// Read a 32-bit integer from the buffer in big-endian (network) order.
    pub fn read_i32(&mut self) -> (r: Result<i32, DecodeError>)
        requires
            old(self).wf(),
        ensures
            final(self).wf(),
            stepped(*old(self), *final(self), r, spec_read_i32(old(self).bytes(), old(self).pos())),
    {
        let bytes = self.read_bytes_const::<4>()?;
        Ok(i32_from_be(bytes[0], bytes[1], bytes[2], bytes[3]))
    }

    /// Returns an error if the next 32-bit integer in the buffer is not equal to
    /// the expected value (naming the first byte that differs) or the buffer
    /// does not contain enough bytes to contain a 32-bit integer.
    pub fn expect_i32(&self, value: i32) -> (r: Result<(), DecodeError>)
        requires
            self.wf(),
        ensures
            match spec_read_bytes(self.bytes(), self.pos(), 4) {
                Ok((got, _)) => {
                    let want = i32_bytes(value);
                    let k = first_difference(want, got, 0) as int;
                    if got == want {
                        r == Ok::<(), DecodeError>(())
                    } else {
                        r == Err::<(), DecodeError>(
                            DecodeError::UnexpectedByte { expected: want[k], got: got[k] },
                        )
                    }
                },
                Err(e) => r == Err::<(), DecodeError>(e),
            },
            r is Ok ==> spec_read_i32(self.bytes(), self.pos()) == Ok::<(i32, nat), DecodeError>(
                (value, self.pos() + 4),
            ),
    {
        let got = self.peek_bytes::<4>()?;
        let mut writer = Writer::new();
        writer.write_i32(value);
        let want = writer.finish();
        proof {
            lemma_i32_bytes(value);
        }
        let mut k: usize = 0;
        while k < 4
            invariant
                k <= 4,
                want@ == i32_bytes(value),
                want@.len() == 4,
                self.pos() + 4 <= self.bytes().len(),
                got@ == self.bytes().subrange(self.pos() as int, self.pos() + 4int),
                forall|j: int| 0 <= j < k ==> want@[j] == got@[j],
                first_difference(want@, got@, 0) == first_difference(want@, got@, k as nat),
            decreases 4 - k,
        {
            if want[k] != got[k] {
                return Err(DecodeError::UnexpectedByte { expected: want[k], got: got[k] });
            }
            k = k + 1;
        }
        assert(want@ =~= got@);
        assert(want@.subrange(0, 4) =~= want@);
        proof {
            lemma_i32_at_subrange(self.bytes(), want@, self.pos() as int, 0);
        }
        Ok(())
    }

    /// Read a C string (null-terminated) from the buffer.
    pub fn read_cstring(&mut self) -> (r: Result<&'a str, DecodeError>)
        requires
            old(self).wf(),
        ensures
            final(self).wf(),
            stepped(
                *old(self),
                *final(self),
                r,
                spec_read_cstring(old(self).bytes(), old(self).pos()),
            ),
    {
        let start = self.position;
        let mut end = start;
        while end < self.buffer.len() && self.buffer[end] != 0
            invariant
                start == self.position,
                start <= end <= self.buffer@.len(),
                forall|k: int| start <= k < end ==> self.buffer@[k] != 0,
            decreases self.buffer@.len() - end,
        {
            end = end + 1;
        }
        proof {
            lemma_nul_index_skip(self.buffer@, start as nat, end as nat);
        }
        if end == self.buffer.len() {
            return Err(DecodeError::UnexpectedEof);
        }
        let bytes = slice_subrange(self.buffer, start, end);
        match utf8_str(bytes) {
            Some(string) => {
                proof {
                    encode_utf8_decode_utf8(string@);
                }
                self.position = end + 1;
                Ok(string)
            },
            None => Err(DecodeError::Utf8Error),
        }
    }

    /// Backtrack the last `n` bytes in the buffer, but at most the length of
    /// the buffer.
    pub fn backtrack(&mut self, n: usize)
        requires
            old(self).wf(),
        ensures
            final(self).wf(),
            final(self).bytes() == old(self).bytes(),
            final(self).pos() == if n <= old(self).pos() {
                old(self).pos() - n
            } else {
                0
            },
    {
        self.position = self.position.saturating_sub(n);
    }

    /// Returns an error if the reader has not read all the bytes in the buffer.
    pub fn finish(self) -> (r: Result<(), DecodeError>)
        requires
            self.wf(),
        ensures
            r is Ok <==> self.pos() == self.bytes().len(),
            r is Err ==> r == Err::<(), DecodeError>(DecodeError::UnexpectedEof),
    {
        if self.position != self.buffer.len() {
            return Err(DecodeError::UnexpectedEof);
        }
        Ok(())
    }
}

/// The 16-bit integer of two big-endian bytes.
fn i16_from_be(hi: u8, lo: u8) -> (r: i16)
    ensures
        r == i16_at(seq![hi, lo], 0),
{
    let u: u16 = (hi as u16) * 256 + (lo as u16);
    if u >= 32768 {
        ((u - 32768) as i16) - 32767 - 1
    } else {
        u as i16
    }
}

/// The 32-bit integer of four big-endian bytes.
fn i32_from_be(b0: u8, b1: u8, b2: u8, b3: u8) -> (r: i32)
    ensures
        r == i32_at(seq![b0, b1, b2, b3], 0),
{
    let u: u32 = (b0 as u32) * 16777216 + (b1 as u32) * 65536 + (b2 as u32) * 256 + (b3 as u32);
    if u >= 2147483648 {
        ((u - 2147483648) as i32) - 2147483647 - 1
    } else {
        u as i32
    }
}

/// Relies on `std::str::from_utf8`: it succeeds exactly on valid UTF-8, and
/// the string it returns has the given bytes as its encoding.
#[verifier::external_body]
pub(crate) fn utf8_str<'a>(bytes: &'a [u8]) -> (r: Option<&'a str>)
    ensures
        r is Some <==> valid_utf8(bytes@),
        r matches Some(s) ==> s.spec_bytes() == bytes@,
{
    match std::str::from_utf8(bytes) {
        Ok(s) => Some(s),
        Err(_) => None,
    }
}

// ---------------------------------------------------------------------------
// Writer
// ---------------------------------------------------------------------------

/// A helper struct to write values to a byte buffer
/// in a safe manner.
pub struct Writer {
    buffer: Vec<u8>,
}

impl View for Writer {
    type V = Seq<u8>;

    closed spec fn view(&self) -> Seq<u8> {
        self.buffer@
    }
}

impl Writer {
    /// Create a new writer.
    pub fn new() -> (r: Self)
        ensures
            r@ == Seq::<u8>::empty(),
    {
        Self { buffer: Vec::new() }
    }

    /// Skip the next `n` bytes in the buffer, writing zeros there.
    pub fn skip(&mut self, n: usize)
        ensures
            final(self)@ == old(self)@ + Seq::new(n as nat, |i: int| 0u8),
    {
        let ghost start = self.buffer@;
        let mut i: usize = 0;
        while i < n
            invariant
                i <= n,
                self.buffer@ == start + Seq::new(i as nat, |k: int| 0u8),
            decreases n - i,
        {
            self.buffer.push(0);
            i = i + 1;
            assert(self.buffer@ =~= start + Seq::new(i as nat, |k: int| 0u8));
        }
    }

    /// Write a single byte to the buffer.
    pub fn write_u8(&mut self, value: u8)
        ensures
            final(self)@ == old(self)@.push(value),
    {
        self.buffer.push(value);
    }

    /// Write a slice of bytes to the buffer.
    pub fn write_bytes(&mut self, bytes: &[u8])
        ensures
            final(self)@ == old(self)@ + bytes@,
    {
        let ghost start = self.buffer@;
        let mut i: usize = 0;
        while i < bytes.len()
            invariant
                i <= bytes@.len(),
                self.buffer@ == start + bytes@.subrange(0, i as int),
            decreases bytes@.len() - i,
        {
            self.buffer.push(bytes[i]);
            i = i + 1;
            assert(self.buffer@ =~= start + bytes@.subrange(0, i as int));
        }
        assert(bytes@.subrange(0, bytes@.len() as int) =~= bytes@);
    }

    /// Write a 16-bit integer to the buffer in big-endian (network) order.
    pub fn write_i16(&mut self, value: i16)
        ensures
            final(self)@ == old(self)@ + i16_bytes(value),
    {
        let u: u16 = if value < 0 {
            ((value + 32767 + 1) as u16) + 32768
        } else {
            value as u16
        };
        self.buffer.push((u / 256) as u8);
        self.buffer.push((u % 256) as u8);
        assert(self.buffer@ =~= old(self)@ + i16_bytes(value));
    }

    /// Write a 32-bit integer to the buffer in big-endian (network) order.
    pub fn write_i32(&mut self, value: i32)
        ensures
            final(self)@ == old(self)@ + i32_bytes(value),
    {
        let u = u32_pattern(value);
        self.buffer.push((u / 16777216) as u8);
        self.buffer.push((u / 65536 % 256) as u8);
        self.buffer.push((u / 256 % 256) as u8);
        self.buffer.push((u % 256) as u8);
        assert(self.buffer@ =~= old(self)@ + i32_bytes(value));
    }

    /// Write a 32-bit integer to the buffer in big-endian (network) order at a specific position.
    pub fn write_i32_at(&mut self, value: i32, position: usize) -> (r: Result<(), EncodeError>)
        ensures
            position + 4 <= old(self)@.len() ==> r is Ok && final(self)@ == old(self)@.subrange(
                0,
                position as int,
            ) + i32_bytes(value) + old(self)@.subrange(position + 4, old(self)@.len() as int),
            position + 4 > old(self)@.len() ==> r == Err::<(), EncodeError>(
                EncodeError::UnexpectedEof,
            ) && final(self)@ == old(self)@,
    {
        if self.buffer.len() < 4 || position > self.buffer.len() - 4 {
            return Err(EncodeError::UnexpectedEof);
        }
        let u = u32_pattern(value);
        self.buffer.set(position, (u / 16777216) as u8);
        self.buffer.set(position + 1, (u / 65536 % 256) as u8);
        self.buffer.set(position + 2, (u / 256 % 256) as u8);
        self.buffer.set(position + 3, (u % 256) as u8);
        assert(self.buffer@ =~= old(self)@.subrange(0, position as int) + i32_bytes(value)
            + old(self)@.subrange(position + 4, old(self)@.len() as int));
        Ok(())
    }

    /// Write a C string (null-terminated) to the buffer.
    pub fn write_cstring(&mut self, string: &str)
        ensures
            final(self)@ == old(self)@ + encode_utf8(string@) + seq![0u8],
    {
        self.write_bytes(string.as_bytes());
        self.write_u8(0);
    }

    /// Backtrack the last `n` bytes in the buffer, but at most the length of
    /// the buffer.
    pub fn backtrack(&mut self, n: usize)
        ensures
            final(self)@ == if n <= old(self)@.len() {
                old(self)@.subrange(0, old(self)@.len() - n)
            } else {
                Seq::<u8>::empty()
            },
    {
        let keep = self.buffer.len().saturating_sub(n);
        self.buffer.truncate(keep);
        assert(self.buffer@ =~= if n <= old(self)@.len() {
            old(self)@.subrange(0, old(self)@.len() - n)
        } else {
            Seq::<u8>::empty()
        });
    }

    /// Try to backtrack exactly the last `n` bytes in the buffer.
    pub fn try_backtrack(&mut self, n: usize) -> (r: Result<(), DecodeError>)
        ensures
            n <= old(self)@.len() ==> r is Ok && final(self)@ == old(self)@.subrange(
                0,
                old(self)@.len() - n,
            ),
            n > old(self)@.len() ==> r == Err::<(), DecodeError>(DecodeError::UnexpectedEof)
                && final(self)@ == old(self)@,
    {
        if n > self.buffer.len() {
            return Err(DecodeError::UnexpectedEof);
        }
        let keep = self.buffer.len() - n;
        self.buffer.truncate(keep);
        Ok(())
    }

    /// Return the current length of the underlying buffer.
    pub fn len(&self) -> (r: usize)
        ensures
            r == self@.len(),
    {
        self.buffer.len()
    }

    /// Finish the writer and return the underlying buffer.
    pub fn finish(self) -> (r: Vec<u8>)
        ensures
            r@ == self@,
    {
        self.buffer
    }
}

impl Default for Writer {
    fn default() -> (r: Self)
        ensures
            r@ == Seq::<u8>::empty(),
    {
        Self::new()
    }
}

/// The unsigned 32-bit pattern of a signed integer.
fn u32_pattern(value: i32) -> (u: u32)
    ensures
        u == unsigned32(value),
{
    if value < 0 {
        ((value + 2147483647 + 1) as u32) + 2147483648
    } else {
        value as u32
    }
}

} // verus!
