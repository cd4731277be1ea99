//! Primitive wire encodings.
//!
//! Every multi-byte integer on the wire is big-endian. A length-prefixed
//! byte field is a 4-byte signed length followed by that many raw bytes;
//! a negative length decodes to an empty value. The spec functions here
//! define both directions mathematically; the exec functions append to or
//! consume from byte buffers and are proved to match them.

use vstd::prelude::*;

use crate::error::DecodeError;

verus! {

// ---------------------------------------------------------------------
// Two's-complement conversions between signed and unsigned views.
// ---------------------------------------------------------------------

/// The unsigned 32-bit word carrying the two's-complement bits of `v`.
pub open spec fn u32_from_i32(v: i32) -> u32 {
    if v >= 0 {
        v as u32
    } else {
        (v + 0x1_0000_0000) as u32
    }
}

/// The signed value whose two's-complement bits are `w`.
pub open spec fn i32_from_u32(w: u32) -> i32 {
    if w < 0x8000_0000 {
        w as i32
    } else {
        (w - 0x1_0000_0000) as i32
    }
}

/// The unsigned 64-bit word carrying the two's-complement bits of `v`.
pub open spec fn u64_from_i64(v: i64) -> u64 {
    if v >= 0 {
        v as u64
    } else {
        (v + 0x1_0000_0000_0000_0000) as u64
    }
}

/// The signed value whose two's-complement bits are `w`.
pub open spec fn i64_from_u64(w: u64) -> i64 {
    if w < 0x8000_0000_0000_0000 {
        w as i64
    } else {
        (w - 0x1_0000_0000_0000_0000) as i64
    }
}

pub proof fn lemma_i32_round(v: i32)
    ensures
        i32_from_u32(u32_from_i32(v)) == v,
{
}

pub proof fn lemma_i64_round(v: i64)
    ensures
        i64_from_u64(u64_from_i64(v)) == v,
{
}

/// Exec twin of [`u32_from_i32`].
pub fn u32_of_i32(v: i32) -> (w: u32)
    ensures
        w == u32_from_i32(v),
{
    if v >= 0 {
        v as u32
    } else {
        ((v as i64) + 0x1_0000_0000i64) as u32
    }
}

/// Exec twin of [`i32_from_u32`].
pub fn i32_of_u32(w: u32) -> (v: i32)
    ensures
        v == i32_from_u32(w),
{
    if w < 0x8000_0000 {
        w as i32
    } else {
        ((w as i64) - 0x1_0000_0000i64) as i32
    }
}

/// Exec twin of [`u64_from_i64`].
pub fn u64_of_i64(v: i64) -> (w: u64)
    ensures
        w == u64_from_i64(v),
{
    if v >= 0 {
        v as u64
    } else {
        ((v as i128) + 0x1_0000_0000_0000_0000i128) as u64
    }
}

/// Exec twin of [`i64_from_u64`].
pub fn i64_of_u64(w: u64) -> (v: i64)
    ensures
        v == i64_from_u64(w),
{
    if w < 0x8000_0000_0000_0000 {
        w as i64
    } else {
        ((w as i128) - 0x1_0000_0000_0000_0000i128) as i64
    }
}

// ---------------------------------------------------------------------
// Big-endian byte images of integers.
// ---------------------------------------------------------------------

/// The four big-endian bytes of `w`.
pub open spec fn spec_be32(w: u32) -> Seq<u8> {
    seq![
        ((w >> 24) & 0xff) as u8,
        ((w >> 16) & 0xff) as u8,
        ((w >> 8) & 0xff) as u8,
        (w & 0xff) as u8,
    ]
}

/// The eight big-endian bytes of `w`.
pub open spec fn spec_be64(w: u64) -> Seq<u8> {
    seq![
        ((w >> 56) & 0xff) as u8,
        ((w >> 48) & 0xff) as u8,
        ((w >> 40) & 0xff) as u8,
        ((w >> 32) & 0xff) as u8,
        ((w >> 24) & 0xff) as u8,
        ((w >> 16) & 0xff) as u8,
        ((w >> 8) & 0xff) as u8,
        (w & 0xff) as u8,
    ]
}

/// The word whose big-endian bytes are `b0 b1 b2 b3`.
pub open spec fn u32_of_be4(b0: u8, b1: u8, b2: u8, b3: u8) -> u32 {
    ((b0 as u32) << 24) | ((b1 as u32) << 16) | ((b2 as u32) << 8) | (b3 as u32)
}

/// The word whose big-endian bytes are `b0 ... b7`.
pub open spec fn u64_of_be8(b0: u8, b1: u8, b2: u8, b3: u8, b4: u8, b5: u8, b6: u8, b7: u8) -> u64 {
    ((b0 as u64) << 56) | ((b1 as u64) << 48) | ((b2 as u64) << 40) | ((b3 as u64) << 32)
        | ((b4 as u64) << 24) | ((b5 as u64) << 16) | ((b6 as u64) << 8) | (b7 as u64)
}

/// Exec twin of [`u32_of_be4`].
pub fn be4_to_u32(b0: u8, b1: u8, b2: u8, b3: u8) -> (w: u32)
    ensures
        w == u32_of_be4(b0, b1, b2, b3),
{
    ((b0 as u32) << 24) | ((b1 as u32) << 16) | ((b2 as u32) << 8) | (b3 as u32)
}

/// Reassembling the big-endian bytes of a 32-bit word gives the word back.
pub proof fn lemma_be32_reassemble(w: u32)
    ensures
        u32_of_be4(
            ((w >> 24) & 0xff) as u8,
            ((w >> 16) & 0xff) as u8,
            ((w >> 8) & 0xff) as u8,
            (w & 0xff) as u8,
        ) == w,
{
    assert(u32_of_be4(
        ((w >> 24) & 0xff) as u8,
        ((w >> 16) & 0xff) as u8,
        ((w >> 8) & 0xff) as u8,
        (w & 0xff) as u8,
    ) == w) by (bit_vector);
}

/// Reassembling the big-endian bytes of a 64-bit word gives the word back.
pub proof fn lemma_be64_reassemble(w: u64)
    ensures
        u64_of_be8(
            ((w >> 56) & 0xff) as u8,
            ((w >> 48) & 0xff) as u8,
            ((w >> 40) & 0xff) as u8,
            ((w >> 32) & 0xff) as u8,
            ((w >> 24) & 0xff) as u8,
            ((w >> 16) & 0xff) as u8,
            ((w >> 8) & 0xff) as u8,
            (w & 0xff) as u8,
        ) == w,
{
    assert(u64_of_be8(
        ((w >> 56) & 0xff) as u8,
        ((w >> 48) & 0xff) as u8,
        ((w >> 40) & 0xff) as u8,
        ((w >> 32) & 0xff) as u8,
        ((w >> 24) & 0xff) as u8,
        ((w >> 16) & 0xff) as u8,
        ((w >> 8) & 0xff) as u8,
        (w & 0xff) as u8,
    ) == w) by (bit_vector);
}

// ---------------------------------------------------------------------
// Field encodings: signed integers, single bytes, length-prefixed bytes.
// ---------------------------------------------------------------------

/// Wire image of a signed 32-bit field.
pub open spec fn enc_i32(v: i32) -> Seq<u8> {
    spec_be32(u32_from_i32(v))
}

/// Wire image of a signed 64-bit field.
pub open spec fn enc_i64(v: i64) -> Seq<u8> {
    spec_be64(u64_from_i64(v))
}

/// Wire image of a boolean field: one byte, `1` or `0`.
pub open spec fn enc_bool(x: bool) -> Seq<u8> {
    seq![if x { 1u8 } else { 0u8 }]
}

/// Wire image of a length-prefixed byte field. Meaningful when `b` holds
/// at most `i32::MAX` bytes, the most the length prefix can declare.
pub open spec fn enc_buffer(b: Seq<u8>) -> Seq<u8>
    recommends
        b.len() <= 0x7fff_ffff,
{
    enc_i32(b.len() as i32) + b
}

// ---------------------------------------------------------------------
// Spec-level readers. Each consumes one field from the front of a byte
// sequence and yields the value and the bytes left, or nothing if the
// sequence is too short.
// ---------------------------------------------------------------------

pub open spec fn sp_u8(b: Seq<u8>) -> Option<(u8, Seq<u8>)> {
    if b.len() >= 1 {
        Some((b[0], b.skip(1)))
    } else {
        None
    }
}

pub open spec fn sp_u32(b: Seq<u8>) -> Option<(u32, Seq<u8>)> {
    if b.len() >= 4 {
        Some((u32_of_be4(b[0], b[1], b[2], b[3]), b.skip(4)))
    } else {
        None
    }
}

pub open spec fn sp_i32(b: Seq<u8>) -> Option<(i32, Seq<u8>)> {
    match sp_u32(b) {
        Some(p) => Some((i32_from_u32(p.0), p.1)),
        None => None,
    }
}

pub open spec fn sp_u64(b: Seq<u8>) -> Option<(u64, Seq<u8>)> {
    if b.len() >= 8 {
        Some((u64_of_be8(b[0], b[1], b[2], b[3], b[4], b[5], b[6], b[7]), b.skip(8)))
    } else {
        None
    }
}

pub open spec fn sp_i64(b: Seq<u8>) -> Option<(i64, Seq<u8>)> {
    match sp_u64(b) {
        Some(p) => Some((i64_from_u64(p.0), p.1)),
        None => None,
    }
}

/// A boolean field is any byte; nonzero decodes to `true`.
pub open spec fn sp_bool(b: Seq<u8>) -> Option<(bool, Seq<u8>)> {
    match sp_u8(b) {
        Some(p) => Some((p.0 != 0, p.1)),
        None => None,
    }
}

/// A length-prefixed byte field: a negative declared length decodes to an
/// empty value consuming no further bytes; a declared length beyond the
/// bytes left fails.
pub open spec fn sp_buffer(b: Seq<u8>) -> Option<(Seq<u8>, Seq<u8>)> {
    match sp_i32(b) {
        Some(p) => {
            let n = p.0;
            let rest = p.1;
            if n < 0 {
                Some((Seq::empty(), rest))
            } else if rest.len() >= n {
                Some((rest.take(n as int), rest.skip(n as int)))
            } else {
                None
            }
        },
        None => None,
    }
}

// ---------------------------------------------------------------------
// Round trips: reading an encoded field from the front of a buffer gives
// the value back and leaves exactly the trailing bytes.
// ---------------------------------------------------------------------

/// Appending nothing changes nothing.
pub proof fn lemma_concat_empty(a: Seq<u8>)
    ensures
        a + Seq::<u8>::empty() == a,
{
    assert(a + Seq::<u8>::empty() =~= a);
}

pub proof fn lemma_sp_u8_round(x: u8, rest: Seq<u8>)
    ensures
        sp_u8(seq![x] + rest) == Some((x, rest)),
{
    let b = seq![x] + rest;
    assert(b[0] == x);
    assert(b.skip(1) =~= rest);
}

pub proof fn lemma_sp_bool_round(x: bool, rest: Seq<u8>)
    ensures
        sp_bool(enc_bool(x) + rest) == Some((x, rest)),
{
    lemma_sp_u8_round(if x { 1u8 } else { 0u8 }, rest);
}

pub proof fn lemma_sp_u32_round(w: u32, rest: Seq<u8>)
    ensures
        sp_u32(spec_be32(w) + rest) == Some((w, rest)),
{
    let b = spec_be32(w) + rest;
    assert(b[0] == ((w >> 24) & 0xff) as u8);
    assert(b[1] == ((w >> 16) & 0xff) as u8);
    assert(b[2] == ((w >> 8) & 0xff) as u8);
    assert(b[3] == (w & 0xff) as u8);
    lemma_be32_reassemble(w);
    assert(b.skip(4) =~= rest);
}

pub proof fn lemma_sp_i32_round(v: i32, rest: Seq<u8>)
    ensures
        sp_i32(enc_i32(v) + rest) == Some((v, rest)),
{
    lemma_sp_u32_round(u32_from_i32(v), rest);
    lemma_i32_round(v);
}

pub proof fn lemma_sp_u64_round(w: u64, rest: Seq<u8>)
    ensures
        sp_u64(spec_be64(w) + rest) == Some((w, rest)),
{
    let b = spec_be64(w) + rest;
    assert(b[0] == ((w >> 56) & 0xff) as u8);
    assert(b[1] == ((w >> 48) & 0xff) as u8);
    assert(b[2] == ((w >> 40) & 0xff) as u8);
    assert(b[3] == ((w >> 32) & 0xff) as u8);
    assert(b[4] == ((w >> 24) & 0xff) as u8);
    assert(b[5] == ((w >> 16) & 0xff) as u8);
    assert(b[6] == ((w >> 8) & 0xff) as u8);
    assert(b[7] == (w & 0xff) as u8);
    lemma_be64_reassemble(w);
    assert(b.skip(8) =~= rest);
}

pub proof fn lemma_sp_i64_round(v: i64, rest: Seq<u8>)
    ensures
        sp_i64(enc_i64(v) + rest) == Some((v, rest)),
{
    lemma_sp_u64_round(u64_from_i64(v), rest);
    lemma_i64_round(v);
}

pub proof fn lemma_sp_buffer_round(bytes: Seq<u8>, rest: Seq<u8>)
    requires
        bytes.len() <= 0x7fff_ffff,
    ensures
        sp_buffer(enc_buffer(bytes) + rest) == Some((bytes, rest)),
{
    let n = bytes.len() as i32;
    assert(enc_buffer(bytes) + rest =~= enc_i32(n) + (bytes + rest));
    lemma_sp_i32_round(n, bytes + rest);
    assert(n >= 0);
    assert((bytes + rest).take(n as int) =~= bytes);
    assert((bytes + rest).skip(n as int) =~= rest);
}

// ---------------------------------------------------------------------
// Exec writers, appending one field to a byte buffer.
// ---------------------------------------------------------------------

pub fn write_u8(out: &mut Vec<u8>, x: u8)
    ensures
        final(out)@ == old(out)@ + seq![x],
{
    out.push(x);
    assert(out@ =~= old(out)@ + seq![x]);
}

pub fn write_bool(out: &mut Vec<u8>, x: bool)
    ensures
        final(out)@ == old(out)@ + enc_bool(x),
{
    write_u8(out, if x { 1 } else { 0 });
}

pub fn write_u32_be(out: &mut Vec<u8>, w: u32)
    ensures
        final(out)@ == old(out)@ + spec_be32(w),
{
    proof {
        assert(((w >> 24) & 0xff) < 256 && ((w >> 16) & 0xff) < 256 && ((w >> 8) & 0xff) < 256 && (
        w & 0xff) < 256) by (bit_vector);
    }
    out.push(((w >> 24) & 0xff) as u8);
    out.push(((w >> 16) & 0xff) as u8);
    out.push(((w >> 8) & 0xff) as u8);
    out.push((w & 0xff) as u8);
    assert(out@ =~= old(out)@ + spec_be32(w));
}

pub fn write_i32_be(out: &mut Vec<u8>, v: i32)
    ensures
        final(out)@ == old(out)@ + enc_i32(v),
{
    let w = u32_of_i32(v);
    write_u32_be(out, w);
}

pub fn write_u64_be(out: &mut Vec<u8>, w: u64)
    ensures
        final(out)@ == old(out)@ + spec_be64(w),
{
    proof {
        assert(((w >> 56) & 0xff) < 256 && ((w >> 48) & 0xff) < 256 && ((w >> 40) & 0xff) < 256 && (
        (w >> 32) & 0xff) < 256 && ((w >> 24) & 0xff) < 256 && ((w >> 16) & 0xff) < 256 && ((w >> 8)
            & 0xff) < 256 && (w & 0xff) < 256) by (bit_vector);
    }
    out.push(((w >> 56) & 0xff) as u8);
    out.push(((w >> 48) & 0xff) as u8);
    out.push(((w >> 40) & 0xff) as u8);
    out.push(((w >> 32) & 0xff) as u8);
    out.push(((w >> 24) & 0xff) as u8);
    out.push(((w >> 16) & 0xff) as u8);
    out.push(((w >> 8) & 0xff) as u8);
    out.push((w & 0xff) as u8);
    assert(out@ =~= old(out)@ + spec_be64(w));
}

pub fn write_i64_be(out: &mut Vec<u8>, v: i64)
    ensures
        final(out)@ == old(out)@ + enc_i64(v),
{
    let w = u64_of_i64(v);
    write_u64_be(out, w);
}

pub fn write_buffer(out: &mut Vec<u8>, b: &[u8])
    requires
        b@.len() <= 0x7fff_ffff,
    ensures
        final(out)@ == old(out)@ + enc_buffer(b@),
{
    let n: usize = b.len();
    write_i32_be(out, n as i32);
    out.extend_from_slice(b);
    assert(out@ =~= old(out)@ + enc_buffer(b@));
}

// ---------------------------------------------------------------------
// ByteReader: an exec reader over an owned byte buffer, consuming fields
// from the front. Its contracts mirror the spec-level readers exactly.
// ---------------------------------------------------------------------

pub struct ByteReader {
    data: Vec<u8>,
    pos: usize,
}

impl ByteReader {
    pub closed spec fn wf(&self) -> bool {
        self.pos <= self.data@.len()
    }

    /// The bytes not yet consumed.
    pub closed spec fn remaining(&self) -> Seq<u8> {
        self.data@.skip(self.pos as int)
    }

    pub fn new(data: Vec<u8>) -> (r: ByteReader)
        ensures
            r.wf(),
            r.remaining() == data@,
    {
        let r = ByteReader { data, pos: 0 };
        proof {
            assert(r.remaining() =~= r.data@);
        }
        r
    }

    pub fn remaining_len(&self) -> (n: usize)
        requires
            self.wf(),
        ensures
            n == self.remaining().len(),
    {
        self.data.len() - self.pos
    }

    /// True once every byte has been consumed.
    pub fn at_end(&self) -> (r: bool)
        requires
            self.wf(),
        ensures
            r == (self.remaining().len() == 0),
    {
        self.pos == self.data.len()
    }

    pub fn read_u8(&mut self) -> (r: Result<u8, DecodeError>)
        requires
            old(self).wf(),
        ensures
            final(self).wf(),
            match sp_u8(old(self).remaining()) {
                Some(p) => r == Ok::<u8, DecodeError>(p.0) && final(self).remaining() == p.1,
                None => r == Err::<u8, DecodeError>(DecodeError::ShortInput) && *final(self) == *old(
                self),
            },
    {
        if self.pos < self.data.len() {
            let x = self.data[self.pos];
            self.pos = self.pos + 1;
            proof {
                assert(old(self).remaining()[0] == x);
                assert(self.remaining() =~= old(self).remaining().skip(1));
            }
            Ok(x)
        } else {
            Err(DecodeError::ShortInput)
        }
    }

    pub fn read_bool(&mut self) -> (r: Result<bool, DecodeError>)
        requires
            old(self).wf(),
        ensures
            final(self).wf(),
            match sp_bool(old(self).remaining()) {
                Some(p) => r == Ok::<bool, DecodeError>(p.0) && final(self).remaining() == p.1,
                None => r == Err::<bool, DecodeError>(DecodeError::ShortInput) && *final(self)
                    == *old(self),
            },
    {
        match self.read_u8() {
            Ok(x) => Ok(x != 0),
            Err(e) => Err(e),
        }
    }

    pub fn read_u32_be(&mut self) -> (r: Result<u32, DecodeError>)
        requires
            old(self).wf(),
        ensures
            final(self).wf(),
            match sp_u32(old(self).remaining()) {
                Some(p) => r == Ok::<u32, DecodeError>(p.0) && final(self).remaining() == p.1,
                None => r == Err::<u32, DecodeError>(DecodeError::ShortInput) && *final(self)
                    == *old(self),
            },
    {
        if self.data.len() - self.pos >= 4 {
            let b0 = self.data[self.pos];
            let b1 = self.data[self.pos + 1];
            let b2 = self.data[self.pos + 2];
            let b3 = self.data[self.pos + 3];
            let w = ((b0 as u32) << 24) | ((b1 as u32) << 16) | ((b2 as u32) << 8) | (b3 as u32);
            self.pos = self.pos + 4;
            proof {
                let rem = old(self).remaining();
                assert(rem[0] == b0 && rem[1] == b1 && rem[2] == b2 && rem[3] == b3);
                assert(self.remaining() =~= rem.skip(4));
            }
            Ok(w)
        } else {
            Err(DecodeError::ShortInput)
        }
    }

    pub fn read_i32_be(&mut self) -> (r: Result<i32, DecodeError>)
        requires
            old(self).wf(),
        ensures
            final(self).wf(),
            match sp_i32(old(self).remaining()) {
                Some(p) => r == Ok::<i32, DecodeError>(p.0) && final(self).remaining() == p.1,
                None => r == Err::<i32, DecodeError>(DecodeError::ShortInput) && *final(self)
                    == *old(self),
            },
    {
        match self.read_u32_be() {
            Ok(w) => Ok(i32_of_u32(w)),
            Err(e) => Err(e),
        }
    }

    pub fn read_u64_be(&mut self) -> (r: Result<u64, DecodeError>)
        requires
            old(self).wf(),
        ensures
            final(self).wf(),
            match sp_u64(old(self).remaining()) {
                Some(p) => r == Ok::<u64, DecodeError>(p.0) && final(self).remaining() == p.1,
                None => r == Err::<u64, DecodeError>(DecodeError::ShortInput) && *final(self)
                    == *old(self),
            },
    {
        if self.data.len() - self.pos >= 8 {
            let b0 = self.data[self.pos];
            let b1 = self.data[self.pos + 1];
            let b2 = self.data[self.pos + 2];
            let b3 = self.data[self.pos + 3];
            let b4 = self.data[self.pos + 4];
            let b5 = self.data[self.pos + 5];
            let b6 = self.data[self.pos + 6];
            let b7 = self.data[self.pos + 7];
            let w = ((b0 as u64) << 56) | ((b1 as u64) << 48) | ((b2 as u64) << 40) | ((b3
                as u64) << 32) | ((b4 as u64) << 24) | ((b5 as u64) << 16) | ((b6 as u64) << 8) | (
            b7 as u64);
            self.pos = self.pos + 8;
            proof {
                let rem = old(self).remaining();
                assert(rem[0] == b0 && rem[1] == b1 && rem[2] == b2 && rem[3] == b3 && rem[4] == b4
                    && rem[5] == b5 && rem[6] == b6 && rem[7] == b7);
                assert(self.remaining() =~= rem.skip(8));
            }
            Ok(w)
        } else {
            Err(DecodeError::ShortInput)
        }
    }

    /// Consume exactly `n` raw bytes.
    pub fn read_bytes(&mut self, n: usize) -> (r: Result<Vec<u8>, DecodeError>)
        requires
            old(self).wf(),
        ensures
            final(self).wf(),
            if old(self).remaining().len() >= n {
                (r matches Ok(v) && v@ == old(self).remaining().take(n as int)) && final(self).remaining() == old(self).remaining().skip(n as int)
            } else {
                r == Err::<Vec<u8>, DecodeError>(DecodeError::ShortInput) && *final(self) == *old(
                self)
            },
    {
        if self.data.len() - self.pos >= n {
            let mut out: Vec<u8> = Vec::new();
            let mut i: usize = 0;
            while i < n
                invariant
                    *self == *old(self),
                    self.wf(),
                    i <= n,
                    self.pos + n <= self.data@.len(),
                    self.data@.len() <= usize::MAX,
                    out@ =~= old(self).remaining().take(n as int).take(i as int),
                decreases n - i,
            {
                let b = self.data[self.pos + i];
                proof {
                    assert(old(self).remaining()[i as int] == b);
                }
                out.push(b);
                i = i + 1;
            }
            self.pos = self.pos + n;
            proof {
                assert(out@ =~= old(self).remaining().take(n as int));
                assert(self.remaining() =~= old(self).remaining().skip(n as int));
            }
            Ok(out)
        } else {
            Err(DecodeError::ShortInput)
        }
    }

    pub fn read_i64_be(&mut self) -> (r: Result<i64, DecodeError>)
        requires
            old(self).wf(),
        ensures
            final(self).wf(),
            match sp_i64(old(self).remaining()) {
                Some(p) => r == Ok::<i64, DecodeError>(p.0) && final(self).remaining() == p.1,
                None => r == Err::<i64, DecodeError>(DecodeError::ShortInput) && *final(self)
                    == *old(self),
            },
    {
        match self.read_u64_be() {
            Ok(w) => Ok(i64_of_u64(w)),
            Err(e) => Err(e),
        }
    }
}

} // verus!
