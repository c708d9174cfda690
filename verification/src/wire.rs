//! Primitive wire types: variable-length integers, length-prefixed UTF-8
//! strings, and fixed-width big-endian integers, together with a byte-buffer
//! reader that the decoders consume.

use vstd::prelude::*;

verus! {

/// The ways a wire-level exchange can fail.
#[derive(Clone, Copy, Debug, PartialEq, Eq, Structural)]
pub enum ProtocolError {
    /// Fewer bytes were available than a length prefix promised.
    Truncated,
    /// A value violates its own encoding's constraints (a VarInt that would
    /// need a sixth byte, a negative length prefix).
    Malformed,
    /// A string's bytes are not valid UTF-8.
    InvalidEncoding,
    /// The peer sent a different packet kind than the protocol step expects.
    UnexpectedPacketId,
    /// A packet body declared more bytes than its known fields consume.
    TrailingData,
    /// The pong payload does not match the ping payload that was sent.
    ProtocolMismatch,
}

/// The canonical VarInt encoding of a 32-bit value: little-endian groups of 7
/// payload bits, with the high bit of every byte but the last set.
pub open spec fn varint_bytes(v: u32) -> Seq<u8>
    decreases v via varint_bytes_decreases
{
    if v < 0x80 {
        seq![v as u8]
    } else {
        seq![((v & 0x7f) | 0x80) as u8] + varint_bytes(v >> 7)
    }
}

#[via_fn]
proof fn varint_bytes_decreases(v: u32) {
    assert(v >= 0x80 ==> (v >> 7) < v) by (bit_vector);
}

/// Decoding a VarInt from the front of `s`, allowed to consume at most `fuel`
/// bytes: the decoded value and the number of bytes consumed, or the error
/// the byte stream forces.
pub open spec fn varint_decode(s: Seq<u8>, fuel: nat) -> Result<(u32, nat), ProtocolError>
    decreases fuel,
{
    if fuel == 0 {
        Err(ProtocolError::Malformed)
    } else if s.len() == 0 {
        Err(ProtocolError::Truncated)
    } else if s[0] < 0x80 {
        Ok(((s[0] as u32), 1))
    } else {
        match varint_decode(s.skip(1), (fuel - 1) as nat) {
            Ok((v, n)) => Ok((((s[0] & 0x7f) as u32) | (v << 7), n + 1)),
            Err(e) => Err(e),
        }
    }
}

/// A successful VarInt decode consumed between one byte and the fuel, and
/// no more than the stream holds.
pub proof fn lemma_varint_decode_len(s: Seq<u8>, fuel: nat)
    ensures
        varint_decode(s, fuel) matches Ok((v, n)) ==> 1 <= n <= s.len() && n <= fuel,
    decreases fuel,
{
    if fuel > 0 && s.len() > 0 && s[0] >= 0x80 {
        lemma_varint_decode_len(s.skip(1), (fuel - 1) as nat);
    }
}

/// A VarInt decode that did not run out of bytes is unchanged by bytes
/// appended after the stream.
pub proof fn lemma_varint_decode_extend(s: Seq<u8>, ext: Seq<u8>, fuel: nat)
    requires
        varint_decode(s, fuel) != Err::<(u32, nat), ProtocolError>(ProtocolError::Truncated),
    ensures
        varint_decode(s + ext, fuel) == varint_decode(s, fuel),
    decreases fuel,
{
    if fuel == 0 {
    } else if s.len() == 0 {
    } else if s[0] < 0x80 {
        assert((s + ext)[0] == s[0]);
    } else {
        assert((s + ext)[0] == s[0]);
        assert((s + ext).skip(1) =~= s.skip(1) + ext);
        lemma_varint_decode_extend(s.skip(1), ext, (fuel - 1) as nat);
    }
}

/// A VarInt encoding is between one and five bytes long.
pub proof fn lemma_varint_bytes_len(v: u32)
    ensures
        1 <= varint_bytes(v).len() <= 5,
        v < 0x80 ==> varint_bytes(v).len() == 1,
{
    let v1 = v >> 7;
    let v2 = v1 >> 7;
    let v3 = v2 >> 7;
    let v4 = v3 >> 7;
    assert((((v >> 7) >> 7) >> 7) >> 7 < 0x80) by (bit_vector);
    assert(varint_bytes(v4).len() == 1);
    assert(varint_bytes(v3).len() <= 2);
    assert(varint_bytes(v2).len() <= 3);
    assert(varint_bytes(v1).len() <= 4);
    assert(varint_bytes(v).len() <= 5);
}

/// Round trip: a canonical VarInt encoding, followed by anything, decodes to
/// the encoded value and consumes exactly the encoding.
pub proof fn lemma_varint_round_trip(v: u32, rest: Seq<u8>, fuel: nat)
    requires
        varint_bytes(v).len() <= fuel,
    ensures
        varint_decode(varint_bytes(v) + rest, fuel)
            == Ok::<(u32, nat), ProtocolError>((v, varint_bytes(v).len() as nat)),
    decreases v,
{
    let s = varint_bytes(v) + rest;
    if v < 0x80 {
        assert(((v as u8) as u32) == v) by (bit_vector)
            requires v < 0x80;
        assert((v as u8) < 0x80) by (bit_vector)
            requires v < 0x80;
        assert(s[0] == v as u8);
    } else {
        assert((((v & 0x7f) | 0x80) as u8) >= 0x80) by (bit_vector);
        assert((v >> 7) < v) by (bit_vector)
            requires v >= 0x80;
        assert(s.skip(1) =~= varint_bytes(v >> 7) + rest);
        lemma_varint_round_trip(v >> 7, rest, (fuel - 1) as nat);
        assert((((((v & 0x7f) | 0x80) as u8) & 0x7f) as u32) | ((v >> 7) << 7) == v)
            by (bit_vector);
    }
}

/// A cursor over a byte buffer; the decoders consume bytes from the front of
/// what remains.
pub struct ByteReader {
    data: Vec<u8>,
    pos: usize,
}

impl ByteReader {
    /// The whole underlying buffer.
    pub closed spec fn all_bytes(&self) -> Seq<u8> {
        self.data@
    }

    /// How many bytes have been consumed.
    pub closed spec fn cursor(&self) -> int {
        self.pos as int
    }

    pub open spec fn wf(&self) -> bool {
        0 <= self.cursor() <= self.all_bytes().len()
    }

    /// The bytes not yet consumed.
    pub open spec fn remaining(&self) -> Seq<u8> {
        self.all_bytes().skip(self.cursor())
    }

    pub fn new(data: Vec<u8>) -> (r: ByteReader)
        ensures
            r.wf(),
            r.all_bytes() == data@,
            r.cursor() == 0,
    {
        ByteReader { data, pos: 0 }
    }

    /// How many bytes are left to read.
    pub fn remaining_len(&self) -> (n: usize)
        requires
            self.wf(),
        ensures
            n == self.remaining().len(),
    {
        self.data.len() - self.pos
    }

    /// Consumes and returns the next byte, or `None` at the end of the buffer.
    fn next_byte(&mut self) -> (r: Option<u8>)
        requires
            old(self).wf(),
        ensures
            final(self).wf(),
            final(self).all_bytes() == old(self).all_bytes(),
            old(self).remaining().len() == 0 ==> r is None
                && final(self).cursor() == old(self).cursor(),
            old(self).remaining().len() > 0 ==> r == Some(old(self).remaining()[0])
                && final(self).cursor() == old(self).cursor() + 1,
    {
        if self.pos < self.data.len() {
            let b = self.data[self.pos];
            self.pos = self.pos + 1;
            Some(b)
        } else {
            None
        }
    }

    /// Decodes a VarInt at `offset` bytes past the cursor without consuming
    /// anything, with `fuel` bounding how many bytes it may span.
    pub(crate) fn peek_var_int(&self, offset: usize, fuel: u8) -> (res: Result<
        (u32, usize),
        ProtocolError,
    >)
        requires
            self.wf(),
            offset <= self.remaining().len(),
        ensures
            match res {
                Ok((v, n)) => varint_decode(self.remaining().skip(offset as int), fuel as nat)
                    == Ok::<(u32, nat), ProtocolError>((v, n as nat)) && 1 <= n <= fuel,
                Err(e) => varint_decode(self.remaining().skip(offset as int), fuel as nat)
                    == Err::<(u32, nat), ProtocolError>(e),
            },
        decreases fuel,
    {
        if fuel == 0 {
            return Err(ProtocolError::Malformed);
        }
        if offset == self.remaining_len() {
            return Err(ProtocolError::Truncated);
        }
        let total: usize = self.data.len();
        proof {
            assert(self.cursor() + offset < total);
        }
        let b = self.data[self.pos + offset];
        proof {
            assert(self.remaining().skip(offset as int)[0] == self.all_bytes()[self.cursor()
                + offset]);
        }
        if b < 0x80 {
            Ok((b as u32, 1))
        } else {
            proof {
                assert(self.remaining().skip(offset as int).skip(1) =~= self.remaining().skip(
                    offset + 1,
                ));
            }
            match self.peek_var_int(offset + 1, fuel - 1) {
                Ok((v, n)) => Ok((((b & 0x7f) as u32) | (v << 7), n + 1)),
                Err(e) => Err(e),
            }
        }
    }

    /// Consumes exactly `n` bytes and hands them out as a fresh buffer.
    pub(crate) fn take_bytes(&mut self, n: usize) -> (r: Vec<u8>)
        requires
            old(self).wf(),
            n <= old(self).remaining().len(),
        ensures
            final(self).wf(),
            final(self).all_bytes() == old(self).all_bytes(),
            final(self).cursor() == old(self).cursor() + n,
            r@ == old(self).remaining().take(n as int),
    {
        let total: usize = self.data.len();
        proof {
            assert(self.remaining().len() == self.all_bytes().len() - self.cursor());
        }
        let mut out: Vec<u8> = Vec::new();
        let mut i: usize = 0;
        while i < n
            invariant
                self.wf(),
                self == old(self),
                total == self.all_bytes().len(),
                self.cursor() + n <= total,
                i <= n,
                out@ =~= self.remaining().take(i as int),
            decreases n - i,
        {
            out.push(self.data[self.pos + i]);
            i = i + 1;
            assert(out@ =~= self.remaining().take(i as int));
        }
        self.pos = self.pos + n;
        out
    }
}

/// Appends the VarInt encoding of `value`; never more than five bytes.
///
/// All 32-bit values are representable, so with an in-memory sink this
/// always succeeds; the `Result` mirrors the wire-level interface.
pub fn write_var_int(output: &mut Vec<u8>, value: i32) -> (res: Result<(), ProtocolError>)
    ensures
        res is Ok,
        final(output)@ == old(output)@ + varint_bytes(value as u32),
{
    let mut v: u32 = value as u32;
    while v >= 0x80
        invariant
            output@ + varint_bytes(v) == old(output)@ + varint_bytes(value as u32),
        decreases v,
    {
        output.push(((v & 0x7f) | 0x80) as u8);
        proof {
            assert((v >> 7) < v) by (bit_vector)
                requires v >= 0x80;
        }
        v = v >> 7;
    }
    output.push(v as u8);
    proof {
        assert(output@ =~= old(output)@ + varint_bytes(value as u32));
    }
    Ok(())
}

/// Recursive worker for [`read_var_int`]: mirrors [`varint_decode`] byte for
/// byte, with `fuel` bounding how many bytes may still be consumed.
fn read_var_int_rec(input: &mut ByteReader, fuel: u8) -> (res: Result<(u32, usize), ProtocolError>)
    requires
        old(input).wf(),
    ensures
        final(input).wf(),
        final(input).all_bytes() == old(input).all_bytes(),
        old(input).cursor() <= final(input).cursor(),
        match res {
            Ok((v, n)) => varint_decode(old(input).remaining(), fuel as nat)
                    == Ok::<(u32, nat), ProtocolError>((v, n as nat))
                && final(input).cursor() == old(input).cursor() + n
                && 1 <= n <= fuel,
            Err(e) => varint_decode(old(input).remaining(), fuel as nat)
                    == Err::<(u32, nat), ProtocolError>(e)
                && final(input).cursor() <= old(input).cursor() + fuel
                && (e is Truncated ==> final(input).cursor() == old(input).cursor()
                    + old(input).remaining().len() && old(input).remaining().len() < fuel)
                && (e is Malformed ==> final(input).cursor() == old(input).cursor()
                    + fuel),
        },
    decreases fuel,
{
    if fuel == 0 {
        return Err(ProtocolError::Malformed);
    }
    let b = match input.next_byte() {
        Some(b) => b,
        None => {
            return Err(ProtocolError::Truncated);
        },
    };
    if b < 0x80 {
        Ok((b as u32, 1))
    } else {
        proof {
            assert(input.remaining() =~= old(input).remaining().skip(1));
        }
        match read_var_int_rec(input, fuel - 1) {
            Ok((v, n)) => Ok((((b & 0x7f) as u32) | (v << 7), n + 1)),
            Err(e) => Err(e),
        }
    }
}

/// Reads a VarInt: at most five bytes, stopping at the first byte whose
/// continuation bit is clear.  Fails with `Truncated` if the buffer ends
/// first, and with `Malformed` if a sixth byte would be required.
pub fn read_var_int(input: &mut ByteReader) -> (res: Result<i32, ProtocolError>)
    requires
        old(input).wf(),
    ensures
        final(input).wf(),
        final(input).all_bytes() == old(input).all_bytes(),
        old(input).cursor() <= final(input).cursor(),
        match res {
            Ok(v) => varint_decode(old(input).remaining(), 5) matches Ok((w, n))
                && v == w as i32
                && final(input).cursor() == old(input).cursor() + n,
            Err(e) => varint_decode(old(input).remaining(), 5)
                    == Err::<(u32, nat), ProtocolError>(e)
                && final(input).cursor() <= old(input).cursor() + 5
                && (e is Truncated ==> final(input).cursor() == old(input).cursor()
                    + old(input).remaining().len())
                && (e is Malformed ==> final(input).cursor() == old(input).cursor() + 5),
        },
{
    match read_var_int_rec(input, 5) {
        Ok((v, _n)) => Ok(v as i32),
        Err(e) => Err(e),
    }
}

/// The big-endian bytes of a 64-bit value.
pub open spec fn be_bytes_u64(v: u64) -> Seq<u8> {
    seq![
        (v >> 56) as u8,
        (v >> 48) as u8,
        (v >> 40) as u8,
        (v >> 32) as u8,
        (v >> 24) as u8,
        (v >> 16) as u8,
        (v >> 8) as u8,
        v as u8,
    ]
}

/// The 64-bit value read back from eight big-endian bytes.
pub open spec fn be_u64(s: Seq<u8>) -> u64
    recommends
        s.len() == 8,
{
    ((s[0] as u64) << 56) | ((s[1] as u64) << 48) | ((s[2] as u64) << 40)
        | ((s[3] as u64) << 32) | ((s[4] as u64) << 24) | ((s[5] as u64) << 16)
        | ((s[6] as u64) << 8) | (s[7] as u64)
}

/// The big-endian bytes of a 16-bit value.
pub open spec fn be_bytes_u16(v: u16) -> Seq<u8> {
    seq![(v >> 8) as u8, v as u8]
}

/// Appends `value` as eight big-endian two's-complement bytes.
pub fn write_long(output: &mut Vec<u8>, value: i64) -> (res: Result<(), ProtocolError>)
    ensures
        res is Ok,
        final(output)@ == old(output)@ + be_bytes_u64(value as u64),
{
    let v: u64 = value as u64;
    output.push((v >> 56) as u8);
    output.push((v >> 48) as u8);
    output.push((v >> 40) as u8);
    output.push((v >> 32) as u8);
    output.push((v >> 24) as u8);
    output.push((v >> 16) as u8);
    output.push((v >> 8) as u8);
    output.push(v as u8);
    proof {
        assert(final(output)@ =~= old(output)@ + be_bytes_u64(value as u64));
    }
    Ok(())
}

/// Appends `value` as two big-endian bytes.
pub fn write_unsigned_short(output: &mut Vec<u8>, value: u16) -> (res: Result<(), ProtocolError>)
    ensures
        res is Ok,
        final(output)@ == old(output)@ + be_bytes_u16(value),
{
    output.push((value >> 8) as u8);
    output.push(value as u8);
    proof {
        assert(final(output)@ =~= old(output)@ + be_bytes_u16(value));
    }
    Ok(())
}

/// Decoding a signed 64-bit big-endian integer from the front of `s`.
pub open spec fn long_decode(s: Seq<u8>) -> Result<(i64, nat), ProtocolError> {
    if s.len() < 8 {
        Err(ProtocolError::Truncated)
    } else {
        Ok((be_u64(s.take(8)) as i64, 8))
    }
}

/// Reads a signed 64-bit big-endian integer; fails with `Truncated` if fewer
/// than eight bytes remain.
pub fn read_long(input: &mut ByteReader) -> (res: Result<i64, ProtocolError>)
    requires
        old(input).wf(),
    ensures
        final(input).wf(),
        final(input).all_bytes() == old(input).all_bytes(),
        old(input).cursor() <= final(input).cursor(),
        match res {
            Ok(v) => long_decode(old(input).remaining())
                    == Ok::<(i64, nat), ProtocolError>((v, 8))
                && final(input).cursor() == old(input).cursor() + 8,
            Err(e) => long_decode(old(input).remaining())
                    == Err::<(i64, nat), ProtocolError>(e)
                && final(input).cursor() == old(input).cursor(),
        },
{
    if input.remaining_len() < 8 {
        return Err(ProtocolError::Truncated);
    }
    let bytes = input.take_bytes(8);
    let v: u64 = ((bytes[0] as u64) << 56) | ((bytes[1] as u64) << 48)
        | ((bytes[2] as u64) << 40) | ((bytes[3] as u64) << 32) | ((bytes[4] as u64) << 24)
        | ((bytes[5] as u64) << 16) | ((bytes[6] as u64) << 8) | (bytes[7] as u64);
    Ok(v as i64)
}

/// The wire encoding of a string: a VarInt byte-length prefix followed by the
/// UTF-8 bytes.
pub open spec fn wire_string_bytes(s: Seq<char>) -> Seq<u8> {
    varint_bytes(vstd::utf8::encode_utf8(s).len() as u32) + vstd::utf8::encode_utf8(s)
}

/// Decoding a length-prefixed UTF-8 string from the front of `s`: the decoded
/// characters and the number of bytes consumed, or the error the bytes force.
pub open spec fn string_decode(s: Seq<u8>) -> Result<(Seq<char>, nat), ProtocolError> {
    match varint_decode(s, 5) {
        Err(e) => Err(e),
        Ok((size, n)) => {
            if (size as i32) < 0 {
                Err(ProtocolError::Malformed)
            } else if s.len() - n < size {
                Err(ProtocolError::Truncated)
            } else {
                let bytes = s.subrange(n as int, n + size);
                if vstd::utf8::valid_utf8(bytes) {
                    Ok((vstd::utf8::decode_utf8(bytes), (n + size) as nat))
                } else {
                    Err(ProtocolError::InvalidEncoding)
                }
            }
        },
    }
}

/// Relies on `String::from_utf8`: it succeeds exactly on valid UTF-8 input
/// and returns the string those bytes encode.
#[verifier::external_body]
fn string_from_utf8(bytes: Vec<u8>) -> (r: Option<String>)
    ensures
        r matches Some(s) ==> vstd::utf8::valid_utf8(bytes@)
            && s@ == vstd::utf8::decode_utf8(bytes@),
        r is None ==> !vstd::utf8::valid_utf8(bytes@),
{
    String::from_utf8(bytes).ok()
}

/// Appends the wire encoding of `value`: its UTF-8 byte length as a VarInt,
/// then the bytes themselves.  Fails with `Malformed` only when the byte
/// length cannot be represented as a VarInt-encodable 32-bit size.
pub fn write_string(output: &mut Vec<u8>, value: &str) -> (res: Result<(), ProtocolError>)
    ensures
        vstd::utf8::encode_utf8(value@).len() <= i32::MAX ==> res is Ok
            && final(output)@ == old(output)@ + wire_string_bytes(value@),
        vstd::utf8::encode_utf8(value@).len() > i32::MAX ==> res
                == Err::<(), ProtocolError>(ProtocolError::Malformed)
            && final(output)@ == old(output)@,
{
    let bytes = value.as_bytes();
    let size = bytes.len();
    if size > i32::MAX as usize {
        return Err(ProtocolError::Malformed);
    }
    let r = write_var_int(output, size as i32);
    proof {
        assert(((size as i32) as u32) == size as u32) by (bit_vector)
            requires size <= 0x7fff_ffffusize;
    }
    output.extend_from_slice(bytes);
    Ok(())
}

/// Reads a length-prefixed UTF-8 string.  Fails with `Malformed` on a
/// negative length prefix, `Truncated` when fewer bytes remain than the
/// prefix declares, and `InvalidEncoding` when the bytes are not UTF-8.
pub fn read_string(input: &mut ByteReader) -> (res: Result<String, ProtocolError>)
    requires
        old(input).wf(),
    ensures
        final(input).wf(),
        final(input).all_bytes() == old(input).all_bytes(),
        old(input).cursor() <= final(input).cursor(),
        match res {
            Ok(s) => string_decode(old(input).remaining()) matches Ok((chars, n))
                && s@ == chars
                && final(input).cursor() == old(input).cursor() + n,
            Err(e) => string_decode(old(input).remaining())
                    == Err::<(Seq<char>, nat), ProtocolError>(e)
                && (match varint_decode(old(input).remaining(), 5) {
                    Err(_) => final(input).cursor() <= old(input).cursor() + 5,
                    Ok((size, n)) => final(input).cursor() <= old(input).cursor() + n + (
                    if (size as i32) < 0 {
                        0int
                    } else {
                        size as int
                    }),
                }),
        },
{
    let ghost orem = old(input).remaining();
    let size = match read_var_int(input) {
        Ok(size) => size,
        Err(e) => {
            return Err(e);
        },
    };
    let ghost w = varint_decode(orem, 5)->Ok_0.0;
    let ghost n = varint_decode(orem, 5)->Ok_0.1;
    if size < 0 {
        return Err(ProtocolError::Malformed);
    }
    proof {
        assert(((w as i32) as usize) == w && w <= 0x7fff_ffffu32) by (bit_vector)
            requires (w as i32) >= 0;
        assert(input.remaining() =~= orem.skip(n as int));
    }
    let size = size as usize;
    if input.remaining_len() < size {
        return Err(ProtocolError::Truncated);
    }
    let bytes = input.take_bytes(size);
    proof {
        assert(bytes@ =~= orem.subrange(n as int, n + (size as int)));
    }
    match string_from_utf8(bytes) {
        Some(s) => Ok(s),
        None => Err(ProtocolError::InvalidEncoding),
    }
}

/// VarInt round trip, as the codec uses it: for every 32-bit value, reading
/// back the written encoding — whatever follows it — yields the value and
/// consumes exactly the encoding, which is at most five bytes.
pub proof fn lemma_var_int_round_trip(v: i32, rest: Seq<u8>)
    ensures
        varint_bytes(v as u32).len() <= 5,
        varint_decode(varint_bytes(v as u32) + rest, 5)
            == Ok::<(u32, nat), ProtocolError>((v as u32, varint_bytes(v as u32).len() as nat)),
{
    lemma_varint_bytes_len(v as u32);
    lemma_varint_round_trip(v as u32, rest, 5);
}

/// A strict prefix of a VarInt encoding decodes to `Truncated`.
pub proof fn lemma_varint_prefix_truncated(v: u32, k: int, fuel: nat)
    requires
        0 <= k < varint_bytes(v).len(),
        varint_bytes(v).len() <= fuel,
    ensures
        varint_decode(varint_bytes(v).take(k), fuel)
            == Err::<(u32, nat), ProtocolError>(ProtocolError::Truncated),
    decreases v,
{
    lemma_varint_bytes_len(v);
    if k == 0 {
        assert(varint_bytes(v).take(0).len() == 0);
    } else {
        assert(v >= 0x80);
        assert((((v & 0x7f) | 0x80) as u8) >= 0x80) by (bit_vector);
        assert((v >> 7) < v) by (bit_vector)
            requires v >= 0x80;
        assert(varint_bytes(v).take(k).skip(1) =~= varint_bytes(v >> 7).take(k - 1));
        lemma_varint_prefix_truncated(v >> 7, k - 1, (fuel - 1) as nat);
    }
}

/// A strict prefix of a wire-encoded string decodes to `Truncated`.
pub proof fn lemma_string_prefix_truncated(s: Seq<char>, k: int)
    requires
        vstd::utf8::encode_utf8(s).len() <= i32::MAX,
        0 <= k < wire_string_bytes(s).len(),
    ensures
        string_decode(wire_string_bytes(s).take(k))
            == Err::<(Seq<char>, nat), ProtocolError>(ProtocolError::Truncated),
{
    let bytes = vstd::utf8::encode_utf8(s);
    let size = bytes.len() as u32;
    let pre = varint_bytes(size);
    let whole = wire_string_bytes(s);
    lemma_varint_bytes_len(size);
    assert((size as i32) >= 0 && size as int == size as nat) by (bit_vector)
        requires size <= 0x7fff_ffffu32;
    if k < pre.len() {
        assert(whole.take(k) =~= pre.take(k));
        lemma_varint_prefix_truncated(size, k, 5);
    } else {
        let cut = whole.take(k);
        assert(cut =~= pre + bytes.take(k - pre.len()));
        lemma_varint_round_trip(size, bytes.take(k - pre.len()), 5);
        assert(cut.len() - pre.len() < size);
    }
}

/// Round trip: the wire encoding of any string, followed by anything,
/// decodes back to the same characters and consumes exactly the encoding.
pub proof fn lemma_string_round_trip(s: Seq<char>, rest: Seq<u8>)
    requires
        vstd::utf8::encode_utf8(s).len() <= i32::MAX,
    ensures
        string_decode(wire_string_bytes(s) + rest)
            == Ok::<(Seq<char>, nat), ProtocolError>((s, wire_string_bytes(s).len() as nat)),
{
    broadcast use vstd::utf8::encode_utf8_valid_utf8, vstd::utf8::encode_utf8_decode_utf8;

    let bytes = vstd::utf8::encode_utf8(s);
    let size = bytes.len() as u32;
    let whole = wire_string_bytes(s) + rest;
    lemma_varint_bytes_len(size);
    assert(whole =~= varint_bytes(size) + (bytes + rest));
    lemma_varint_round_trip(size, bytes + rest, 5);
    let n = varint_bytes(size).len();
    assert((size as i32) >= 0) by (bit_vector)
        requires size <= 0x7fff_ffffu32;
    assert(whole.subrange(n as int, n + size) =~= bytes);
}

} // verus!
