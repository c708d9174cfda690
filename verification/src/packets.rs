//! Framed packets of the status exchange: every packet is a VarInt length
//! prefix followed by that many bytes of body, the body beginning with a
//! VarInt packet ID.  Decoders never read past the declared length and treat
//! leftover body bytes as a protocol error.

use vstd::prelude::*;

use crate::wire::ByteReader;
use crate::wire::ProtocolError;
use crate::wire::be_bytes_u64;
use crate::wire::long_decode;
use crate::wire::read_long;
use crate::wire::read_var_int;
use crate::wire::string_decode;
use crate::wire::read_string;
use crate::wire::varint_bytes;
use crate::wire::varint_decode;
use crate::wire::wire_string_bytes;
use crate::wire::write_long;
use crate::wire::write_string;
use crate::wire::write_unsigned_short;
use crate::wire::write_var_int;
use crate::wire::be_bytes_u16;
use crate::wire::lemma_varint_bytes_len;
use crate::wire::lemma_varint_round_trip;
use crate::wire::lemma_string_round_trip;
use crate::wire::lemma_string_prefix_truncated;

verus! {

/// The placeholder protocol version sent in the handshake: the minimum value,
/// which servers accept for pure status queries.
pub const STATUS_PROTOCOL_VERSION: i32 = 0;

/// A framed packet: the body's byte length as a VarInt, then the body.
pub open spec fn frame(body: Seq<u8>) -> Seq<u8> {
    varint_bytes(body.len() as u32) + body
}

/// The handshake packet body: ID 0, protocol version, server address,
/// server port, and next state 1 (status).
pub open spec fn handshake_body(host: Seq<char>, port: u16) -> Seq<u8> {
    varint_bytes(0) + varint_bytes(STATUS_PROTOCOL_VERSION as u32) + wire_string_bytes(host)
        + be_bytes_u16(port) + varint_bytes(1)
}

/// The ping packet body: ID 1 followed by the eight-byte payload.
pub open spec fn ping_body(payload: i64) -> Seq<u8> {
    varint_bytes(1) + be_bytes_u64(payload as u64)
}

/// Appends the framed handshake packet.  Fails with `Malformed` only when
/// the address or the body is too long for a VarInt length prefix.
pub fn send_handshake(output: &mut Vec<u8>, server_address: &str, port: u16) -> (res: Result<
    (),
    ProtocolError,
>)
    ensures
        vstd::utf8::encode_utf8(server_address@).len() <= i32::MAX
            && handshake_body(server_address@, port).len() <= i32::MAX ==> res is Ok
            && final(output)@ == old(output)@ + frame(handshake_body(server_address@, port)),
        vstd::utf8::encode_utf8(server_address@).len() > i32::MAX
            || handshake_body(server_address@, port).len() > i32::MAX ==> res == Err::<
            (),
            ProtocolError,
        >(ProtocolError::Malformed) && final(output)@ == old(output)@,
{
    let mut body: Vec<u8> = Vec::new();
    let _ = write_var_int(&mut body, 0);
    let _ = write_var_int(&mut body, STATUS_PROTOCOL_VERSION);
    match write_string(&mut body, server_address) {
        Ok(_) => {},
        Err(e) => {
            return Err(e);
        },
    }
    let _ = write_unsigned_short(&mut body, port);
    let _ = write_var_int(&mut body, 1);
    proof {
        assert(body@ =~= handshake_body(server_address@, port));
    }
    if body.len() > i32::MAX as usize {
        return Err(ProtocolError::Malformed);
    }
    let size = body.len();
    proof {
        assert(((size as i32) as u32) == size as u32) by (bit_vector)
            requires size <= 0x7fff_ffffusize;
    }
    let _ = write_var_int(output, size as i32);
    output.extend_from_slice(body.as_slice());
    Ok(())
}

/// Appends the framed status-request packet: an empty body apart from the
/// packet ID 0, so exactly the two bytes `01 00`.
pub fn send_status_request(output: &mut Vec<u8>) -> (res: Result<(), ProtocolError>)
    ensures
        res is Ok,
        final(output)@ == old(output)@ + frame(varint_bytes(0)),
        final(output)@ == old(output)@ + seq![1u8, 0u8],
{
    let _ = write_var_int(output, 1);
    let _ = write_var_int(output, 0);
    proof {
        assert(final(output)@ =~= old(output)@ + frame(varint_bytes(0)));
        assert(final(output)@ =~= old(output)@ + seq![1u8, 0u8]);
    }
    Ok(())
}

/// Appends the framed ping packet carrying the eight-byte `payload`.
pub fn send_ping_request(output: &mut Vec<u8>, payload: i64) -> (res: Result<(), ProtocolError>)
    ensures
        res is Ok,
        final(output)@ == old(output)@ + frame(ping_body(payload)),
{
    let _ = write_var_int(output, 9);
    let _ = write_var_int(output, 1);
    let _ = write_long(output, payload);
    proof {
        assert(ping_body(payload).len() == 9);
        assert(final(output)@ =~= old(output)@ + frame(ping_body(payload)));
    }
    Ok(())
}

/// Decoding the framed status-response packet from the front of `s`: the
/// JSON document's characters and the bytes consumed, or the error forced.
pub open spec fn status_response_decode(s: Seq<u8>) -> Result<(Seq<char>, nat), ProtocolError> {
    match varint_decode(s, 5) {
        Err(e) => Err(e),
        Ok((len, n)) => {
            if (len as i32) < 0 {
                Err(ProtocolError::Malformed)
            } else if s.len() - n < len {
                Err(ProtocolError::Truncated)
            } else {
                let body = s.subrange(n as int, n + len);
                match varint_decode(body, 5) {
                    Err(e) => Err(e),
                    Ok((pid, m)) => {
                        if pid != 0 {
                            Err(ProtocolError::UnexpectedPacketId)
                        } else {
                            match string_decode(body.skip(m as int)) {
                                Err(e) => Err(e),
                                Ok((chars, k)) => {
                                    if m + k != len {
                                        Err(ProtocolError::TrailingData)
                                    } else {
                                        Ok((chars, (n + len) as nat))
                                    }
                                },
                            }
                        }
                    },
                }
            }
        },
    }
}

/// Decoding the framed pong packet from the front of `s`: the echoed payload
/// and the bytes consumed, or the error forced.
pub open spec fn pong_decode(s: Seq<u8>) -> Result<(i64, nat), ProtocolError> {
    match varint_decode(s, 5) {
        Err(e) => Err(e),
        Ok((len, n)) => {
            if (len as i32) < 0 {
                Err(ProtocolError::Malformed)
            } else if s.len() - n < len {
                Err(ProtocolError::Truncated)
            } else {
                let body = s.subrange(n as int, n + len);
                match varint_decode(body, 5) {
                    Err(e) => Err(e),
                    Ok((pid, m)) => {
                        if pid != 1 {
                            Err(ProtocolError::UnexpectedPacketId)
                        } else {
                            match long_decode(body.skip(m as int)) {
                                Err(e) => Err(e),
                                Ok((payload, k)) => {
                                    if m + k != len {
                                        Err(ProtocolError::TrailingData)
                                    } else {
                                        Ok((payload, (n + len) as nat))
                                    }
                                },
                            }
                        }
                    },
                }
            }
        },
    }
}

/// Reads the framed status response: expects packet ID 0 and a single
/// string field holding the JSON status document.  The read is restricted to
/// the declared packet length; leftover bytes inside it are `TrailingData`.
pub fn read_status_response(input: &mut ByteReader) -> (res: Result<String, ProtocolError>)
    requires
        old(input).wf(),
    ensures
        final(input).wf(),
        final(input).all_bytes() == old(input).all_bytes(),
        old(input).cursor() <= final(input).cursor(),
        match res {
            Ok(s) => status_response_decode(old(input).remaining()) matches Ok((chars, n))
                && s@ == chars
                && final(input).cursor() == old(input).cursor() + n,
            Err(e) => status_response_decode(old(input).remaining())
                    == Err::<(Seq<char>, nat), ProtocolError>(e)
                && (match varint_decode(old(input).remaining(), 5) {
                    Err(_) => final(input).cursor() <= old(input).cursor() + 5,
                    Ok((len, n)) => final(input).cursor() <= old(input).cursor() + n + (
                    if (len as i32) < 0 {
                        0int
                    } else {
                        len as int
                    }),
                }),
        },
{
    let ghost orem = old(input).remaining();
    let len = match read_var_int(input) {
        Ok(l) => l,
        Err(e) => {
            return Err(e);
        },
    };
    let ghost w = varint_decode(orem, 5)->Ok_0.0;
    let ghost n = varint_decode(orem, 5)->Ok_0.1;
    if len < 0 {
        return Err(ProtocolError::Malformed);
    }
    proof {
        assert(((w as i32) as usize) == w && w <= 0x7fff_ffffu32) by (bit_vector)
            requires (w as i32) >= 0;
        assert(input.remaining() =~= orem.skip(n as int));
    }
    let len = len as usize;
    if input.remaining_len() < len {
        return Err(ProtocolError::Truncated);
    }
    let body_bytes = input.take_bytes(len);
    let ghost bodyseq = orem.subrange(n as int, n + (len as int));
    proof {
        assert(body_bytes@ =~= bodyseq);
    }
    let mut body = ByteReader::new(body_bytes);
    proof {
        assert(body.remaining() =~= bodyseq);
    }
    let pid = match read_var_int(&mut body) {
        Ok(p) => p,
        Err(e) => {
            return Err(e);
        },
    };
    let ghost pw = varint_decode(bodyseq, 5)->Ok_0.0;
    let ghost m = varint_decode(bodyseq, 5)->Ok_0.1;
    proof {
        assert(((pw as i32) == 0) == (pw == 0)) by (bit_vector);
    }
    if pid != 0 {
        return Err(ProtocolError::UnexpectedPacketId);
    }
    proof {
        assert(body.remaining() =~= bodyseq.skip(m as int));
    }
    let s = match read_string(&mut body) {
        Ok(s) => s,
        Err(e) => {
            return Err(e);
        },
    };
    if body.remaining_len() != 0 {
        return Err(ProtocolError::TrailingData);
    }
    Ok(s)
}

/// Reads the framed pong response: expects packet ID 1 and an eight-byte
/// payload, with the same length restriction as the status response.
pub fn read_pong_response(input: &mut ByteReader) -> (res: Result<i64, ProtocolError>)
    requires
        old(input).wf(),
    ensures
        final(input).wf(),
        final(input).all_bytes() == old(input).all_bytes(),
        old(input).cursor() <= final(input).cursor(),
        match res {
            Ok(payload) => pong_decode(old(input).remaining()) matches Ok((p, n))
                && payload == p
                && final(input).cursor() == old(input).cursor() + n,
            Err(e) => pong_decode(old(input).remaining())
                    == Err::<(i64, nat), ProtocolError>(e)
                && (match varint_decode(old(input).remaining(), 5) {
                    Err(_) => final(input).cursor() <= old(input).cursor() + 5,
                    Ok((len, n)) => final(input).cursor() <= old(input).cursor() + n + (
                    if (len as i32) < 0 {
                        0int
                    } else {
                        len as int
                    }),
                }),
        },
{
    let ghost orem = old(input).remaining();
    let len = match read_var_int(input) {
        Ok(l) => l,
        Err(e) => {
            return Err(e);
        },
    };
    let ghost w = varint_decode(orem, 5)->Ok_0.0;
    let ghost n = varint_decode(orem, 5)->Ok_0.1;
    if len < 0 {
        return Err(ProtocolError::Malformed);
    }
    proof {
        assert(((w as i32) as usize) == w && w <= 0x7fff_ffffu32) by (bit_vector)
            requires (w as i32) >= 0;
        assert(input.remaining() =~= orem.skip(n as int));
    }
    let len = len as usize;
    if input.remaining_len() < len {
        return Err(ProtocolError::Truncated);
    }
    let body_bytes = input.take_bytes(len);
    let ghost bodyseq = orem.subrange(n as int, n + (len as int));
    proof {
        assert(body_bytes@ =~= bodyseq);
    }
    let mut body = ByteReader::new(body_bytes);
    proof {
        assert(body.remaining() =~= bodyseq);
    }
    let pid = match read_var_int(&mut body) {
        Ok(p) => p,
        Err(e) => {
            return Err(e);
        },
    };
    let ghost pw = varint_decode(bodyseq, 5)->Ok_0.0;
    let ghost m = varint_decode(bodyseq, 5)->Ok_0.1;
    proof {
        assert(((pw as i32) == 1) == (pw == 1)) by (bit_vector);
    }
    if pid != 1 {
        return Err(ProtocolError::UnexpectedPacketId);
    }
    proof {
        assert(body.remaining() =~= bodyseq.skip(m as int));
    }
    let payload = match read_long(&mut body) {
        Ok(p) => p,
        Err(e) => {
            return Err(e);
        },
    };
    if body.remaining_len() != 0 {
        return Err(ProtocolError::TrailingData);
    }
    Ok(payload)
}

/// Framer integrity: a status packet whose declared length differs from the
/// actual encoded length of its fields (packet ID plus string payload) never
/// decodes successfully — it fails with `TrailingData` or `Truncated`.
pub proof fn lemma_framer_integrity(payload: Seq<char>, declared: u32, rest: Seq<u8>)
    requires
        vstd::utf8::encode_utf8(payload).len() <= i32::MAX,
        (declared as i32) >= 0,
        declared != 1 + wire_string_bytes(payload).len(),
    ensures
        ({
            let s = varint_bytes(declared) + (varint_bytes(0) + wire_string_bytes(payload))
                + rest;
            status_response_decode(s) == Err::<(Seq<char>, nat), ProtocolError>(
                ProtocolError::TrailingData,
            ) || status_response_decode(s) == Err::<(Seq<char>, nat), ProtocolError>(
                ProtocolError::Truncated,
            )
        }),
{
    let wsb = wire_string_bytes(payload);
    let avail = (varint_bytes(0) + wsb) + rest;
    let s = varint_bytes(declared) + avail;
    assert(varint_bytes(declared) + (varint_bytes(0) + wire_string_bytes(payload)) + rest =~= s);
    lemma_varint_bytes_len(declared);
    lemma_varint_round_trip(declared, avail, 5);
    let n = varint_bytes(declared).len();
    if avail.len() < declared {
        // fewer bytes available than the frame declares
    } else {
        let body = s.subrange(n as int, n + (declared as int));
        assert(body =~= avail.take(declared as int));
        if declared == 0 {
            assert(body.len() == 0);
        } else {
            assert(body[0] == 0);
            assert(varint_decode(body, 5) == Ok::<(u32, nat), ProtocolError>((0, 1)));
            let tail = body.skip(1);
            if declared - 1 < wsb.len() {
                assert(tail =~= wsb.take(declared - 1));
                lemma_string_prefix_truncated(payload, declared - 1);
            } else {
                assert(declared - 1 > wsb.len());
                assert(tail =~= wsb + rest.take(declared - 1 - wsb.len()));
                lemma_string_round_trip(payload, rest.take(declared - 1 - wsb.len()));
            }
        }
    }
}

/// Whether the bytes at the front of `s` settle a framed packet's fate:
/// false only while the length prefix, or the declared body, is still
/// incomplete — then more bytes can change the decoders' outcome.
pub open spec fn spec_frame_ready(s: Seq<u8>) -> bool {
    match varint_decode(s, 5) {
        Err(ProtocolError::Truncated) => false,
        Err(_) => true,
        Ok((len, n)) => (len as i32) < 0 || s.len() - n >= len,
    }
}

/// Whether a whole frame (or an error no further bytes can cure) lies at
/// the reader's cursor.  A caller that feeds a reader from a stream reads
/// more bytes while this is false and decodes once it turns true; by
/// [`lemma_settled_frame_stable`] the decoders' results are then final, so
/// an error aborts at once instead of waiting for data that cannot help.
pub fn frame_ready(input: &ByteReader) -> (r: bool)
    requires
        input.wf(),
    ensures
        r == spec_frame_ready(input.remaining()),
{
    proof {
        assert(input.remaining().skip(0) =~= input.remaining());
        crate::wire::lemma_varint_decode_len(input.remaining(), 5);
    }
    match input.peek_var_int(0, 5) {
        Err(ProtocolError::Truncated) => false,
        Err(_) => true,
        Ok((len, n)) => {
            let signed = len as i32;
            if signed < 0 {
                true
            } else {
                proof {
                    assert(((len as i32) as usize) == len && len <= 0x7fff_ffffu32)
                        by (bit_vector)
                        requires (len as i32) >= 0;
                }
                input.remaining_len() - n >= signed as usize
            }
        },
    }
}

/// Once a frame's fate is settled, later bytes cannot change it: both
/// packet decoders return the same result on any extension of the stream.
pub proof fn lemma_settled_frame_stable(s: Seq<u8>, ext: Seq<u8>)
    requires
        spec_frame_ready(s),
    ensures
        spec_frame_ready(s + ext),
        status_response_decode(s + ext) == status_response_decode(s),
        pong_decode(s + ext) == pong_decode(s),
{
    match varint_decode(s, 5) {
        Err(e) => {
            crate::wire::lemma_varint_decode_extend(s, ext, 5);
        },
        Ok((len, n)) => {
            crate::wire::lemma_varint_decode_extend(s, ext, 5);
            if (len as i32) >= 0 {
                crate::wire::lemma_varint_decode_len(s, 5);
                assert((s + ext).subrange(n as int, n + len) =~= s.subrange(
                    n as int,
                    n + len,
                ));
            }
        },
    }
}

/// Compares the echoed pong payload against the sent ping payload: a
/// mismatch is a fatal `ProtocolMismatch`, never a retryable condition.
pub fn check_pong(sent: i64, received: i64) -> (res: Result<(), ProtocolError>)
    ensures
        sent == received ==> res is Ok,
        sent != received ==> res == Err::<(), ProtocolError>(ProtocolError::ProtocolMismatch),
{
    if sent == received {
        Ok(())
    } else {
        Err(ProtocolError::ProtocolMismatch)
    }
}

} // verus!
