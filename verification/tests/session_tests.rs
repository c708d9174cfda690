use std::time::Instant;

use mcping::chat::chat_to_str;
use mcping::packets::check_pong;
use mcping::packets::frame_ready;
use mcping::packets::read_pong_response;
use mcping::packets::read_status_response;
use mcping::packets::send_handshake;
use mcping::packets::send_ping_request;
use mcping::packets::send_status_request;
use mcping::status::parse_status_response;
use mcping::wire::ByteReader;
use mcping::wire::ProtocolError;
use mcping::wire::write_long;
use mcping::wire::write_string;
use mcping::wire::write_var_int;

/// Frames a packet body the way a peer would: length prefix, then body.
fn frame(body: Vec<u8>) -> Vec<u8> {
    let mut framed: Vec<u8> = vec![];
    write_var_int(&mut framed, body.len() as i32).unwrap();
    framed.extend_from_slice(&body);
    framed
}

/// A status-response packet carrying the given JSON document.
fn status_frame(json: &str) -> Vec<u8> {
    let mut body: Vec<u8> = vec![];
    write_var_int(&mut body, 0).unwrap();
    write_string(&mut body, json).unwrap();
    frame(body)
}

/// A pong packet echoing the given payload.
fn pong_frame(payload: i64) -> Vec<u8> {
    let mut body: Vec<u8> = vec![];
    write_var_int(&mut body, 1).unwrap();
    write_long(&mut body, payload).unwrap();
    frame(body)
}

#[test]
fn test_handshake_bytes() {
    let mut out: Vec<u8> = vec![];
    send_handshake(&mut out, "localhost", 25565).unwrap();
    // length 15, id 0, protocol 0, string "localhost", port 25565, state 1
    let expected: &[u8] = &[
        0x0F, 0x00, 0x00, 0x09, b'l', b'o', b'c', b'a', b'l', b'h', b'o', b's', b't', 0x63,
        0xDD, 0x01,
    ];
    assert_eq!(out.as_slice(), expected);
}

#[test]
fn test_status_request_bytes() {
    let mut out: Vec<u8> = vec![];
    send_status_request(&mut out).unwrap();
    assert_eq!(out.as_slice(), &[0x01, 0x00]);
}

#[test]
fn test_ping_request_bytes() {
    let mut out: Vec<u8> = vec![];
    send_ping_request(&mut out, 0x0102030405060708).unwrap();
    assert_eq!(
        out.as_slice(),
        &[0x09, 0x01, 1, 2, 3, 4, 5, 6, 7, 8]
    );
}

#[test]
fn test_scripted_session_completes() {
    // the peer answers the handshake and status request with a status
    // document, then echoes the ping payload exactly
    let mut outgoing: Vec<u8> = vec![];
    send_handshake(&mut outgoing, "localhost", 25565).unwrap();
    send_status_request(&mut outgoing).unwrap();
    assert!(!outgoing.is_empty());

    let json = "{\"description\":\"hi\",\"version\":{\"name\":\"1.0\",\"protocol\":1},\
                \"players\":{\"online\":1,\"max\":2}}";
    let mut incoming = ByteReader::new(status_frame(json));
    let started = Instant::now();
    let received_json = read_status_response(&mut incoming).unwrap();
    assert_eq!(received_json, json);

    let response = parse_status_response(&received_json).unwrap();
    assert_eq!(response.version.name, "1.0");
    assert_eq!(response.version.protocol, 1);
    assert_eq!(response.players.online, 1);
    assert_eq!(response.players.max, 2);
    assert_eq!(chat_to_str(&response.description, false), "hi");
    assert_eq!(response.favicon, None);

    let ping_payload: i64 = 1700000000;
    let mut ping_bytes: Vec<u8> = vec![];
    send_ping_request(&mut ping_bytes, ping_payload).unwrap();

    let mut pong = ByteReader::new(pong_frame(ping_payload));
    let echoed = read_pong_response(&mut pong).unwrap();
    check_pong(ping_payload, echoed).unwrap();
    let latency = i128::try_from(started.elapsed().as_millis()).unwrap();
    assert!(latency >= 0);
}

#[test]
fn test_pong_mismatch_is_protocol_error() {
    // the peer echoes a different payload: the session must fail with
    // ProtocolMismatch and never report a latency
    let ping_payload: i64 = 1700000000;
    let mut pong = ByteReader::new(pong_frame(ping_payload + 1));
    let echoed = read_pong_response(&mut pong).unwrap();
    let mut latency: Option<u128> = None;
    let started = Instant::now();
    let outcome = check_pong(ping_payload, echoed);
    if outcome.is_ok() {
        latency = Some(started.elapsed().as_millis());
    }
    assert_eq!(outcome, Err(ProtocolError::ProtocolMismatch));
    assert!(latency.is_none());
}

#[test]
fn test_frame_declaring_too_much_is_trailing_data() {
    // the declared length covers two bytes more than the fields consume
    let mut body: Vec<u8> = vec![];
    write_var_int(&mut body, 0).unwrap();
    write_string(&mut body, "{}").unwrap();
    body.push(0xAA);
    body.push(0xBB);
    let mut reader = ByteReader::new(frame(body));
    assert_eq!(
        read_status_response(&mut reader),
        Err(ProtocolError::TrailingData)
    );
}

#[test]
fn test_frame_declaring_too_little_is_truncated() {
    // the declared length cuts the string field short
    let mut body: Vec<u8> = vec![];
    write_var_int(&mut body, 0).unwrap();
    write_string(&mut body, "{}").unwrap();
    let mut framed: Vec<u8> = vec![];
    write_var_int(&mut framed, (body.len() - 1) as i32).unwrap();
    framed.extend_from_slice(&body);
    let mut reader = ByteReader::new(framed);
    assert_eq!(
        read_status_response(&mut reader),
        Err(ProtocolError::Truncated)
    );
}

#[test]
fn test_status_response_unexpected_packet_id() {
    let mut body: Vec<u8> = vec![];
    write_var_int(&mut body, 1).unwrap();
    write_string(&mut body, "{}").unwrap();
    let mut reader = ByteReader::new(frame(body));
    assert_eq!(
        read_status_response(&mut reader),
        Err(ProtocolError::UnexpectedPacketId)
    );
}

#[test]
fn test_pong_unexpected_packet_id() {
    let mut body: Vec<u8> = vec![];
    write_var_int(&mut body, 0).unwrap();
    write_long(&mut body, 7).unwrap();
    let mut reader = ByteReader::new(frame(body));
    assert_eq!(
        read_pong_response(&mut reader),
        Err(ProtocolError::UnexpectedPacketId)
    );
}

#[test]
fn test_pong_with_trailing_byte() {
    let mut body: Vec<u8> = vec![];
    write_var_int(&mut body, 1).unwrap();
    write_long(&mut body, 7).unwrap();
    body.push(0x00);
    let mut reader = ByteReader::new(frame(body));
    assert_eq!(
        read_pong_response(&mut reader),
        Err(ProtocolError::TrailingData)
    );
}

#[test]
fn test_negative_frame_length_is_malformed() {
    let mut framed: Vec<u8> = vec![];
    write_var_int(&mut framed, -1).unwrap();
    framed.push(0x00);
    let mut reader = ByteReader::new(framed);
    assert_eq!(
        read_status_response(&mut reader),
        Err(ProtocolError::Malformed)
    );
}

#[test]
fn test_frame_ready_tracks_missing_bytes() {
    let whole = status_frame("{}");
    // every strict prefix still waits for bytes; the whole frame is ready
    for cut in 0..whole.len() {
        let reader = ByteReader::new(whole[..cut].to_vec());
        assert!(!frame_ready(&reader));
    }
    assert!(frame_ready(&ByteReader::new(whole)));
    // a frame whose fields are cut short by the declared length is ready
    // (and then fails), so a caller need not wait for more bytes
    let mut body: Vec<u8> = vec![];
    write_var_int(&mut body, 0).unwrap();
    write_string(&mut body, "{}").unwrap();
    let mut framed: Vec<u8> = vec![];
    write_var_int(&mut framed, (body.len() - 1) as i32).unwrap();
    framed.extend_from_slice(&body[..body.len() - 1]);
    let reader = ByteReader::new(framed);
    assert!(frame_ready(&reader));
    let mut reader = reader;
    assert_eq!(
        read_status_response(&mut reader),
        Err(ProtocolError::Truncated)
    );
    // a negative declared length can never complete: ready, then Malformed
    let mut negative: Vec<u8> = vec![];
    write_var_int(&mut negative, -1).unwrap();
    assert!(frame_ready(&ByteReader::new(negative)));
}

#[test]
fn test_status_response_leaves_later_bytes_unread() {
    // bytes after the frame belong to the next packet and stay unread
    let json = "{}";
    let mut stream = status_frame(json);
    let pong = pong_frame(42);
    stream.extend_from_slice(&pong);
    let mut reader = ByteReader::new(stream);
    assert_eq!(read_status_response(&mut reader).unwrap(), json);
    assert_eq!(reader.remaining_len(), pong.len());
    assert_eq!(read_pong_response(&mut reader).unwrap(), 42);
}
