use hello_dual::codec::{encode_envelope, parse_envelope, put_chunk, take_chunk, DecodeError};
use hello_dual::http::path_of;
use hello_dual::mux::{classify, rpc_preface, Protocol};

#[test]
fn chunk_encoding_layout() {
    let mut out: Vec<u8> = Vec::new();
    put_chunk(&mut out, &[1, 2, 3]);
    assert_eq!(out, vec![3, 0, 0, 0, 1, 2, 3]);
}

#[test]
fn chunk_round_trip() {
    let mut out: Vec<u8> = Vec::new();
    put_chunk(&mut out, b"payload");
    let (payload, next) = take_chunk(&out, 0).unwrap();
    assert_eq!(payload, b"payload");
    assert_eq!(next, out.len());
}

#[test]
fn envelope_round_trip() {
    let frame = encode_envelope(b"svc", b"method", b"body bytes");
    let (service, method, body) = parse_envelope(&frame).unwrap();
    assert_eq!(service, b"svc");
    assert_eq!(method, b"method");
    assert_eq!(body, b"body bytes");
}

#[test]
fn truncated_frame_rejected() {
    assert_eq!(take_chunk(&[1, 0], 0), Err(DecodeError::Truncated));
    assert_eq!(parse_envelope(&[]).unwrap_err(), DecodeError::Truncated);
    // A length prefix that promises more bytes than there are.
    assert_eq!(take_chunk(&[9, 0, 0, 0, 1], 0), Err(DecodeError::Truncated));
}

#[test]
fn trailing_bytes_rejected() {
    let mut frame = encode_envelope(b"svc", b"m", b"b");
    frame.push(0);
    assert_eq!(parse_envelope(&frame).unwrap_err(), DecodeError::TrailingBytes);
}

#[test]
fn preface_classification() {
    let mut rpc_data = rpc_preface();
    rpc_data.extend_from_slice(b"anything");
    assert_eq!(classify(&rpc_data), Protocol::Rpc);
    assert_eq!(classify(b"GET / HTTP/1.1"), Protocol::Http);
    assert_eq!(classify(b""), Protocol::Http);
    assert_eq!(classify(b"RPC"), Protocol::Http);
}

#[test]
fn path_of_strips_query() {
    assert_eq!(path_of("/a?b=1"), "/a");
    assert_eq!(path_of("/"), "/");
    assert_eq!(path_of("/?x=1&y=2"), "/");
    assert_eq!(path_of("?q"), "");
}
